//! Board listings and the sub-issue tree stitched onto a board's cards.
use vstd::prelude::*;
use crate::board::last_where;
use crate::model::{Item, ItemView, KeyView, ParentRef, items_view, opt_key_view};
use crate::text::str_eq;

verus! {

/// A board as listed by `gh project list` — enough for the wizard's picker.
#[derive(Debug, Clone, PartialEq, Eq)]
pub struct BoardSummary {
    pub number: u32,
    pub title: String,
}

/// The views of `child → parent` links.
pub open spec fn links_view(links: Seq<(ParentRef, ParentRef)>) -> Seq<(KeyView, KeyView)> {
    links.map_values(|l: (ParentRef, ParentRef)| (l.0@, l.1@))
}

/// Link `j` starts at `k`.
pub open spec fn link_from(links: Seq<(KeyView, KeyView)>, k: KeyView) -> spec_fn(int) -> bool {
    |j: int| links[j].0 == k
}

/// The parent recorded for `k`: the last link from it (a later page's entry
/// overwrites an earlier one, as inserting into a map does).
pub open spec fn link_of(links: Seq<(KeyView, KeyView)>, k: KeyView) -> Option<KeyView> {
    match last_where(links.len() as int, link_from(links, k)) {
        Some(j) => Some(links[j].1),
        None => None,
    }
}

/// A card with its parent set from `links`.
pub open spec fn stitched(it: ItemView, links: Seq<(KeyView, KeyView)>) -> ItemView {
    ItemView {
        parent: match it.key() {
            Some(k) => link_of(links, k),
            None => None,
        },
        ..it
    }
}

/// The parent recorded for `k`.
fn find_link(links: &Vec<(ParentRef, ParentRef)>, k: &ParentRef) -> (r: Option<ParentRef>)
    ensures
        opt_key_view(r) == link_of(links_view(links@), k@),
{
    let ghost lv = links_view(links@);
    let mut found: Option<ParentRef> = None;
    let mut j: usize = 0;
    while j < links.len()
        invariant
            j <= links@.len(),
            lv == links_view(links@),
            opt_key_view(found) == match last_where(j as int, link_from(lv, k@)) {
                Some(x) => Some(lv[x].1),
                None => None,
            },
        decreases links.len() - j,
    {
        let l = &links[j];
        assert(lv[j as int] == (l.0@, l.1@));
        if l.0.number == k.number && str_eq(l.0.repository.as_str(), k.repository.as_str()) {
            found = Some(l.1.clone());
        }
        j += 1;
    }
    found
}

/// Stitch the sub-issue tree onto a board: each card whose handle has a
/// recorded parent gets it; every other card gets none.
pub fn stitch_parents(items: &mut Vec<Item>, links: &Vec<(ParentRef, ParentRef)>)
    ensures
        final(items)@.len() == old(items)@.len(),
        forall|i: int|
            0 <= i < old(items)@.len() ==> (#[trigger] items_view(final(items)@)[i]) == stitched(
                items_view(old(items)@)[i],
                links_view(links@),
            ),
{
    let ghost lv = links_view(links@);
    let ghost before = items_view(items@);
    let mut i: usize = 0;
    while i < items.len()
        invariant
            i <= items@.len(),
            items@.len() == before.len(),
            lv == links_view(links@),
            forall|x: int| 0 <= x < i ==> (#[trigger] items_view(items@)[x]) == stitched(before[x], lv),
            forall|x: int| i <= x < items@.len() ==> (#[trigger] items_view(items@)[x]) == before[x],
        decreases items.len() - i,
    {
        assert(items_view(items@)[i as int] == items@[i as int]@);
        let key = items[i].key();
        let p = match &key {
            Some(k) => find_link(links, k),
            None => None,
        };
        let ghost prev = items@;
        items[i].parent = p;
        proof {
            assert(items_view(prev)[i as int] == before[i as int]);
            assert(items_view(items@)[i as int] == stitched(before[i as int], lv));
            assert forall|x: int| 0 <= x < items@.len() && x != i implies #[trigger] items_view(
                items@,
            )[x] == items_view(prev)[x] by {
                assert(items@[x] == prev[x]);
            }
        }
        i += 1;
    }
}

/// One node of a sub-issue page as the API gives it: the issue's number and
/// repo, and its parent's handle when it has one.
pub struct LinkNode {
    pub number: Option<u64>,
    pub repository: Option<String>,
    pub parent: Option<ParentRef>,
}

/// The `child → parent` link a node carries: only a node with a number, a
/// repo and a parent carries one.
pub open spec fn node_link(n: LinkNode) -> Option<(KeyView, KeyView)> {
    match (n.number, n.repository, n.parent) {
        (Some(k), Some(r), Some(p)) => Some(((r@, k), p@)),
        _ => None,
    }
}

/// The links of `ns`, in order, skipping nodes that carry none.
pub open spec fn node_links(ns: Seq<LinkNode>) -> Seq<(KeyView, KeyView)>
    decreases ns.len(),
{
    if ns.len() == 0 {
        Seq::empty()
    } else {
        let q = node_links(ns.drop_last());
        match node_link(ns.last()) {
            Some(l) => q.push(l),
            None => q,
        }
    }
}

/// Append the links a page's nodes carry to `out`, in order.
pub fn fold_nodes(nodes: &Vec<LinkNode>, out: &mut Vec<(ParentRef, ParentRef)>)
    ensures
        links_view(final(out)@) == links_view(old(out)@) + node_links(nodes@),
{
    let ghost start = links_view(out@);
    let mut k: usize = 0;
    while k < nodes.len()
        invariant
            k <= nodes@.len(),
            links_view(out@) == start + node_links(nodes@.take(k as int)),
        decreases nodes.len() - k,
    {
        assert(nodes@.take(k + 1).drop_last() =~= nodes@.take(k as int));
        assert(nodes@.take(k + 1).last() == nodes@[k as int]);
        let n = &nodes[k];
        match (&n.number, &n.repository, &n.parent) {
            (Some(num), Some(repo), Some(p)) => {
                let child = ParentRef { repository: repo.clone(), number: *num };
                let parent = p.clone();
                let ghost before = links_view(out@);
                out.push((child, parent));
                assert(links_view(out@) =~= before.push(((repo@, *num), p@)));
                assert(links_view(out@) =~= start + node_links(nodes@.take(k + 1)));
            },
            _ => {},
        }
        k += 1;
    }
    assert(nodes@.take(nodes@.len() as int) =~= nodes@);
}

/// The cursor of the page after this one: its end cursor when there is a
/// next page, else none.
pub fn next_cursor(has_next: bool, end_cursor: Option<String>) -> (r: Option<String>)
    ensures
        crate::model::opt_view(r) == if has_next {
            crate::model::opt_view(end_cursor)
        } else {
            None
        },
{
    if has_next {
        end_cursor
    } else {
        None
    }
}

} // verus!
