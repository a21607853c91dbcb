//! Application state, selection, and the filtered, status-grouped view.
use vstd::prelude::*;
use crate::attach::{self, ContentPart, parts_view, split_spec};
use crate::board::{
    lemma_first_where_found, lemma_first_where_none, lemma_first_where_some, children_of, child_list, compute_view, sort_by_key, first_where, group_key, last_where, view_nested,
    view_visible,
};
use crate::config::schema::{
    Filter, FilterView, Preset, PresetView, ProjectConfig, any_eq_ic, any_ic, lemma_saved_presets,
    presets_view, rank, save_into, saved_presets,
};
use crate::gh::issue::IssueDetail;
use crate::gh::write::StatusField;
use crate::model::{Item, ItemView, KeyView, clone_strings, items_view, opt_view, strs_view};
use crate::text::{eq_ic, str_eq, to_lower, to_owned_string, trim};

verus! {

/// State of the right-hand detail pane for the current selection.
pub enum DetailState {
    Empty,
    Draft,
    Loading,
    Loaded(IssueDetail),
    Error(String),
}

/// Whether keystrokes drive navigation or the live filter input.
#[derive(Debug, Clone, Copy, PartialEq, Eq, Structural)]
pub enum InputMode {
    Normal,
    Filter,
}

/// One row of the rendered list: a status-group header or a card.
#[derive(Debug, Clone, Copy, PartialEq, Eq, Structural)]
pub enum Row {
    /// A collapsible status header; indexes `App::groups`.
    Header(usize),
    /// A card; indexes `App::items`.
    Item(usize),
}

/// A run of `visible` sharing a status column, rendered under one header.
#[derive(Debug, Clone, PartialEq, Eq)]
pub struct Group {
    /// Display name — the board's status text, or `No status`.
    pub name: String,
    /// The status as the board reports it; `None` for cards without one.
    pub status: Option<String>,
    /// Cards in the group, nested rows included.
    pub count: usize,
    pub collapsed: bool,
}

/// The mathematical content of a group.
pub struct GroupView {
    pub name: Seq<char>,
    pub status: Option<Seq<char>>,
    pub count: nat,
    pub collapsed: bool,
}

impl View for Group {
    type V = GroupView;

    open spec fn view(&self) -> GroupView {
        GroupView {
            name: self.name@,
            status: opt_view(self.status),
            count: self.count as nat,
            collapsed: self.collapsed,
        }
    }
}

/// The views of a list of groups.
pub open spec fn groups_view(v: Seq<Group>) -> Seq<GroupView> {
    v.map_values(|g: Group| g@)
}

/// The header label for cards with no status column value.
pub const NO_STATUS: &'static str = "No status";

/// `NO_STATUS`, as characters.
pub open spec fn no_status_text() -> Seq<char> {
    seq!['N', 'o', ' ', 's', 't', 'a', 't', 'u', 's']
}

impl Group {
    /// Key into `App::collapsed`: the status, case-folded; `""` for `None`.
    pub fn key(status: Option<&str>) -> (r: String)
        ensures
            r@ == group_key(
                match status {
                    Some(s) => Some(s@),
                    None => None,
                },
            ),
    {
        match status {
            Some(s) => to_lower(s),
            None => String::new(),
        }
    }
}

/// Lay out `visible` as status groups and rows: each top-level card opens a
/// new group when its status key differs from the previous group's; nested
/// cards stay in their parent's group; a collapsed group keeps only its header.
pub open spec fn layout(
    items: Seq<ItemView>,
    visible: Seq<usize>,
    nested: Seq<usize>,
    collapsed: Seq<Seq<char>>,
) -> (Seq<GroupView>, Seq<Row>)
    decreases visible.len(),
{
    if visible.len() == 0 {
        (Seq::empty(), Seq::empty())
    } else {
        let prev = layout(items, visible.drop_last(), nested, collapsed);
        let gs = prev.0;
        let rs = prev.1;
        let i = visible.last();
        let st = items[i as int].status;
        let is_nested = nested.contains(i);
        let same = !is_nested && gs.len() > 0 && group_key(gs.last().status) == group_key(st);
        let open = gs.len() == 0 || (!is_nested && !same);
        let gs1 = if open {
            gs.push(
                GroupView {
                    name: match st {
                        Some(s) => s,
                        None => no_status_text(),
                    },
                    status: st,
                    count: 0,
                    collapsed: collapsed.contains(group_key(st)),
                },
            )
        } else {
            gs
        };
        let rs1 = if open {
            rs.push(Row::Header(gs.len() as usize))
        } else {
            rs
        };
        let g = gs1.last();
        (
            gs1.update(gs1.len() - 1, GroupView { count: g.count + 1, ..g }),
            if g.collapsed {
                rs1
            } else {
                rs1.push(Row::Item(i))
            },
        )
    }
}

/// Row `r` of `rows` is the header of group `g` for some `r`.
pub open spec fn has_header(rows: Seq<Row>, g: int) -> bool {
    exists|r: int| 0 <= r < rows.len() && #[trigger] rows[r] == Row::Header(g as usize)
}

/// Every row of a layout points at a group or a card of `visible`, group counts
/// stay within the number of laid-out cards, and every group has a header row.
pub proof fn lemma_layout_valid(
    items: Seq<ItemView>,
    visible: Seq<usize>,
    nested: Seq<usize>,
    collapsed: Seq<Seq<char>>,
)
    ensures
        ({
            let (gs, rs) = layout(items, visible, nested, collapsed);
            &&& gs.len() <= visible.len()
            &&& rs.len() <= 2 * visible.len()
            &&& visible.len() > 0 ==> gs.len() > 0
            &&& forall|r: int|
                0 <= r < rs.len() ==> match #[trigger] rs[r] {
                    Row::Header(g) => g < gs.len(),
                    Row::Item(i) => visible.contains(i),
                }
            &&& forall|g: int| 0 <= g < gs.len() ==> (#[trigger] gs[g]).count <= visible.len()
            &&& forall|g: int| 0 <= g < gs.len() ==> #[trigger] has_header(rs, g)
        }),
    decreases visible.len(),
{
    if visible.len() > 0 {
        let pv = visible.drop_last();
        lemma_layout_valid(items, pv, nested, collapsed);
        let (gs0, rs0) = layout(items, pv, nested, collapsed);
        let (gs, rs) = layout(items, visible, nested, collapsed);
        assert forall|r: int| 0 <= r < rs.len() implies match #[trigger] rs[r] {
            Row::Header(g) => g < gs.len(),
            Row::Item(i) => visible.contains(i),
        } by {
            if r < rs0.len() {
                assert(rs[r] == rs0[r]);
                if let Row::Item(i) = rs0[r] {
                    let k = choose|k: int| 0 <= k < pv.len() && pv[k] == i;
                    assert(visible[k] == i);
                }
            } else {
                if let Row::Item(i) = rs[r] {
                    assert(visible[visible.len() - 1] == i);
                }
            }
        }
        assert forall|g: int| 0 <= g < gs.len() implies #[trigger] has_header(rs, g) by {
            if g < gs0.len() {
                assert(has_header(rs0, g));
                let r = choose|r: int| 0 <= r < rs0.len() && #[trigger] rs0[r] == Row::Header(g as usize);
                assert(rs[r] == rs0[r]);
            } else {
                assert(rs[rs0.len() as int] == Row::Header(g as usize));
            }
        }
    }
}

/// Row `r` of `rows` shows a card.
pub open spec fn is_item_row(rows: Seq<Row>) -> spec_fn(int) -> bool {
    |r: int| rows[r] is Item
}

/// Position `k` of `visible` holds the card with id `id`.
pub open spec fn id_at(items: Seq<ItemView>, visible: Seq<usize>, id: Seq<char>) -> spec_fn(int) -> bool {
    |k: int| items[visible[k] as int].id == id
}

/// Row `r` of `rows` shows card `idx`.
pub open spec fn shows_item(rows: Seq<Row>, idx: usize) -> spec_fn(int) -> bool {
    |r: int| rows[r] == Row::Item(idx)
}

/// Position `k` of `visible` holds a top-level (not nested) card.
pub open spec fn top_level(visible: Seq<usize>, nested: Seq<usize>) -> spec_fn(int) -> bool {
    |k: int| !nested.contains(visible[k])
}

/// Row `r` of `rows` is the header of a group whose status key is `key`.
pub open spec fn header_with_key(groups: Seq<GroupView>, rows: Seq<Row>, key: Seq<char>) -> spec_fn(
    int,
) -> bool {
    |r: int| rows[r] is Header && group_key(groups[rows[r]->Header_0 as int].status) == key
}

/// The row selected after a view rebuild with nothing to keep: the first card
/// row, else the first row, else none.
pub open spec fn initial_selection(rows: Seq<Row>) -> Option<int> {
    match first_where(rows.len() as int, is_item_row(rows)) {
        Some(r) => Some(r),
        None => if rows.len() > 0 {
            Some(0)
        } else {
            None
        },
    }
}

/// The row showing the card with id `id`, or the header of its group when that
/// group is folded (a nested card's group is that of the nearest top-level card
/// above it); `None` when the card isn't in the view.
pub open spec fn row_of_id(
    items: Seq<ItemView>,
    visible: Seq<usize>,
    nested: Seq<usize>,
    groups: Seq<GroupView>,
    rows: Seq<Row>,
    id: Seq<char>,
) -> Option<int> {
    match first_where(visible.len() as int, id_at(items, visible, id)) {
        None => None,
        Some(k0) => {
            let idx = visible[k0];
            match first_where(rows.len() as int, shows_item(rows, idx)) {
                Some(r) => Some(r),
                None => {
                    let top = match last_where(k0 + 1, top_level(visible, nested)) {
                        Some(k) => visible[k],
                        None => idx,
                    };
                    first_where(
                        rows.len() as int,
                        header_with_key(groups, rows, group_key(items[top as int].status)),
                    )
                },
            }
        },
    }
}

/// The selection after a rebuild that tries to keep the card `keep`.
pub open spec fn selection_after(
    items: Seq<ItemView>,
    visible: Seq<usize>,
    nested: Seq<usize>,
    groups: Seq<GroupView>,
    rows: Seq<Row>,
    keep: Option<Seq<char>>,
) -> Option<int> {
    match keep {
        Some(id) => match row_of_id(items, visible, nested, groups, rows, id) {
            Some(r) => Some(r),
            None => initial_selection(rows),
        },
        None => initial_selection(rows),
    }
}

pub open spec fn opt_usize(o: Option<usize>) -> Option<int> {
    match o {
        Some(u) => Some(u as int),
        None => None,
    }
}

/// Whether `v` holds `x`.
pub fn contains_index(v: &Vec<usize>, x: usize) -> (r: bool)
    ensures
        r == v@.contains(x),
{
    let mut i: usize = 0;
    while i < v.len()
        invariant
            i <= v@.len(),
            forall|j: int| 0 <= j < i ==> v@[j] != x,
        decreases v.len() - i,
    {
        if v[i] == x {
            assert(v@[i as int] == x);
            return true;
        }
        i += 1;
    }
    false
}

/// Whether `v` holds the string `s`.
pub fn contains_string(v: &Vec<String>, s: &str) -> (r: bool)
    ensures
        r == strs_view(v@).contains(s@),
{
    let mut i: usize = 0;
    while i < v.len()
        invariant
            i <= v@.len(),
            forall|j: int| 0 <= j < i ==> strs_view(v@)[j] != s@,
        decreases v.len() - i,
    {
        assert(strs_view(v@)[i as int] == v@[i as int]@);
        if str_eq(v[i].as_str(), s) {
            return true;
        }
        i += 1;
    }
    false
}

/// Lay out `visible` into groups and rows (the executable `layout`).
pub fn build_rows(
    items: &Vec<Item>,
    visible: &Vec<usize>,
    nested: &Vec<usize>,
    collapsed: &Vec<String>,
) -> (r: (Vec<Group>, Vec<Row>))
    requires
        forall|k: int| 0 <= k < visible@.len() ==> (#[trigger] visible@[k]) < items@.len(),
    ensures
        groups_view(r.0@) == layout(items_view(items@), visible@, nested@, strs_view(collapsed@)).0,
        r.1@ == layout(items_view(items@), visible@, nested@, strs_view(collapsed@)).1,
{
    let ghost iv = items_view(items@);
    let ghost cv = strs_view(collapsed@);
    let mut groups: Vec<Group> = Vec::new();
    let mut rows: Vec<Row> = Vec::new();
    let mut k: usize = 0;
    while k < visible.len()
        invariant
            k <= visible@.len(),
            iv == items_view(items@),
            cv == strs_view(collapsed@),
            forall|x: int| 0 <= x < visible@.len() ==> (#[trigger] visible@[x]) < items@.len(),
            groups_view(groups@) == layout(iv, visible@.take(k as int), nested@, cv).0,
            rows@ == layout(iv, visible@.take(k as int), nested@, cv).1,
        decreases visible.len() - k,
    {
        let ghost pre = visible@.take(k as int);
        let ghost cur = visible@.take(k + 1);
        proof {
            assert(cur.drop_last() =~= pre);
            assert(cur.last() == visible@[k as int]);
            lemma_layout_valid(iv, pre, nested@, cv);
        }
        let i = visible[k];
        let item = &items[i];
        assert(iv[i as int] == item@);
        let is_nested = contains_index(nested, i);
        let key = Group::key(
            match &item.status {
                Some(s) => Some(s.as_str()),
                None => None,
            },
        );
        let same = !is_nested && groups.len() > 0 && {
            let last = &groups[groups.len() - 1];
            let last_key = Group::key(
                match &last.status {
                    Some(s) => Some(s.as_str()),
                    None => None,
                },
            );
            assert(groups_view(groups@).last() == last@);
            str_eq(last_key.as_str(), key.as_str())
        };
        if groups.len() == 0 || (!is_nested && !same) {
            let collapsed_now = contains_string(collapsed, key.as_str());
            let name = match &item.status {
                Some(s) => s.clone(),
                None => {
                    let t = to_owned_string("No status");
                    proof {
                        reveal_strlit("No status");
                        assert(t@ == no_status_text());
                    }
                    t
                },
            };
            let status = crate::model::clone_opt_string(&item.status);
            let gl = groups.len();
            groups.push(Group { name, status, count: 0, collapsed: collapsed_now });
            rows.push(Row::Header(gl));
        }
        let ghost g1 = groups@;
        let mut g = groups.pop().unwrap();
        assert(g == g1.last());
        assert(groups_view(g1).last() == g@);
        assert(g.count <= k);
        g.count = g.count + 1;
        let folded = g.collapsed;
        groups.push(g);
        proof {
            let gv1 = groups_view(g1);
            assert(groups_view(groups@) =~= gv1.update(
                gv1.len() - 1,
                GroupView { count: gv1.last().count + 1, ..gv1.last() },
            ));
        }
        if !folded {
            rows.push(Row::Item(i));
        }
        proof {
            let (gs0, rs0) = layout(iv, pre, nested@, cv);
            let st = iv[i as int].status;
            let opened = gs0.len() == 0 || (!is_nested && !(!is_nested && gs0.len() > 0 && group_key(gs0.last().status) == group_key(st)));
            if opened {
                assert(groups_view(g1) =~= gs0.push(
                    GroupView {
                        name: match st {
                            Some(s) => s,
                            None => no_status_text(),
                        },
                        status: st,
                        count: 0,
                        collapsed: cv.contains(group_key(st)),
                    },
                ));
            } else {
                assert(groups_view(g1) =~= gs0);
            }
            assert(groups_view(groups@) =~= layout(iv, cur, nested@, cv).0);
            assert(rows@ =~= layout(iv, cur, nested@, cv).1);
        }
        k += 1;
    }
    assert(visible@.take(visible@.len() as int) =~= visible@);
    (groups, rows)
}


/// The status key of an optional status (`Group::key` on an owned status).
fn status_key(status: &Option<String>) -> (r: String)
    ensures
        r@ == group_key(opt_view(*status)),
{
    match status {
        Some(s) => Group::key(Some(s.as_str())),
        None => Group::key(None),
    }
}

/// The first card row, else the first row, else none.
fn first_item_row(rows: &Vec<Row>) -> (r: Option<usize>)
    ensures
        opt_usize(r) == initial_selection(rows@),
{
    let ghost pred = is_item_row(rows@);
    let mut r: usize = 0;
    while r < rows.len()
        invariant
            r <= rows@.len(),
            pred == is_item_row(rows@),
            forall|j: int| 0 <= j < r ==> !#[trigger] pred(j),
        decreases rows.len() - r,
    {
        if let Row::Item(_) = rows[r] {
            proof {
                lemma_first_where_found(rows@.len() as int, r as int, pred);
            }
            return Some(r);
        }
        r += 1;
    }
    proof {
        lemma_first_where_none(rows@.len() as int, pred);
    }
    if rows.len() > 0 {
        Some(0)
    } else {
        None
    }
}

/// The row showing the card with id `id`, or its folded group's header.
fn find_row(
    items: &Vec<Item>,
    visible: &Vec<usize>,
    nested: &Vec<usize>,
    groups: &Vec<Group>,
    rows: &Vec<Row>,
    id: &str,
) -> (r: Option<usize>)
    requires
        forall|k: int| 0 <= k < visible@.len() ==> (#[trigger] visible@[k]) < items@.len(),
        forall|x: int|
            0 <= x < rows@.len() ==> ((#[trigger] rows@[x]) matches Row::Header(g) ==> g
                < groups@.len()),
    ensures
        opt_usize(r) == row_of_id(
            items_view(items@),
            visible@,
            nested@,
            groups_view(groups@),
            rows@,
            id@,
        ),
{
    let ghost iv = items_view(items@);
    let ghost gv = groups_view(groups@);
    let ghost p_id = id_at(iv, visible@, id@);
    let mut k: usize = 0;
    while k < visible.len()
        invariant
            k <= visible@.len(),
            iv == items_view(items@),
            p_id == id_at(iv, visible@, id@),
            forall|x: int| 0 <= x < visible@.len() ==> (#[trigger] visible@[x]) < items@.len(),
            forall|j: int| 0 <= j < k ==> !#[trigger] p_id(j),
        ensures
            k == visible@.len() || p_id(k as int),
        decreases visible.len() - k,
    {
        let i = visible[k];
        assert(iv[i as int] == items@[i as int]@);
        if str_eq(items[i].id.as_str(), id) {
            break;
        }
        k += 1;
    }
    if k == visible.len() {
        proof {
            lemma_first_where_none(visible@.len() as int, p_id);
        }
        return None;
    }
    proof {
        lemma_first_where_found(visible@.len() as int, k as int, p_id);
    }
    let idx = visible[k];
    let ghost p_row = shows_item(rows@, idx);
    let mut r: usize = 0;
    while r < rows.len()
        invariant
            r <= rows@.len(),
            iv == items_view(items@),
            p_id == id_at(iv, visible@, id@),
            first_where(visible@.len() as int, p_id) == Some(k as int),
            k < visible@.len(),
            idx == visible@[k as int],
            p_row == shows_item(rows@, idx),
            forall|j: int| 0 <= j < r ==> !#[trigger] p_row(j),
        decreases rows.len() - r,
    {
        if rows[r] == Row::Item(idx) {
            proof {
                lemma_first_where_found(rows@.len() as int, r as int, p_row);
            }
            return Some(r);
        }
        r += 1;
    }
    proof {
        lemma_first_where_none(rows@.len() as int, p_row);
    }
    let ghost p_top = top_level(visible@, nested@);
    let mut j: usize = k + 1;
    while j > 0
        invariant
            j <= k + 1,
            k < visible@.len(),
            p_top == top_level(visible@, nested@),
            last_where(k + 1, p_top) == last_where(j as int, p_top),
        ensures
            j == 0 || p_top(j - 1),
        decreases j,
    {
        if !contains_index(nested, visible[j - 1]) {
            break;
        }
        j -= 1;
    }
    let top = if j > 0 {
        visible[j - 1]
    } else {
        idx
    };
    assert(top == match last_where(k + 1, p_top) {
        Some(t) => visible@[t],
        None => idx,
    });
    assert(iv[top as int] == items@[top as int]@);
    let key = status_key(&items[top].status);
    let ghost p_head = header_with_key(gv, rows@, key@);
    let mut r: usize = 0;
    while r < rows.len()
        invariant
            r <= rows@.len(),
            iv == items_view(items@),
            gv == groups_view(groups@),
            p_id == id_at(iv, visible@, id@),
            first_where(visible@.len() as int, p_id) == Some(k as int),
            k < visible@.len(),
            idx == visible@[k as int],
            p_row == shows_item(rows@, idx),
            first_where(rows@.len() as int, p_row) is None,
            p_top == top_level(visible@, nested@),
            top == match last_where(k + 1, p_top) {
                Some(t) => visible@[t],
                None => idx,
            },
            key@ == group_key(iv[top as int].status),
            p_head == header_with_key(gv, rows@, key@),
            forall|x: int|
                0 <= x < rows@.len() ==> ((#[trigger] rows@[x]) matches Row::Header(g) ==> g
                    < groups@.len()),
            forall|y: int| 0 <= y < r ==> !#[trigger] p_head(y),
        decreases rows.len() - r,
    {
        if let Row::Header(g) = rows[r] {
            assert(gv[g as int] == groups@[g as int]@);
            let gk = status_key(&groups[g].status);
            if str_eq(gk.as_str(), key.as_str()) {
                proof {
                    lemma_first_where_found(rows@.len() as int, r as int, p_head);
                }
                return Some(r);
            }
        }
        r += 1;
    }
    proof {
        lemma_first_where_none(rows@.len() as int, p_head);
    }
    None
}

/// The selection after a rebuild that tries to keep the card `keep`.
fn selection_for(
    items: &Vec<Item>,
    visible: &Vec<usize>,
    nested: &Vec<usize>,
    groups: &Vec<Group>,
    rows: &Vec<Row>,
    keep: &Option<String>,
) -> (r: Option<usize>)
    requires
        forall|k: int| 0 <= k < visible@.len() ==> (#[trigger] visible@[k]) < items@.len(),
        forall|x: int|
            0 <= x < rows@.len() ==> ((#[trigger] rows@[x]) matches Row::Header(g) ==> g
                < groups@.len()),
    ensures
        opt_usize(r) == selection_after(
            items_view(items@),
            visible@,
            nested@,
            groups_view(groups@),
            rows@,
            opt_view(*keep),
        ),
{
    match keep {
        Some(id) => match find_row(items, visible, nested, groups, rows, id.as_str()) {
            Some(r) => Some(r),
            None => first_item_row(rows),
        },
        None => first_item_row(rows),
    }
}

/// The whole application state: the board, its config, the derived view, and
/// what the panes and overlays show.
pub struct App {
    /// The full, unfiltered board.
    pub items: Vec<Item>,
    pub config: ProjectConfig,
    pub active_preset: usize,
    pub input_mode: InputMode,
    pub filter_query: String,
    /// Indices into `items` of every card the current view contains, in order.
    pub visible: Vec<usize>,
    /// The cards of `visible` rendered one level in, under their parent card.
    pub nested: Vec<usize>,
    /// What the list draws: `visible` cut into status groups under headers.
    pub rows: Vec<Row>,
    /// The status groups of the current view, in list order.
    pub groups: Vec<Group>,
    /// Status keys (`Group::key`) whose group is folded.
    pub collapsed: Vec<String>,
    /// Board-wide sub-issue tree: the child indices of each card.
    pub children: Vec<Vec<usize>>,
    /// The selected row of `rows`.
    pub selected: Option<usize>,
    pub detail: DetailState,
    /// Fetched issue details, by item id.
    pub detail_cache: Vec<(String, IssueDetail)>,
    pub modal: Modal,
    /// Board Status field (ids + options), fetched lazily on the first write.
    pub status_field: Option<StatusField>,
    /// Whether the token has the `project` write scope; checked once.
    pub project_scope: Option<bool>,
    /// Whether the list shows each card's labels inline.
    pub show_labels: bool,
    /// The current issue body split into text/image runs.
    pub detail_parts: Vec<ContentPart>,
    /// Row scroll offset of the detail pane.
    pub detail_scroll: u16,
    /// Height (rows) of the detail pane's inner content area.
    pub detail_view_height: u16,
}

/// The default start-work prompt for a ticket.
pub fn default_prompt(skill: &str, issue: u64) -> (r: String)
    ensures
        r@ == "Use the "@ + skill@ + " skill for issue #"@ + crate::text::decimal(issue as nat),
{
    let mut s = to_owned_string("Use the ");
    s.append(skill);
    s.append(" skill for issue #");
    crate::text::push_decimal(&mut s, issue);
    s
}

impl App {
    pub open spec fn items_v(self) -> Seq<ItemView> {
        items_view(self.items@)
    }

    /// The active preset.
    pub open spec fn preset_v(self) -> PresetView {
        self.config.presets@[self.active_preset as int]@
    }

    /// The trimmed live query.
    pub open spec fn query_v(self) -> Seq<char> {
        trim(self.filter_query@)
    }

    pub open spec fn collapsed_v(self) -> Seq<Seq<char>> {
        strs_view(self.collapsed@)
    }

    /// The view fields agree with the board, config, preset, query and folds.
    pub open spec fn view_ok(self) -> bool {
        &&& self.base_ok()
        &&& groups_view(self.groups@) == layout(self.items_v(), self.visible@, self.nested@, self.collapsed_v()).0
        &&& self.rows@ == layout(self.items_v(), self.visible@, self.nested@, self.collapsed_v()).1
        &&& self.selected matches Some(s) ==> s < self.rows@.len()
    }

    /// The filtered view and the sub-issue tree agree with the board, config,
    /// preset and query (the layout into rows aside).
    pub open spec fn base_ok(self) -> bool {
        &&& 0 < self.config.presets@.len()
        &&& self.active_preset < self.config.presets@.len()
        &&& self.visible@ == view_visible(self.items_v(), self.config, self.preset_v(), self.query_v())
        &&& self.nested@ == view_nested(self.items_v(), self.config, self.preset_v(), self.query_v())
        &&& forall|k: int| 0 <= k < self.visible@.len() ==> (#[trigger] self.visible@[k]) < self.items@.len()
        &&& self.children@.len() == self.items@.len()
        &&& forall|p: int| 0 <= p < self.items@.len() ==> (#[trigger] self.children@[p])@ == child_list(self.items_v(), p)
    }

    /// Every field outside the derived view is the same in `self` and `other`.
    pub open spec fn same_state(self, other: Self) -> bool {
        &&& self.items == other.items
        &&& self.config == other.config
        &&& self.active_preset == other.active_preset
        &&& self.input_mode == other.input_mode
        &&& self.filter_query == other.filter_query
        &&& self.collapsed == other.collapsed
        &&& self.detail == other.detail
        &&& self.detail_cache == other.detail_cache
        &&& self.modal == other.modal
        &&& self.status_field == other.status_field
        &&& self.project_scope == other.project_scope
        &&& self.show_labels == other.show_labels
        &&& self.detail_parts == other.detail_parts
        &&& self.detail_scroll == other.detail_scroll
        &&& self.detail_view_height == other.detail_view_height
    }

    /// The rows and groups are valid indices (consequence of `view_ok`).
    pub proof fn lemma_rows_valid(self)
        requires
            self.view_ok(),
        ensures
            forall|r: int|
                0 <= r < self.rows@.len() ==> match #[trigger] self.rows@[r] {
                    Row::Header(g) => g < self.groups@.len(),
                    Row::Item(i) => i < self.items@.len(),
                },
            forall|g: int| 0 <= g < self.groups@.len() ==> #[trigger] has_header(self.rows@, g),
            self.groups@.len() <= self.visible@.len(),
    {
        lemma_layout_valid(self.items_v(), self.visible@, self.nested@, self.collapsed_v());
        assert forall|r: int| 0 <= r < self.rows@.len() implies match #[trigger] self.rows@[r] {
            Row::Header(g) => g < self.groups@.len(),
            Row::Item(i) => i < self.items@.len(),
        } by {
            if let Row::Item(i) = self.rows@[r] {
                let k = choose|k: int| 0 <= k < self.visible@.len() && self.visible@[k] == i;
                assert(self.visible@[k] < self.items@.len());
            }
        }
        assert forall|g: int| 0 <= g < self.groups@.len() implies #[trigger] has_header(self.rows@, g) by {
            assert(groups_view(self.groups@).len() == self.groups@.len());
        }
    }
}


impl App {
    /// A fresh app on `items` under `config`, showing its first preset.
    pub fn new(items: Vec<Item>, config: ProjectConfig) -> (r: App)
        requires
            config.presets@.len() > 0,
        ensures
            r.view_ok(),
            r.items == items,
            r.config == config,
            r.active_preset == 0,
            r.input_mode == InputMode::Normal,
            r.filter_query@.len() == 0,
            r.collapsed@.len() == 0,
            r.detail is Empty,
            r.detail_cache@.len() == 0,
            r.modal is Closed,
            r.status_field is None,
            r.project_scope is None,
            !r.show_labels,
            r.detail_parts@.len() == 0,
            r.detail_scroll == 0,
            r.detail_view_height == 0,
            opt_usize(r.selected) == initial_selection(r.rows@),
    {
        let mut app = App {
            items,
            config,
            active_preset: 0,
            input_mode: InputMode::Normal,
            filter_query: String::new(),
            visible: Vec::new(),
            nested: Vec::new(),
            rows: Vec::new(),
            groups: Vec::new(),
            collapsed: Vec::new(),
            children: Vec::new(),
            selected: None,
            detail: DetailState::Empty,
            detail_cache: Vec::new(),
            modal: Modal::Closed,
            status_field: None,
            project_scope: None,
            show_labels: false,
            detail_parts: Vec::new(),
            detail_scroll: 0,
            detail_view_height: 0,
        };
        app.recompute(None);
        app
    }

    /// Rebuild the view from the active preset, exclusions and fuzzy query,
    /// sorted by status order. Keeps the card `keep_id` selected if it survives
    /// the new filter (its folded group's header if it is folded away), else
    /// selects the first card.
    pub fn recompute(&mut self, keep_id: Option<String>)
        requires
            old(self).active_preset < old(self).config.presets@.len(),
        ensures
            final(self).view_ok(),
            final(self).same_state(*old(self)),
            opt_usize(final(self).selected) == selection_after(
                final(self).items_v(),
                final(self).visible@,
                final(self).nested@,
                groups_view(final(self).groups@),
                final(self).rows@,
                opt_view(keep_id),
            ),
    {
        let (visible, nested) = compute_view(
            &self.items,
            &self.config,
            &self.config.presets[self.active_preset],
            self.filter_query.as_str(),
        );
        self.visible = visible;
        self.nested = nested;
        self.children = children_of(&self.items);
        let (groups, rows) = build_rows(&self.items, &self.visible, &self.nested, &self.collapsed);
        self.groups = groups;
        self.rows = rows;
        proof {
            lemma_layout_valid(self.items_v(), self.visible@, self.nested@, self.collapsed_v());
            assert forall|x: int|
                0 <= x < self.rows@.len() implies ((#[trigger] self.rows@[x]) matches Row::Header(
                g,
            ) ==> g < self.groups@.len()) by {
                assert(groups_view(self.groups@).len() == self.groups@.len());
            }
        }
        let sel = selection_for(
            &self.items,
            &self.visible,
            &self.nested,
            &self.groups,
            &self.rows,
            &keep_id,
        );
        proof {
            if let Some(r) = sel {
                let rv = self.rows@;
                lemma_first_where_some(rv.len() as int, is_item_row(rv));
                if let Some(id) = opt_view(keep_id) {
                    self.lemma_row_of_id_bound(id);
                }
            }
        }
        self.selected = sel;
    }

    /// A row found for a card lies within `rows`.
    proof fn lemma_row_of_id_bound(self, id: Seq<char>)
        ensures
            row_of_id(
                self.items_v(),
                self.visible@,
                self.nested@,
                groups_view(self.groups@),
                self.rows@,
                id,
            ) matches Some(r) ==> 0 <= r < self.rows@.len(),
    {
        let iv = self.items_v();
        let gv = groups_view(self.groups@);
        let rv = self.rows@;
        let vis = self.visible@;
        lemma_first_where_some(vis.len() as int, id_at(iv, vis, id));
        if let Some(k0) = first_where(vis.len() as int, id_at(iv, vis, id)) {
            let idx = vis[k0];
            lemma_first_where_some(rv.len() as int, shows_item(rv, idx));
            let top = match last_where(k0 + 1, top_level(vis, self.nested@)) {
                Some(k) => vis[k],
                None => idx,
            };
            lemma_first_where_some(
                rv.len() as int,
                header_with_key(gv, rv, group_key(iv[top as int].status)),
            );
        }
    }

    /// The row under the cursor, when the cursor is on one.
    pub open spec fn sel_row(self) -> Option<Row> {
        match self.selected {
            Some(s) => if s < self.rows@.len() {
                Some(self.rows@[s as int])
            } else {
                None
            },
            None => None,
        }
    }

    /// The selected row, if any.
    pub fn selected_row(&self) -> (r: Option<Row>)
        ensures
            r == self.sel_row(),
    {
        match self.selected {
            Some(s) => if s < self.rows.len() {
                Some(self.rows[s])
            } else {
                None
            },
            None => None,
        }
    }

    /// The selected card. `None` on a group header or an empty view.
    pub fn selected(&self) -> (r: Option<&Item>)
        requires
            self.view_ok(),
        ensures
            match self.sel_row() {
                Some(Row::Item(i)) => r == Some(&self.items@[i as int]),
                _ => r is None,
            },
    {
        proof {
            self.lemma_rows_valid();
        }
        match self.selected_row() {
            Some(Row::Item(i)) => Some(&self.items[i]),
            _ => None,
        }
    }

    /// The group header under the cursor, if the cursor is on one.
    pub fn selected_group(&self) -> (r: Option<&Group>)
        requires
            self.view_ok(),
        ensures
            match self.sel_row() {
                Some(Row::Header(g)) => r == Some(&self.groups@[g as int]),
                _ => r is None,
            },
    {
        proof {
            self.lemma_rows_valid();
        }
        match self.selected_row() {
            Some(Row::Header(g)) => Some(&self.groups[g]),
            _ => None,
        }
    }

    /// Index into `items` of the selected card.
    pub fn selected_index(&self) -> (r: Option<usize>)
        ensures
            match self.sel_row() {
                Some(Row::Item(i)) => r == Some(i),
                _ => r is None,
            },
    {
        match self.selected_row() {
            Some(Row::Item(i)) => Some(i),
            _ => None,
        }
    }

    /// The id of the selected card.
    pub open spec fn sel_id(self) -> Option<Seq<char>> {
        match self.sel_row() {
            Some(Row::Item(i)) => Some(self.items@[i as int].id@),
            _ => None,
        }
    }

    fn selected_id(&self) -> (r: Option<String>)
        requires
            self.view_ok(),
        ensures
            opt_view(r) == self.sel_id(),
    {
        match self.selected() {
            Some(it) => Some(it.id.clone()),
            None => None,
        }
    }

    /// The row `cur + delta` clamped to the list, with `cur` the selected row
    /// (0 when nothing is selected).
    pub open spec fn stepped(self, delta: int) -> int {
        let cur = match self.selected {
            Some(s) => s as int,
            None => 0,
        };
        clamp(cur + delta, 0, self.rows@.len() - 1)
    }

    /// Move the cursor by `delta` rows, clamped; whether it moved.
    fn select_delta(&mut self, delta: isize) -> (moved: bool)
        requires
            old(self).view_ok(),
            old(self).rows@.len() <= isize::MAX,
            (match old(self).selected {
                Some(s) => s as int,
                None => 0,
            }) + delta <= isize::MAX,
        ensures
            final(self).view_ok(),
            *final(self) == (App { selected: final(self).selected, ..*old(self) }),
            moved == (old(self).rows@.len() > 0 && old(self).stepped(delta as int) != (match old(
                self,
            ).selected {
                Some(s) => s as int,
                None => 0,
            })),
            final(self).selected == if moved {
                Some(old(self).stepped(delta as int) as usize)
            } else {
                old(self).selected
            },
    {
        if self.rows.len() == 0 {
            return false;
        }
        let cur = match self.selected {
            Some(s) => s,
            None => 0,
        };
        let next = clamp_step(cur, delta, self.rows.len() - 1);
        if next == cur {
            return false;
        }
        self.selected = Some(next);
        true
    }

    /// Move the cursor down a row; whether it moved.
    pub fn next(&mut self) -> (moved: bool)
        requires
            old(self).view_ok(),
            old(self).rows@.len() <= isize::MAX,
        ensures
            final(self).view_ok(),
            *final(self) == (App { selected: final(self).selected, ..*old(self) }),
            moved == (old(self).rows@.len() > 0 && old(self).stepped(1) != (match old(self).selected {
                Some(s) => s as int,
                None => 0,
            })),
            final(self).selected == if moved {
                Some(old(self).stepped(1) as usize)
            } else {
                old(self).selected
            },
    {
        self.select_delta(1)
    }

    /// Move the cursor up a row; whether it moved.
    pub fn prev(&mut self) -> (moved: bool)
        requires
            old(self).view_ok(),
            old(self).rows@.len() <= isize::MAX,
        ensures
            final(self).view_ok(),
            *final(self) == (App { selected: final(self).selected, ..*old(self) }),
            moved == (old(self).rows@.len() > 0 && old(self).stepped(-1) != (match old(
                self,
            ).selected {
                Some(s) => s as int,
                None => 0,
            })),
            final(self).selected == if moved {
                Some(old(self).stepped(-1) as usize)
            } else {
                old(self).selected
            },
    {
        self.select_delta(-1)
    }
}

/// Row `r` of `rows` is a group header.
pub open spec fn is_header_row(rows: Seq<Row>) -> spec_fn(int) -> bool {
    |r: int| rows[r] is Header
}

/// Row `r` of `rows` is the header of group `g`.
pub open spec fn header_row(rows: Seq<Row>, g: usize) -> spec_fn(int) -> bool {
    |r: int| rows[r] == Row::Header(g)
}

/// `c` without any entry equal to `key`.
pub open spec fn remove_key(c: Seq<Seq<char>>, key: Seq<char>) -> Seq<Seq<char>>
    decreases c.len(),
{
    if c.len() == 0 {
        c
    } else {
        let p = remove_key(c.drop_last(), key);
        if c.last() == key {
            p
        } else {
            p.push(c.last())
        }
    }
}

/// Flip the membership of `key` in the fold set `c`.
pub open spec fn toggle_key(c: Seq<Seq<char>>, key: Seq<char>) -> Seq<Seq<char>> {
    if c.contains(key) {
        remove_key(c, key)
    } else {
        c.push(key)
    }
}

/// `c` with each of `keys` added when it is absent.
pub open spec fn add_keys(c: Seq<Seq<char>>, keys: Seq<Seq<char>>) -> Seq<Seq<char>>
    decreases keys.len(),
{
    if keys.len() == 0 {
        c
    } else {
        let p = add_keys(c, keys.drop_last());
        if p.contains(keys.last()) {
            p
        } else {
            p.push(keys.last())
        }
    }
}

/// `c` without any of `keys`.
pub open spec fn remove_keys(c: Seq<Seq<char>>, keys: Seq<Seq<char>>) -> Seq<Seq<char>>
    decreases keys.len(),
{
    if keys.len() == 0 {
        c
    } else {
        remove_key(remove_keys(c, keys.drop_last()), keys.last())
    }
}

/// The status keys of a list of groups.
pub open spec fn group_keys(gs: Seq<GroupView>) -> Seq<Seq<char>> {
    gs.map_values(|g: GroupView| group_key(g.status))
}

/// What `remove_key` keeps.
pub proof fn lemma_remove_key(c: Seq<Seq<char>>, key: Seq<char>)
    ensures
        forall|x: Seq<char>| #[trigger] remove_key(c, key).contains(x) <==> (c.contains(x) && x != key),
    decreases c.len(),
{
    if c.len() > 0 {
        lemma_remove_key(c.drop_last(), key);
        assert forall|x: Seq<char>| #[trigger] remove_key(c, key).contains(x) <==> (c.contains(x) && x
            != key) by {
            let d = c.drop_last();
            let p = remove_key(d, key);
            if c.contains(x) {
                let k = choose|k: int| 0 <= k < c.len() && c[k] == x;
                if k < c.len() - 1 {
                    assert(d[k] == x);
                }
            }
            if d.contains(x) {
                let k = choose|k: int| 0 <= k < d.len() && d[k] == x;
                assert(c[k] == x);
            }
            if c.last() == key {
                assert(remove_key(c, key) == p);
            } else {
                let q = p.push(c.last());
                assert(remove_key(c, key) == q);
                if q.contains(x) {
                    let k = choose|k: int| 0 <= k < q.len() && q[k] == x;
                    if k < p.len() {
                        assert(p[k] == x);
                    }
                }
                if p.contains(x) {
                    let k = choose|k: int| 0 <= k < p.len() && p[k] == x;
                    assert(q[k] == x);
                }
                assert(q[p.len() as int] == c.last());
                assert(c[c.len() - 1] == c.last());
            }
        }
    }
}

/// What `add_keys` holds.
pub proof fn lemma_add_keys(c: Seq<Seq<char>>, keys: Seq<Seq<char>>)
    ensures
        forall|x: Seq<char>| #[trigger] add_keys(c, keys).contains(x) <==> (c.contains(x) || keys.contains(x)),
    decreases keys.len(),
{
    if keys.len() > 0 {
        lemma_add_keys(c, keys.drop_last());
        assert forall|x: Seq<char>| #[trigger] add_keys(c, keys).contains(x) <==> (c.contains(x)
            || keys.contains(x)) by {
            let p = add_keys(c, keys.drop_last());
            if keys.contains(x) {
                let k = choose|k: int| 0 <= k < keys.len() && keys[k] == x;
                if k < keys.len() - 1 {
                    assert(keys.drop_last()[k] == x);
                } else {
                    assert(p.push(keys.last())[p.len() as int] == x);
                }
            }
            if add_keys(c, keys).contains(x) && !p.contains(x) {
                assert(keys[keys.len() - 1] == x);
            }
            if p.contains(x) && !c.contains(x) {
                let k = choose|k: int| 0 <= k < keys.drop_last().len() && keys.drop_last()[k] == x;
                assert(keys[k] == x);
            }
            if c.contains(x) || keys.drop_last().contains(x) {
                assert(p.contains(x));
                let k = choose|k: int| 0 <= k < p.len() && p[k] == x;
                if !p.contains(keys.last()) {
                    assert(p.push(keys.last())[k] == x);
                }
            }
        }
    }
}

/// What `remove_keys` keeps.
pub proof fn lemma_remove_keys(c: Seq<Seq<char>>, keys: Seq<Seq<char>>)
    ensures
        forall|x: Seq<char>| #[trigger] remove_keys(c, keys).contains(x) <==> (c.contains(x) && !keys.contains(x)),
    decreases keys.len(),
{
    if keys.len() > 0 {
        lemma_remove_keys(c, keys.drop_last());
        lemma_remove_key(remove_keys(c, keys.drop_last()), keys.last());
        assert forall|x: Seq<char>| #[trigger] remove_keys(c, keys).contains(x) <==> (c.contains(x)
            && !keys.contains(x)) by {
            if keys.contains(x) {
                let k = choose|k: int| 0 <= k < keys.len() && keys[k] == x;
                if k < keys.len() - 1 {
                    assert(keys.drop_last()[k] == x);
                }
            }
            if keys.drop_last().contains(x) {
                let k = choose|k: int| 0 <= k < keys.drop_last().len() && keys.drop_last()[k] == x;
                assert(keys[k] == x);
            }
        }
    }
}

/// Folding the same status twice restores the set of folded statuses.
pub proof fn law_toggle_key_twice(c: Seq<Seq<char>>, key: Seq<char>)
    ensures
        toggle_key(toggle_key(c, key), key).to_set() == c.to_set(),
{
    let t = toggle_key(c, key);
    if c.contains(key) {
        lemma_remove_key(c, key);
        assert(t == remove_key(c, key));
        assert(!t.contains(key));
        assert(toggle_key(t, key) == t.push(key));
        assert forall|x: Seq<char>| #[trigger] t.push(key).contains(x) <==> c.contains(x) by {
            let q = t.push(key);
            assert(q[t.len() as int] == key);
            if q.contains(x) && x != key {
                let k = choose|k: int| 0 <= k < q.len() && q[k] == x;
                assert(k < t.len());
                assert(t[k] == x);
                assert(t.contains(x));
            }
            if c.contains(x) && x != key {
                assert(remove_key(c, key).contains(x));
                let k = choose|k: int| 0 <= k < t.len() && t[k] == x;
                assert(q[k] == x);
            }
        }
        assert(toggle_key(t, key).to_set() =~= c.to_set());
    } else {
        assert(t.contains(key)) by {
            assert(t[c.len() as int] == key);
        }
        lemma_remove_key(t, key);
        assert forall|x: Seq<char>| #[trigger] remove_key(t, key).contains(x) <==> c.contains(x) by {
            if c.contains(x) {
                let k = choose|k: int| 0 <= k < c.len() && c[k] == x;
                assert(t[k] == x);
            }
            if t.contains(x) && x != key {
                let k = choose|k: int| 0 <= k < t.len() && t[k] == x;
                assert(c[k] == x);
            }
        }
        assert(toggle_key(t, key).to_set() =~= c.to_set());
    }
}

/// The group keys of a layout don't depend on which groups are folded, and a
/// group is folded exactly when its key is in the fold set.
pub proof fn lemma_layout_folds(
    items: Seq<ItemView>,
    visible: Seq<usize>,
    nested: Seq<usize>,
    c1: Seq<Seq<char>>,
    c2: Seq<Seq<char>>,
)
    ensures
        group_keys(layout(items, visible, nested, c1).0) == group_keys(
            layout(items, visible, nested, c2).0,
        ),
        forall|g: int|
            0 <= g < layout(items, visible, nested, c1).0.len() ==> (#[trigger] layout(
                items,
                visible,
                nested,
                c1,
            ).0[g]).collapsed == c1.contains(group_key(layout(items, visible, nested, c1).0[g].status)),
    decreases visible.len(),
{
    if visible.len() > 0 {
        let pv = visible.drop_last();
        lemma_layout_folds(items, pv, nested, c1, c2);
        let g1 = layout(items, pv, nested, c1).0;
        let g2 = layout(items, pv, nested, c2).0;
        assert(g1.len() == group_keys(g1).len());
        assert(g2.len() == group_keys(g2).len());
        if g1.len() > 0 {
            assert(group_keys(g1)[g1.len() - 1] == group_key(g1.last().status));
            assert(group_keys(g2)[g2.len() - 1] == group_key(g2.last().status));
        }
        let n1 = layout(items, visible, nested, c1).0;
        let n2 = layout(items, visible, nested, c2).0;
        assert(group_keys(n1) =~= group_keys(n2)) by {
            assert(n1.len() == n2.len());
            assert forall|g: int| 0 <= g < n1.len() implies group_keys(n1)[g] == group_keys(n2)[g] by {
                if g < g1.len() {
                    assert(group_keys(g1)[g] == group_keys(g2)[g]);
                }
            }
        }
    }
}

/// The group the cursor is in: its own header, or the nearest header above
/// the selected card.
pub open spec fn cursor_group_of(rows: Seq<Row>, selected: Option<usize>) -> Option<int> {
    match selected {
        Some(sel) => match last_where(sel + 1, is_header_row(rows)) {
            Some(r) => Some(rows[r]->Header_0 as int),
            None => None,
        },
        None => None,
    }
}

/// The selection after re-laying the rows: the kept card's row (or its folded
/// group's header), else the header of the kept group, else the first row.
pub open spec fn relayout_selection(
    items: Seq<ItemView>,
    visible: Seq<usize>,
    nested: Seq<usize>,
    groups: Seq<GroupView>,
    rows: Seq<Row>,
    keep_id: Option<Seq<char>>,
    keep_group: Option<int>,
) -> Option<int> {
    let by_id = match keep_id {
        Some(id) => row_of_id(items, visible, nested, groups, rows, id),
        None => None,
    };
    match by_id {
        Some(r) => Some(r),
        None => {
            let by_group = match keep_group {
                Some(g) => first_where(rows.len() as int, header_row(rows, g as usize)),
                None => None,
            };
            match by_group {
                Some(r) => Some(r),
                None => if rows.len() > 0 {
                    Some(0)
                } else {
                    None
                },
            }
        },
    }
}

/// The first header row of group `g`.
fn header_position(rows: &Vec<Row>, g: usize) -> (r: Option<usize>)
    ensures
        opt_usize(r) == first_where(rows@.len() as int, header_row(rows@, g)),
        r matches Some(x) ==> x < rows@.len(),
{
    let ghost pred = header_row(rows@, g);
    let mut r: usize = 0;
    while r < rows.len()
        invariant
            r <= rows@.len(),
            pred == header_row(rows@, g),
            forall|j: int| 0 <= j < r ==> !#[trigger] pred(j),
        decreases rows.len() - r,
    {
        if rows[r] == Row::Header(g) {
            proof {
                lemma_first_where_found(rows@.len() as int, r as int, pred);
            }
            return Some(r);
        }
        r += 1;
    }
    proof {
        lemma_first_where_none(rows@.len() as int, pred);
    }
    None
}

/// Whether two optional rows are the same.
fn same_row(a: Option<Row>, b: Option<Row>) -> (r: bool)
    ensures
        r == (a == b),
{
    match (a, b) {
        (Some(x), Some(y)) => x == y,
        (None, None) => true,
        _ => false,
    }
}

/// Remove every entry equal to `key`.
fn remove_string(v: &mut Vec<String>, key: &str)
    ensures
        strs_view(final(v)@) == remove_key(strs_view(old(v)@), key@),
{
    let mut out: Vec<String> = Vec::new();
    let mut i: usize = 0;
    while i < v.len()
        invariant
            i <= v@.len(),
            strs_view(out@) == remove_key(strs_view(v@.take(i as int)), key@),
        decreases v.len() - i,
    {
        proof {
            assert(strs_view(v@.take(i + 1)).drop_last() =~= strs_view(v@.take(i as int)));
            assert(strs_view(v@.take(i + 1)).last() == v@[i as int]@);
        }
        if !str_eq(v[i].as_str(), key) {
            out.push(v[i].clone());
            proof {
                assert(strs_view(out@) =~= strs_view(out@.drop_last()).push(out@.last()@));
            }
        }
        i += 1;
    }
    assert(v@.take(v@.len() as int) =~= v@);
    *v = out;
}

/// Add `key` unless it is already present.
fn add_string(v: &mut Vec<String>, key: String)
    ensures
        strs_view(final(v)@) == if strs_view(old(v)@).contains(key@) {
            strs_view(old(v)@)
        } else {
            strs_view(old(v)@).push(key@)
        },
{
    if !contains_string(v, key.as_str()) {
        v.push(key);
        assert(strs_view(v@) =~= strs_view(old(v)@).push(key@));
    }
}

/// Flip the membership of `key` in the fold set.
fn toggle_string(v: &mut Vec<String>, key: String)
    ensures
        strs_view(final(v)@) == toggle_key(strs_view(old(v)@), key@),
{
    if contains_string(v, key.as_str()) {
        remove_string(v, key.as_str());
    } else {
        v.push(key);
        assert(strs_view(v@) =~= strs_view(old(v)@).push(key@));
    }
}

impl App {
    /// The group the cursor is in.
    pub open spec fn cursor_group(self) -> Option<int> {
        cursor_group_of(self.rows@, self.selected)
    }

    /// The selection `relayout` settles on.
    pub open spec fn relayout_sel(self, keep_id: Option<Seq<char>>, keep_group: Option<int>) -> Option<
        int,
    > {
        relayout_selection(
            self.items_v(),
            self.visible@,
            self.nested@,
            groups_view(self.groups@),
            self.rows@,
            keep_id,
            keep_group,
        )
    }

    /// Index (into `groups`) of the group the cursor is in: its own header, or
    /// the header above the selected card.
    fn group_at_cursor(&self) -> (r: Option<usize>)
        requires
            self.view_ok(),
        ensures
            opt_usize(r) == self.cursor_group(),
            r matches Some(g) ==> g < self.groups@.len(),
    {
        proof {
            self.lemma_rows_valid();
        }
        match self.selected {
            None => None,
            Some(sel) => {
                let ghost pred = is_header_row(self.rows@);
                let n = self.rows.len();
                assert(sel < n);
                let mut k: usize = sel + 1;
                while k > 0
                    invariant
                        k <= sel + 1,
                        sel < self.rows@.len(),
                        pred == is_header_row(self.rows@),
                        last_where(sel + 1, pred) == last_where(k as int, pred),
                    ensures
                        k == 0 || pred(k - 1),
                    decreases k,
                {
                    if let Row::Header(_) = self.rows[k - 1] {
                        break;
                    }
                    k -= 1;
                }
                if k > 0 {
                    match self.rows[k - 1] {
                        Row::Header(g) => Some(g),
                        Row::Item(_) => None,
                    }
                } else {
                    None
                }
            },
        }
    }

    /// The row `jump_group(delta)` moves the cursor to, if it moves.
    pub open spec fn jump_target(self, delta: int) -> Option<int> {
        match (self.selected, self.cursor_group()) {
            (Some(sel), Some(cur)) => {
                let on_header = self.rows@[sel as int] is Header;
                let target = if delta < 0 && !on_header {
                    cur
                } else {
                    cur + delta
                };
                if target < 0 || target >= self.groups@.len() {
                    None
                } else {
                    match first_where(self.rows@.len() as int, header_row(self.rows@, target as usize)) {
                        Some(row) => if row == sel {
                            None
                        } else {
                            Some(row)
                        },
                        None => None,
                    }
                }
            },
            _ => None,
        }
    }

    /// Jump the cursor to a neighbouring group header: `+1` the next group,
    /// `-1` the previous — or, from a card, the header of its own group.
    /// Returns whether the selection moved.
    pub fn jump_group(&mut self, delta: isize) -> (moved: bool)
        requires
            old(self).view_ok(),
            old(self).groups@.len() <= isize::MAX,
            old(self).cursor_group() matches Some(c) ==> c + delta <= isize::MAX,
        ensures
            final(self).view_ok(),
            *final(self) == (App { selected: final(self).selected, ..*old(self) }),
            moved == (old(self).jump_target(delta as int) is Some),
            final(self).selected == match old(self).jump_target(delta as int) {
                Some(r) => Some(r as usize),
                None => old(self).selected,
            },
    {
        proof {
            self.lemma_rows_valid();
        }
        let sel = match self.selected {
            Some(s) => s,
            None => return false,
        };
        let cur = match self.group_at_cursor() {
            Some(c) => c,
            None => return false,
        };
        let on_header = match self.rows[sel] {
            Row::Header(_) => true,
            Row::Item(_) => false,
        };
        let target: isize = if delta < 0 && !on_header {
            cur as isize
        } else {
            cur as isize + delta
        };
        if target < 0 || target >= self.groups.len() as isize {
            return false;
        }
        let row = match header_position(&self.rows, target as usize) {
            Some(r) => r,
            None => return false,
        };
        if row == sel {
            return false;
        }
        self.selected = Some(row);
        true
    }

    /// Re-lay `rows` after a fold change, keeping the cursor on the card
    /// `keep_id` — or on its group's header once that group is folded, else on
    /// the header of `keep_group`. Returns whether the selected row differs
    /// from `before`.
    fn relayout(&mut self, before: Option<Row>, keep_id: Option<String>, keep_group: Option<usize>) -> (changed: bool)
        requires
            old(self).base_ok(),
        ensures
            final(self).view_ok(),
            *final(self) == (App {
                groups: final(self).groups,
                rows: final(self).rows,
                selected: final(self).selected,
                ..*old(self)
            }),
            opt_usize(final(self).selected) == final(self).relayout_sel(
                opt_view(keep_id),
                opt_usize(keep_group),
            ),
            changed == (final(self).sel_row() != before),
    {
        let (groups, rows) = build_rows(&self.items, &self.visible, &self.nested, &self.collapsed);
        self.groups = groups;
        self.rows = rows;
        proof {
            lemma_layout_valid(self.items_v(), self.visible@, self.nested@, self.collapsed_v());
            assert forall|x: int|
                0 <= x < self.rows@.len() implies ((#[trigger] self.rows@[x]) matches Row::Header(
                g,
            ) ==> g < self.groups@.len()) by {
                assert(groups_view(self.groups@).len() == self.groups@.len());
            }
        }
        let by_id = match &keep_id {
            Some(id) => find_row(
                &self.items,
                &self.visible,
                &self.nested,
                &self.groups,
                &self.rows,
                id.as_str(),
            ),
            None => None,
        };
        proof {
            if let Some(id) = opt_view(keep_id) {
                self.lemma_row_of_id_bound(id);
            }
        }
        let sel = match by_id {
            Some(r) => Some(r),
            None => {
                let by_group = match keep_group {
                    Some(g) => header_position(&self.rows, g),
                    None => None,
                };
                match by_group {
                    Some(r) => Some(r),
                    None => if self.rows.len() > 0 {
                        Some(0)
                    } else {
                        None
                    },
                }
            },
        };
        self.selected = sel;
        let after = self.selected_row();
        !same_row(after, before)
    }

    /// Fold or unfold the group under the cursor. Folding a group while one of
    /// its cards is selected moves the cursor to the header. Returns whether
    /// the selection changed.
    pub fn toggle_group(&mut self) -> (changed: bool)
        requires
            old(self).view_ok(),
        ensures
            final(self).view_ok(),
            match old(self).cursor_group() {
                None => !changed && *final(self) == *old(self),
                Some(g) => {
                    &&& final(self).collapsed_v() == toggle_key(
                        old(self).collapsed_v(),
                        group_key(old(self).groups@[g]@.status),
                    )
                    &&& *final(self) == (App {
                        collapsed: final(self).collapsed,
                        groups: final(self).groups,
                        rows: final(self).rows,
                        selected: final(self).selected,
                        ..*old(self)
                    })
                    &&& opt_usize(final(self).selected) == final(self).relayout_sel(
                        old(self).sel_id(),
                        Some(g),
                    )
                    &&& changed == (final(self).sel_row() != old(self).sel_row())
                },
            },
    {
        let g = match self.group_at_cursor() {
            Some(g) => g,
            None => return false,
        };
        let before = self.selected_row();
        let keep_id = self.selected_id();
        assert(self.groups@[g as int]@ == groups_view(self.groups@)[g as int]);
        let key = status_key(&self.groups[g].status);
        toggle_string(&mut self.collapsed, key);
        self.relayout(before, keep_id, Some(g))
    }

    /// Some group of the current layout is unfolded.
    pub open spec fn any_open(self) -> bool {
        exists|g: int| 0 <= g < self.groups@.len() && !(#[trigger] self.groups@[g]).collapsed
    }

    /// Fold every group if any is open, else unfold them all. Returns whether
    /// the selection changed.
    pub fn toggle_all_groups(&mut self) -> (changed: bool)
        requires
            old(self).view_ok(),
        ensures
            final(self).view_ok(),
            final(self).collapsed_v() == if old(self).any_open() {
                add_keys(old(self).collapsed_v(), group_keys(groups_view(old(self).groups@)))
            } else {
                remove_keys(old(self).collapsed_v(), group_keys(groups_view(old(self).groups@)))
            },
            *final(self) == (App {
                collapsed: final(self).collapsed,
                groups: final(self).groups,
                rows: final(self).rows,
                selected: final(self).selected,
                ..*old(self)
            }),
            opt_usize(final(self).selected) == final(self).relayout_sel(
                old(self).sel_id(),
                old(self).cursor_group(),
            ),
            changed == (final(self).sel_row() != old(self).sel_row()),
            old(self).any_open() ==> forall|g: int|
                0 <= g < final(self).groups@.len() ==> (#[trigger] final(self).groups@[g]).collapsed,
            !old(self).any_open() ==> forall|g: int|
                0 <= g < final(self).groups@.len() ==> !(#[trigger] final(self).groups@[g]).collapsed,
    {
        let before = self.selected_row();
        let keep_id = self.selected_id();
        let keep_group = self.group_at_cursor();
        let mut any_open = false;
        let mut k: usize = 0;
        while k < self.groups.len()
            invariant
                k <= self.groups@.len(),
                any_open == exists|g: int| 0 <= g < k && !(#[trigger] self.groups@[g]).collapsed,
            decreases self.groups.len() - k,
        {
            if !self.groups[k].collapsed {
                any_open = true;
            }
            k += 1;
        }
        let ghost c0 = self.collapsed_v();
        let ghost keys = group_keys(groups_view(self.groups@));
        let ghost pre = *self;
        let mut k: usize = 0;
        while k < self.groups.len()
            invariant
                k <= self.groups@.len(),
                pre.view_ok(),
                c0 == pre.collapsed_v(),
                *self == (App { collapsed: self.collapsed, ..pre }),
                keys == group_keys(groups_view(self.groups@)),
                strs_view(self.collapsed@) == if any_open {
                    add_keys(c0, keys.take(k as int))
                } else {
                    remove_keys(c0, keys.take(k as int))
                },
            decreases self.groups.len() - k,
        {
            let key = status_key(&self.groups[k].status);
            proof {
                assert(keys.take(k + 1).drop_last() =~= keys.take(k as int));
                assert(keys.take(k + 1).last() == key@);
            }
            if any_open {
                add_string(&mut self.collapsed, key);
            } else {
                remove_string(&mut self.collapsed, key.as_str());
            }
            k += 1;
        }
        assert(keys.take(keys.len() as int) =~= keys);
        let ghost c1 = self.collapsed_v();
        let ghost old_groups = groups_view(self.groups@);
        let changed = self.relayout(before, keep_id, keep_group);
        proof {
            lemma_layout_folds(self.items_v(), self.visible@, self.nested@, c1, c0);
            let ng = groups_view(self.groups@);
            assert(group_keys(ng) == keys);
            if any_open {
                lemma_add_keys(c0, keys);
            } else {
                lemma_remove_keys(c0, keys);
            }
            assert forall|g: int| 0 <= g < self.groups@.len() implies (#[trigger] self.groups@[g]).collapsed
                == any_open by {
                assert(ng[g] == self.groups@[g]@);
                assert(keys[g] == group_key(ng[g].status));
                assert(keys.contains(keys[g]));
            }
        }
        changed
    }
}

/// Card `j` carries the handle `k`.
pub open spec fn has_key(items: Seq<ItemView>, k: KeyView) -> spec_fn(int) -> bool {
    |j: int| items[j].key() == Some(k)
}

/// Card `j` has the id `id`.
pub open spec fn has_id(items: Seq<Item>, id: Seq<char>) -> spec_fn(int) -> bool {
    |j: int| items[j].id@ == id
}

/// The first card with id `id`.
pub open spec fn id_pos(items: Seq<Item>, id: Seq<char>) -> Option<int> {
    first_where(items.len() as int, has_id(items, id))
}

/// The board with the status of the card `id` replaced by `status` (unchanged
/// when no card has that id).
pub open spec fn status_set(items: Seq<Item>, id: Seq<char>, status: Option<String>) -> Seq<Item> {
    match id_pos(items, id) {
        Some(j) => items.update(j, Item { status, ..items[j] }),
        None => items,
    }
}

/// The status of the card `id`, if some card has that id.
pub open spec fn status_of(items: Seq<Item>, id: Seq<char>) -> Option<String> {
    match id_pos(items, id) {
        Some(j) => items[j].status,
        None => None,
    }
}

/// Setting a card's status and then setting it back to what it was restores
/// the board: an optimistic move can always be reverted.
pub proof fn law_status_revert(items: Seq<Item>, id: Seq<char>, status: Option<String>)
    ensures
        status_set(status_set(items, id, status), id, status_of(items, id)) == items,
{
    let once = status_set(items, id, status);
    lemma_first_where_some(items.len() as int, has_id(items, id));
    match id_pos(items, id) {
        Some(j) => {
            assert(has_id(items, id)(j));
            assert forall|x: int| 0 <= x < once.len() implies #[trigger] has_id(once, id)(x) == has_id(
                items,
                id,
            )(x) by {
                if x == j {
                    assert(once[x].id == items[x].id);
                }
            }
            assert(has_id(once, id)(j));
            lemma_first_where_some(once.len() as int, has_id(once, id));
            let j2 = id_pos(once, id)->0;
            assert(has_id(once, id)(j2));
            assert(j2 == j) by {
                if j2 < j {
                    assert(has_id(items, id)(j2));
                }
                if j < j2 {
                    assert(has_id(once, id)(j));
                }
            }
            assert(status_set(once, id, items[j].status) =~= items);
        },
        None => {
            assert(once == items);
        },
    }
}

/// A picker modal with its highlighted row moved by `delta`, clamped.
pub open spec fn modal_moved(m: Modal, delta: int) -> Modal {
    match m {
        Modal::StatusMove { item_id, options, selected } => if options@.len() > 0 {
            Modal::StatusMove {
                item_id,
                options,
                selected: clamp(selected + delta, 0, options@.len() - 1) as usize,
            }
        } else {
            Modal::StatusMove { item_id, options, selected }
        },
        Modal::ProjectPick { names, selected } => Modal::ProjectPick {
            names,
            selected: clamp(selected + delta, 0, names@.len() as int) as usize,
        },
        other => other,
    }
}

/// `max(x, 0)` as the detail pane's `u16` scroll offset.
pub open spec fn scroll_to(x: int) -> u16 {
    if x < 0 {
        0
    } else {
        (x % 65536) as u16
    }
}

impl App {
    /// Flip inline labels in the list on/off.
    pub fn toggle_labels(&mut self)
        ensures
            *final(self) == (App { show_labels: !old(self).show_labels, ..*old(self) }),
    {
        self.show_labels = !self.show_labels;
    }

    /// Show a freshly-loaded issue and split its body into text/image runs.
    pub fn show_detail(&mut self, d: IssueDetail)
        ensures
            final(self).detail == DetailState::Loaded(d),
            parts_view(final(self).detail_parts@) == split_spec(d.body@),
            *final(self) == (App {
                detail: final(self).detail,
                detail_parts: final(self).detail_parts,
                ..*old(self)
            }),
    {
        self.detail_parts = attach::split_content(d.body.as_str());
        self.detail = DetailState::Loaded(d);
    }

    /// Scroll the detail pane by `delta` rows (negative = up), clamped at 0.
    pub fn scroll_detail(&mut self, delta: i32)
        requires
            old(self).detail_scroll + delta <= i32::MAX,
        ensures
            *final(self) == (App {
                detail_scroll: scroll_to(old(self).detail_scroll + delta),
                ..*old(self)
            }),
    {
        let v: i32 = self.detail_scroll as i32 + delta;
        let m: i32 = if v < 0 {
            0
        } else {
            v
        };
        self.detail_scroll = (m % 65536) as u16;
    }

    /// The half-page step of the detail pane: half its height, at least 1.
    pub open spec fn half_page(self) -> int {
        let h = self.detail_view_height / 2;
        if h < 1 {
            1
        } else {
            h as int
        }
    }

    /// Scroll the detail pane by half its visible height; `dir` is +1 for
    /// down, -1 for up.
    pub fn scroll_detail_half(&mut self, dir: i32)
        requires
            i32::MIN <= dir * old(self).half_page() <= i32::MAX,
            old(self).detail_scroll + dir * old(self).half_page() <= i32::MAX,
        ensures
            *final(self) == (App {
                detail_scroll: scroll_to(old(self).detail_scroll + dir * old(self).half_page()),
                ..*old(self)
            }),
    {
        let h = self.detail_view_height / 2;
        let half: i32 = if h < 1 {
            1
        } else {
            h as i32
        };
        self.scroll_detail(dir * half);
    }

    /// Swap the active project: adopt a new config and freshly-fetched board
    /// and reset all per-board state. `project_scope`, the folds and the label
    /// toggle survive.
    pub fn switch_board(&mut self, config: ProjectConfig, items: Vec<Item>)
        requires
            config.presets@.len() > 0,
        ensures
            final(self).view_ok(),
            final(self).same_state(
                App {
                    config,
                    items,
                    active_preset: 0,
                    input_mode: InputMode::Normal,
                    filter_query: final(self).filter_query,
                    detail: DetailState::Empty,
                    detail_cache: final(self).detail_cache,
                    detail_parts: final(self).detail_parts,
                    detail_scroll: 0,
                    status_field: None,
                    modal: Modal::Closed,
                    ..*old(self)
                },
            ),
            final(self).filter_query@.len() == 0,
            final(self).detail_cache@.len() == 0,
            final(self).detail_parts@.len() == 0,
            opt_usize(final(self).selected) == initial_selection(final(self).rows@),
    {
        self.config = config;
        self.items = items;
        self.active_preset = 0;
        self.input_mode = InputMode::Normal;
        self.filter_query = String::new();
        self.detail = DetailState::Empty;
        self.detail_cache = Vec::new();
        self.detail_parts = Vec::new();
        self.detail_scroll = 0;
        self.status_field = None;
        self.modal = Modal::Closed;
        self.recompute(None);
    }

    /// The board-wide sub-issues of card `i`, in board order.
    pub fn children_of(&self, i: usize) -> (r: &[usize])
        requires
            self.view_ok(),
        ensures
            r@ == if i < self.items@.len() {
                child_list(self.items_v(), i as int)
            } else {
                Seq::empty()
            },
    {
        if i < self.children.len() {
            self.children[i].as_slice()
        } else {
            &[]
        }
    }

    /// Index of the first board card whose handle is `item`'s parent, if the
    /// parent is on the board.
    pub fn parent_of(&self, item: &Item) -> (r: Option<usize>)
        ensures
            opt_usize(r) == match item@.parent {
                Some(k) => first_where(self.items@.len() as int, has_key(self.items_v(), k)),
                None => None,
            },
    {
        let key = match &item.parent {
            Some(k) => k,
            None => return None,
        };
        let ghost iv = self.items_v();
        let ghost pred = has_key(iv, key@);
        let mut j: usize = 0;
        while j < self.items.len()
            invariant
                j <= self.items@.len(),
                iv == self.items_v(),
                item@.parent == Some(key@),
                pred == has_key(iv, key@),
                forall|x: int| 0 <= x < j ==> !#[trigger] pred(x),
            decreases self.items.len() - j,
        {
            let it = &self.items[j];
            assert(iv[j as int] == it@);
            let hit = match (&it.repository, it.number) {
                (Some(repo), Some(n)) => n == key.number && str_eq(
                    repo.as_str(),
                    key.repository.as_str(),
                ),
                _ => false,
            };
            assert(hit == pred(j as int));
            if hit {
                proof {
                    lemma_first_where_found(self.items@.len() as int, j as int, pred);
                }
                return Some(j);
            }
            j += 1;
        }
        proof {
            lemma_first_where_none(self.items@.len() as int, pred);
        }
        None
    }

    pub fn preset_name(&self, i: usize) -> (r: &str)
        requires
            i < self.config.presets@.len(),
        ensures
            r@ == self.config.presets@[i as int].name@,
    {
        self.config.presets[i].name.as_str()
    }

    pub fn preset_count(&self) -> (r: usize)
        ensures
            r == self.config.presets@.len(),
    {
        self.config.presets.len()
    }

    /// Switch to preset `i`, keeping the selected card where it survives.
    /// Returns whether the preset changed.
    pub fn set_preset(&mut self, i: usize) -> (changed: bool)
        requires
            old(self).view_ok(),
        ensures
            final(self).view_ok(),
            changed == (i < old(self).config.presets@.len() && i != old(self).active_preset),
            !changed ==> *final(self) == *old(self),
            changed ==> final(self).same_state(App { active_preset: i, ..*old(self) }),
            changed ==> opt_usize(final(self).selected) == selection_after(
                final(self).items_v(),
                final(self).visible@,
                final(self).nested@,
                groups_view(final(self).groups@),
                final(self).rows@,
                old(self).sel_id(),
            ),
    {
        if i >= self.config.presets.len() || i == self.active_preset {
            return false;
        }
        let keep = self.selected_id();
        self.active_preset = i;
        self.recompute(keep);
        true
    }

    /// Step the active preset by `delta`, wrapping around.
    pub fn cycle_preset(&mut self, delta: isize) -> (changed: bool)
        requires
            old(self).view_ok(),
            old(self).config.presets@.len() <= isize::MAX,
            old(self).active_preset + delta <= isize::MAX,
        ensures
            final(self).view_ok(),
            ({
                let next = (old(self).active_preset + delta) % (old(self).config.presets@.len() as int);
                &&& changed == (next != old(self).active_preset)
                &&& !changed ==> *final(self) == *old(self)
                &&& changed ==> final(self).same_state(
                    App { active_preset: next as usize, ..*old(self) },
                )
            }),
    {
        let n = self.config.presets.len();
        let next = wrap_step(self.active_preset, delta, n);
        self.set_preset(next)
    }

    // --- live filter ---
    pub fn enter_filter(&mut self)
        ensures
            *final(self) == (App { input_mode: InputMode::Filter, ..*old(self) }),
    {
        self.input_mode = InputMode::Filter;
    }

    /// Leave filter input but keep the query applied.
    pub fn confirm_filter(&mut self)
        ensures
            *final(self) == (App { input_mode: InputMode::Normal, ..*old(self) }),
    {
        self.input_mode = InputMode::Normal;
    }

    /// Leave filter input and clear the query.
    pub fn cancel_filter(&mut self)
        requires
            old(self).view_ok(),
        ensures
            final(self).view_ok(),
            old(self).filter_query@.len() == 0 ==> *final(self) == (App {
                input_mode: InputMode::Normal,
                ..*old(self)
            }),
            old(self).filter_query@.len() > 0 ==> final(self).same_state(
                App {
                    input_mode: InputMode::Normal,
                    filter_query: final(self).filter_query,
                    ..*old(self)
                },
            ) && final(self).filter_query@.len() == 0 && opt_usize(final(self).selected)
                == selection_after(
                final(self).items_v(),
                final(self).visible@,
                final(self).nested@,
                groups_view(final(self).groups@),
                final(self).rows@,
                old(self).sel_id(),
            ),
    {
        self.input_mode = InputMode::Normal;
        if !self.filter_query.as_str().is_empty() {
            let keep = self.selected_id();
            self.filter_query = String::new();
            self.recompute(keep);
        }
    }

    /// Type a character into the live query and refilter.
    pub fn push_filter(&mut self, c: char)
        requires
            old(self).view_ok(),
        ensures
            final(self).view_ok(),
            final(self).filter_query@ == old(self).filter_query@.push(c),
            final(self).same_state(App { filter_query: final(self).filter_query, ..*old(self) }),
            opt_usize(final(self).selected) == selection_after(
                final(self).items_v(),
                final(self).visible@,
                final(self).nested@,
                groups_view(final(self).groups@),
                final(self).rows@,
                old(self).sel_id(),
            ),
    {
        let keep = self.selected_id();
        crate::text::push_char(&mut self.filter_query, c);
        self.recompute(keep);
    }

    /// Delete the last character of the live query and refilter.
    pub fn pop_filter(&mut self)
        requires
            old(self).view_ok(),
        ensures
            final(self).view_ok(),
            final(self).filter_query@ == if old(self).filter_query@.len() > 0 {
                old(self).filter_query@.drop_last()
            } else {
                old(self).filter_query@
            },
            final(self).same_state(App { filter_query: final(self).filter_query, ..*old(self) }),
            opt_usize(final(self).selected) == selection_after(
                final(self).items_v(),
                final(self).visible@,
                final(self).nested@,
                groups_view(final(self).groups@),
                final(self).rows@,
                old(self).sel_id(),
            ),
    {
        let keep = self.selected_id();
        let cs = crate::text::chars_of(self.filter_query.as_str());
        if cs.len() > 0 {
            self.filter_query = crate::text::string_of_range(cs.as_slice(), 0, cs.len() - 1);
            assert(self.filter_query@ =~= old(self).filter_query@.drop_last());
        }
        self.recompute(keep);
    }

    // --- status mover ---
    /// Move the highlighted row in an open picker modal by `delta`.
    pub fn modal_move(&mut self, delta: isize)
        requires
            old(self).modal matches Modal::StatusMove { options, selected, .. } ==> selected
                <= isize::MAX && selected + delta <= isize::MAX && options@.len() <= isize::MAX,
            old(self).modal matches Modal::ProjectPick { names, selected } ==> selected
                <= isize::MAX && selected + delta <= isize::MAX && names@.len() <= isize::MAX,
        ensures
            *final(self) == (App { modal: modal_moved(old(self).modal, delta as int), ..*old(self) }),
    {
        match &mut self.modal {
            Modal::StatusMove { options, selected, .. } => {
                if options.len() > 0 {
                    *selected = clamp_step(*selected, delta, options.len() - 1);
                }
            },
            Modal::ProjectPick { names, selected } => {
                *selected = clamp_step(*selected, delta, names.len());
            },
            _ => {},
        }
    }

    /// The (item id, chosen status) of an open `StatusMove` modal, if any.
    pub fn modal_status_pick(&self) -> (r: Option<(String, String)>)
        ensures
            match self.modal {
                Modal::StatusMove { item_id, options, selected } => if selected < options@.len() {
                    r matches Some(p) && p.0@ == item_id@ && p.1@ == options@[selected as int]@
                } else {
                    r is None
                },
                _ => r is None,
            },
    {
        match &self.modal {
            Modal::StatusMove { item_id, options, selected } => {
                if *selected < options.len() {
                    Some((item_id.clone(), options[*selected].clone()))
                } else {
                    None
                }
            },
            _ => None,
        }
    }

    /// The first card with id `id`.
    fn find_id(&self, id: &str) -> (r: Option<usize>)
        ensures
            opt_usize(r) == id_pos(self.items@, id@),
    {
        let ghost pred = has_id(self.items@, id@);
        let mut j: usize = 0;
        while j < self.items.len()
            invariant
                j <= self.items@.len(),
                pred == has_id(self.items@, id@),
                forall|x: int| 0 <= x < j ==> !#[trigger] pred(x),
            decreases self.items.len() - j,
        {
            if str_eq(self.items[j].id.as_str(), id) {
                proof {
                    lemma_first_where_found(self.items@.len() as int, j as int, pred);
                }
                return Some(j);
            }
            j += 1;
        }
        proof {
            lemma_first_where_none(self.items@.len() as int, pred);
        }
        None
    }

    /// Set a card's status in place (optimistic update) and re-sort the view,
    /// keeping it selected. Returns the previous status for revert-on-failure;
    /// an unknown id changes nothing.
    pub fn set_item_status(&mut self, item_id: &str, status: Option<String>) -> (r: Option<String>)
        requires
            old(self).view_ok(),
        ensures
            final(self).view_ok(),
            r == status_of(old(self).items@, item_id@),
            final(self).items@ == status_set(old(self).items@, item_id@, status),
            id_pos(old(self).items@, item_id@) is None ==> *final(self) == *old(self),
            id_pos(old(self).items@, item_id@) is Some ==> final(self).same_state(
                App { items: final(self).items, ..*old(self) },
            ) && opt_usize(final(self).selected) == selection_after(
                final(self).items_v(),
                final(self).visible@,
                final(self).nested@,
                groups_view(final(self).groups@),
                final(self).rows@,
                Some(item_id@),
            ),
    {
        let j = match self.find_id(item_id) {
            Some(j) => j,
            None => return None,
        };
        proof {
            lemma_first_where_some(self.items@.len() as int, has_id(self.items@, item_id@));
        }
        let old_status = crate::model::clone_opt_string(&self.items[j].status);
        self.items[j].status = status;
        assert(self.items@ =~= status_set(old(self).items@, item_id@, status));
        self.recompute(Some(to_owned_string(item_id)));
        old_status
    }

    /// The current status of a card, by id.
    pub fn item_status(&self, item_id: &str) -> (r: Option<String>)
        ensures
            opt_view(r) == opt_view(status_of(self.items@, item_id@)),
    {
        proof {
            lemma_first_where_some(self.items@.len() as int, has_id(self.items@, item_id@));
        }
        match self.find_id(item_id) {
            Some(j) => crate::model::clone_opt_string(&self.items[j].status),
            None => None,
        }
    }
}

/// The distinct strings of `s`, first occurrence kept, compared ignoring ASCII
/// case.
pub open spec fn dedup_ic(s: Seq<Seq<char>>) -> Seq<Seq<char>>
    decreases s.len(),
{
    if s.len() == 0 {
        s
    } else {
        let p = dedup_ic(s.drop_last());
        if any_ic(p, s.last()) {
            p
        } else {
            p.push(s.last())
        }
    }
}

/// Every label (or, with `labels` false, every assignee) across the board, in
/// board order.
pub open spec fn field_values(items: Seq<ItemView>, labels: bool) -> Seq<Seq<char>>
    decreases items.len(),
{
    if items.len() == 0 {
        Seq::empty()
    } else {
        field_values(items.drop_last(), labels) + if labels {
            items.last().labels
        } else {
            items.last().assignees
        }
    }
}

/// Every status on the board, in board order.
pub open spec fn status_values(items: Seq<ItemView>) -> Seq<Seq<char>>
    decreases items.len(),
{
    if items.len() == 0 {
        Seq::empty()
    } else {
        let p = status_values(items.drop_last());
        match items.last().status {
            Some(s) => p.push(s),
            None => p,
        }
    }
}

/// `0, 1, …, n - 1`.
pub open spec fn index_seq(n: nat) -> Seq<usize> {
    Seq::new(n, |i: int| i as usize)
}

/// Sort key of the `i`th distinct status: its rank only.
pub open spec fn rank_key(seen: Seq<Seq<char>>, order: Seq<Seq<char>>) -> spec_fn(int) -> (
    int,
    Seq<char>,
) {
    |i: int| (rank(order, Some(seen[i])), Seq::<char>::empty())
}

/// The distinct statuses on the board, stably ordered by `status_order`
/// (unknowns last).
pub open spec fn sorted_statuses(items: Seq<ItemView>, order: Seq<Seq<char>>) -> Seq<Seq<char>> {
    let seen = dedup_ic(status_values(items));
    sort_by_key(index_seq(seen.len()), rank_key(seen, order)).map_values(|i: usize| seen[i as int])
}

/// The value column of a checkbox group.
pub open spec fn opt_names(opts: Seq<(Seq<char>, bool)>) -> Seq<Seq<char>> {
    opts.map_values(|e: (Seq<char>, bool)| e.0)
}

/// The board's values as checkbox rows, ticked when `selected` names them.
pub open spec fn seed_base(board: Seq<Seq<char>>, selected: Seq<Seq<char>>) -> Seq<(Seq<char>, bool)> {
    board.map_values(|v: Seq<char>| (v, any_ic(selected, v)))
}

/// `opts` with each of `sel` appended, ticked, when no row already names it.
pub open spec fn append_missing(opts: Seq<(Seq<char>, bool)>, sel: Seq<Seq<char>>) -> Seq<
    (Seq<char>, bool),
>
    decreases sel.len(),
{
    if sel.len() == 0 {
        opts
    } else {
        let p = append_missing(opts, sel.drop_last());
        if any_ic(opt_names(p), sel.last()) {
            p
        } else {
            p.push((sel.last(), true))
        }
    }
}

/// A checkbox group seeded from the board's values and a preset's selection.
pub open spec fn seed_spec(board: Seq<Seq<char>>, selected: Seq<Seq<char>>) -> Seq<(Seq<char>, bool)> {
    append_missing(seed_base(board, selected), selected)
}

/// Whether some row of `opts` is named `s`, ignoring ASCII case.
fn any_opt_ic(opts: &Vec<(String, bool)>, s: &str) -> (r: bool)
    ensures
        r == any_ic(opt_names(opts_view(opts@)), s@),
{
    let ghost names = opt_names(opts_view(opts@));
    let mut k: usize = 0;
    while k < opts.len()
        invariant
            k <= opts@.len(),
            names == opt_names(opts_view(opts@)),
            forall|j: int| 0 <= j < k ==> !eq_ic(#[trigger] names[j], s@),
        decreases opts.len() - k,
    {
        assert(names[k as int] == opts@[k as int].0@);
        if crate::text::eq_ignore_case(opts[k].0.as_str(), s) {
            return true;
        }
        k += 1;
    }
    false
}

/// A checkbox group from the board's values, ticking any that `selected`
/// names, then appending (ticked) selected values the board doesn't have.
fn seed_options(board: Vec<String>, selected: &Vec<String>) -> (r: Vec<(String, bool)>)
    ensures
        opts_view(r@) == seed_spec(strs_view(board@), strs_view(selected@)),
{
    let ghost bv = strs_view(board@);
    let ghost sv = strs_view(selected@);
    let mut opts: Vec<(String, bool)> = Vec::new();
    let mut k: usize = 0;
    while k < board.len()
        invariant
            k <= board@.len(),
            bv == strs_view(board@),
            sv == strs_view(selected@),
            opts_view(opts@) == seed_base(bv.take(k as int), sv),
        decreases board.len() - k,
    {
        let on = any_eq_ic(selected, board[k].as_str());
        let ghost before = opts@;
        let v = board[k].clone();
        opts.push((v, on));
        proof {
            assert(bv[k as int] == board@[k as int]@);
            assert(opts@ == before.push((v, on)));
            assert(opts_view(opts@) =~= opts_view(before).push((bv[k as int], on)));
            assert(seed_base(bv.take(k + 1), sv) =~= seed_base(bv.take(k as int), sv).push(
                (bv[k as int], any_ic(sv, bv[k as int])),
            ));
        }
        k += 1;
    }
    assert(bv.take(bv.len() as int) =~= bv);
    let ghost base = opts_view(opts@);
    let mut k: usize = 0;
    while k < selected.len()
        invariant
            k <= selected@.len(),
            sv == strs_view(selected@),
            opts_view(opts@) == append_missing(base, sv.take(k as int)),
        decreases selected.len() - k,
    {
        proof {
            assert(sv.take(k + 1).drop_last() =~= sv.take(k as int));
            assert(sv[k as int] == selected@[k as int]@);
        }
        if !any_opt_ic(&opts, selected[k].as_str()) {
            opts.push((selected[k].clone(), true));
            proof {
                assert(opts_view(opts@) =~= opts_view(opts@.drop_last()).push((selected@[k as int]@, true)));
            }
        }
        k += 1;
    }
    assert(sv.take(sv.len() as int) =~= sv);
    opts
}

impl App {
    /// The repo a new ticket is created in: the first configured repo, else
    /// the first repo seen on the board.
    pub open spec fn create_repo(self) -> Option<Seq<char>> {
        if self.config.repos@.len() > 0 {
            Some(self.config.repos@[0]@)
        } else {
            match first_where(self.items@.len() as int, |j: int| self.items@[j].repository is Some) {
                Some(j) => opt_view(self.items@[j].repository),
                None => None,
            }
        }
    }

    /// Distinct labels (or assignees) across every card, first-seen order.
    fn distinct(&self, labels: bool) -> (r: Vec<String>)
        ensures
            strs_view(r@) == dedup_ic(field_values(self.items_v(), labels)),
    {
        let ghost iv = self.items_v();
        let mut seen: Vec<String> = Vec::new();
        let mut i: usize = 0;
        while i < self.items.len()
            invariant
                i <= self.items@.len(),
                iv == self.items_v(),
                strs_view(seen@) == dedup_ic(field_values(iv.take(i as int), labels)),
            decreases self.items.len() - i,
        {
            let it = &self.items[i];
            assert(iv[i as int] == it@);
            let vals = if labels {
                &it.labels
            } else {
                &it.assignees
            };
            let ghost pre = field_values(iv.take(i as int), labels);
            let ghost fv = strs_view(vals@);
            let mut j: usize = 0;
            while j < vals.len()
                invariant
                    j <= vals@.len(),
                    fv == strs_view(vals@),
                    strs_view(seen@) == dedup_ic(pre + fv.take(j as int)),
                decreases vals.len() - j,
            {
                proof {
                    assert((pre + fv.take(j + 1)).drop_last() =~= pre + fv.take(j as int));
                    assert((pre + fv.take(j + 1)).last() == vals@[j as int]@);
                }
                if !any_eq_ic(&seen, vals[j].as_str()) {
                    seen.push(vals[j].clone());
                    proof {
                        assert(strs_view(seen@) =~= strs_view(seen@.drop_last()).push(
                            seen@.last()@,
                        ));
                    }
                }
                j += 1;
            }
            proof {
                assert(iv.take(i + 1).drop_last() =~= iv.take(i as int));
                assert(fv.take(fv.len() as int) =~= fv);
                assert(fv == if labels {
                    iv.take(i + 1).last().labels
                } else {
                    iv.take(i + 1).last().assignees
                });
            }
            i += 1;
        }
        assert(iv.take(iv.len() as int) =~= iv);
        seen
    }

    /// Distinct statuses on the board, ordered by `status_order` (unknowns last).
    fn board_statuses(&self) -> (r: Vec<String>)
        ensures
            strs_view(r@) == sorted_statuses(self.items_v(), self.config.order_view()),
    {
        let ghost iv = self.items_v();
        let mut seen: Vec<String> = Vec::new();
        let mut i: usize = 0;
        while i < self.items.len()
            invariant
                i <= self.items@.len(),
                iv == self.items_v(),
                strs_view(seen@) == dedup_ic(status_values(iv.take(i as int))),
            decreases self.items.len() - i,
        {
            let it = &self.items[i];
            assert(iv[i as int] == it@);
            assert(iv.take(i + 1).drop_last() =~= iv.take(i as int));
            assert(iv.take(i + 1).last() == it@);
            let ghost pre = status_values(iv.take(i as int));
            if let Some(s) = &it.status {
                assert(status_values(iv.take(i + 1)) == pre.push(s@));
                assert(pre.push(s@).drop_last() =~= pre);
                if !any_eq_ic(&seen, s.as_str()) {
                    seen.push(s.clone());
                    proof {
                        assert(strs_view(seen@) =~= strs_view(seen@.drop_last()).push(
                            seen@.last()@,
                        ));
                    }
                }
            }
            i += 1;
        }
        assert(iv.take(iv.len() as int) =~= iv);
        let ghost sv = strs_view(seen@);
        let ghost kf = rank_key(sv, self.config.order_view());
        let n = seen.len();
        let mut keys: Vec<crate::board::SortKey> = Vec::new();
        let mut idx: Vec<usize> = Vec::new();
        let mut k: usize = 0;
        while k < n
            invariant
                k <= n,
                n == seen@.len(),
                sv == strs_view(seen@),
                kf == rank_key(sv, self.config.order_view()),
                keys@.len() == k,
                idx@ == index_seq(k as nat),
                forall|x: int| 0 <= x < k ==> (#[trigger] keys@[x]).view_key() == kf(x),
            decreases n - k,
        {
            assert(sv[k as int] == seen@[k as int]@);
            let r = self.config.status_rank(Some(seen[k].as_str()));
            keys.push(crate::board::SortKey { rank: r, key: Vec::new() });
            idx.push(k);
            assert(idx@ =~= index_seq((k + 1) as nat));
            k += 1;
        }
        let sorted = crate::board::sort_indices(&idx, &keys, Ghost(kf));
        let mut out: Vec<String> = Vec::new();
        let mut k: usize = 0;
        while k < sorted.len()
            invariant
                k <= sorted@.len(),
                sv == strs_view(seen@),
                forall|x: int| 0 <= x < sorted@.len() ==> (#[trigger] sorted@[x]) < seen@.len(),
                strs_view(out@) == sorted@.take(k as int).map_values(|i: usize| sv[i as int]),
            decreases sorted.len() - k,
        {
            let x = sorted[k];
            let ghost before = out@;
            let v = seen[x].clone();
            out.push(v);
            proof {
                assert(sv[x as int] == seen@[x as int]@);
                assert(out@ == before.push(v));
                assert(strs_view(out@) =~= strs_view(before).push(sv[x as int]));
                assert(sorted@.take(k + 1).map_values(|i: usize| sv[i as int]) =~= sorted@.take(
                    k as int,
                ).map_values(|i: usize| sv[i as int]).push(sv[x as int]));
            }
            k += 1;
        }
        assert(sorted@.take(sorted@.len() as int) =~= sorted@);
        out
    }

    /// Open the create-ticket form, seeded with the board's labels and
    /// statuses. Returns false, changing nothing, if no repo can be determined.
    pub fn open_create(&mut self) -> (r: bool)
        ensures
            r == (old(self).create_repo() is Some),
            !r ==> *final(self) == *old(self),
            r ==> *final(self) == (App { modal: final(self).modal, ..*old(self) }),
            r ==> (final(self).modal matches Modal::Create(d) && {
                &&& d.repo@ == old(self).create_repo()->0
                &&& d.title@.len() == 0
                &&& d.body@.len() == 0
                &&& strs_view(d.labels@) == dedup_ic(field_values(old(self).items_v(), true))
                &&& d.label_idx == 0
                &&& strs_view(d.statuses@) == if old(self).config.status_order@.len() == 0 {
                    sorted_statuses(old(self).items_v(), old(self).config.order_view())
                } else {
                    old(self).config.order_view()
                }
                &&& d.status_idx == 0
                &&& d.focus == 0
            }),
    {
        let repo = if self.config.repos.len() > 0 {
            self.config.repos[0].clone()
        } else {
            let ghost pred = |j: int| self.items@[j].repository is Some;
            let mut j: usize = 0;
            while j < self.items.len()
                invariant
                    j <= self.items@.len(),
                    pred == (|j: int| self.items@[j].repository is Some),
                    forall|x: int| 0 <= x < j ==> !#[trigger] pred(x),
                ensures
                    j == self.items@.len() || pred(j as int),
                decreases self.items.len() - j,
            {
                if self.items[j].repository.is_some() {
                    break;
                }
                j += 1;
            }
            if j == self.items.len() {
                proof {
                    lemma_first_where_none(self.items@.len() as int, pred);
                }
                return false;
            }
            proof {
                lemma_first_where_found(self.items@.len() as int, j as int, pred);
            }
            match &self.items[j].repository {
                Some(r) => r.clone(),
                None => return false,
            }
        };
        let labels = self.distinct(true);
        let statuses = if self.config.status_order.len() == 0 {
            self.board_statuses()
        } else {
            clone_strings(&self.config.status_order)
        };
        self.modal = Modal::Create(
            CreateDraft {
                repo,
                title: String::new(),
                body: String::new(),
                labels,
                label_idx: 0,
                statuses,
                status_idx: 0,
                focus: 0,
            },
        );
        true
    }

    /// Open the builder for a brand-new filter: every board value present but
    /// unchecked, no name.
    pub fn open_filter_builder(&mut self)
        ensures
            *final(self) == (App { modal: final(self).modal, ..*old(self) }),
            final(self).modal matches Modal::FilterBuild(d) && {
                &&& d.name@.len() == 0
                &&& opts_view(d.statuses@) == seed_spec(
                    sorted_statuses(old(self).items_v(), old(self).config.order_view()),
                    Seq::empty(),
                )
                &&& opts_view(d.labels@) == seed_spec(
                    dedup_ic(field_values(old(self).items_v(), true)),
                    Seq::empty(),
                )
                &&& opts_view(d.assignees@) == seed_spec(
                    dedup_ic(field_values(old(self).items_v(), false)),
                    Seq::empty(),
                )
                &&& opts_view(d.grouping@) == seq![(GROUP_PARENTS_LABEL@, false)]
                &&& d.focus == 0
                &&& d.original is None
            },
    {
        let none: Vec<String> = Vec::new();
        let statuses = seed_options(self.board_statuses(), &none);
        let labels = seed_options(self.distinct(true), &none);
        let assignees = seed_options(self.distinct(false), &none);
        assert(strs_view(none@) =~= Seq::<Seq<char>>::empty());
        self.modal = Modal::FilterBuild(
            FilterDraft {
                name: String::new(),
                statuses,
                labels,
                assignees,
                grouping: FilterDraft::grouping_row(false),
                focus: 0,
                original: None,
            },
        );
    }

    /// Open the builder pre-seeded from the active preset, so it can be edited
    /// in place. Values the preset names that no card has are still shown, ticked.
    pub fn open_filter_editor(&mut self)
        requires
            old(self).active_preset < old(self).config.presets@.len(),
        ensures
            *final(self) == (App { modal: final(self).modal, ..*old(self) }),
            final(self).modal matches Modal::FilterBuild(d) && {
                let p = old(self).preset_v();
                &&& d.name@ == p.name
                &&& opts_view(d.statuses@) == seed_spec(
                    sorted_statuses(old(self).items_v(), old(self).config.order_view()),
                    p.includes.statuses,
                )
                &&& opts_view(d.labels@) == seed_spec(
                    dedup_ic(field_values(old(self).items_v(), true)),
                    p.includes.labels,
                )
                &&& opts_view(d.assignees@) == seed_spec(
                    dedup_ic(field_values(old(self).items_v(), false)),
                    p.includes.assignees,
                )
                &&& opts_view(d.grouping@) == seq![(GROUP_PARENTS_LABEL@, p.include_parents)]
                &&& d.focus == 0
                &&& opt_view(d.original) == Some(p.name)
            },
    {
        let preset = &self.config.presets[self.active_preset];
        let name = preset.name.clone();
        let inc = preset.includes.clone();
        let parents = preset.include_parents;
        let statuses = seed_options(self.board_statuses(), &inc.statuses);
        let labels = seed_options(self.distinct(true), &inc.labels);
        let assignees = seed_options(self.distinct(false), &inc.assignees);
        let original = Some(name.clone());
        self.modal = Modal::FilterBuild(
            FilterDraft {
                name,
                statuses,
                labels,
                assignees,
                grouping: FilterDraft::grouping_row(parents),
                focus: 0,
                original,
            },
        );
    }

    /// Adopt `preset` into the config, make it active, and rebuild the view.
    /// `replacing` is the pre-edit name: if the name changed, the old entry is
    /// dropped so a rename doesn't duplicate. A same-named preset is
    /// overwritten in place, else it is appended. Returns its index.
    pub fn save_preset(&mut self, preset: Preset, replacing: Option<String>) -> (r: usize)
        requires
            old(self).view_ok(),
        ensures
            final(self).view_ok(),
            presets_view(final(self).config.presets@) == saved_presets(
                presets_view(old(self).config.presets@),
                preset@,
                opt_view(replacing),
            ).0,
            r == saved_presets(presets_view(old(self).config.presets@), preset@, opt_view(replacing)).1,
            final(self).active_preset == r,
            final(self).config == (ProjectConfig {
                presets: final(self).config.presets,
                ..old(self).config
            }),
            final(self).same_state(
                App { config: final(self).config, active_preset: r, ..*old(self) },
            ),
            opt_usize(final(self).selected) == selection_after(
                final(self).items_v(),
                final(self).visible@,
                final(self).nested@,
                groups_view(final(self).groups@),
                final(self).rows@,
                old(self).sel_id(),
            ),
    {
        let keep = self.selected_id();
        let idx = match &replacing {
            Some(o) => save_into(&mut self.config.presets, preset, Some(o.as_str())),
            None => save_into(&mut self.config.presets, preset, None),
        };
        proof {
            lemma_saved_presets(presets_view(old(self).config.presets@), preset@, opt_view(replacing));
        }
        self.active_preset = idx;
        self.recompute(keep);
        idx
    }

    /// Remove the preset at `index`, clamp the active selection, and rebuild
    /// the view. Refuses to remove the last preset. Returns whether one was
    /// removed.
    pub fn delete_preset(&mut self, index: usize) -> (r: bool)
        requires
            old(self).view_ok(),
        ensures
            final(self).view_ok(),
            r == (old(self).config.presets@.len() > 1 && index < old(self).config.presets@.len()),
            !r ==> *final(self) == *old(self),
            r ==> presets_view(final(self).config.presets@) == presets_view(
                old(self).config.presets@,
            ).remove(index as int),
            r ==> final(self).active_preset == if old(self).active_preset
                >= old(self).config.presets@.len() - 1 {
                (old(self).config.presets@.len() - 2) as usize
            } else {
                old(self).active_preset
            },
            r ==> final(self).config == (ProjectConfig {
                presets: final(self).config.presets,
                ..old(self).config
            }),
            r ==> final(self).same_state(
                App {
                    config: final(self).config,
                    active_preset: final(self).active_preset,
                    ..*old(self)
                },
            ),
    {
        if self.config.presets.len() <= 1 || index >= self.config.presets.len() {
            return false;
        }
        let keep = self.selected_id();
        let ghost ps0 = self.config.presets@;
        self.config.presets.remove(index);
        assert(presets_view(self.config.presets@) =~= presets_view(ps0).remove(index as int));
        if self.active_preset >= self.config.presets.len() {
            self.active_preset = self.config.presets.len() - 1;
        }
        self.recompute(keep);
        true
    }
}

/// `x` clamped into `[lo, hi]`.
pub open spec fn clamp(x: int, lo: int, hi: int) -> int {
    if x < lo {
        lo
    } else if x > hi {
        hi
    } else {
        x
    }
}

/// `cur + delta`, clamped into `[0, max]`.
fn clamp_step(cur: usize, delta: isize, max: usize) -> (r: usize)
    requires
        cur <= isize::MAX,
        max <= isize::MAX,
        cur + delta <= isize::MAX,
    ensures
        r == clamp(cur + delta, 0, max as int),
{
    let t: isize = cur as isize + delta;
    if t < 0 {
        0
    } else if t > max as isize {
        max
    } else {
        t as usize
    }
}

/// A list cursor moved by `delta`, clamped to `[0, len)`; unchanged on an
/// empty list. No selection counts as the first row.
pub fn step(selected: Option<usize>, len: usize, delta: isize) -> (r: Option<usize>)
    requires
        len <= isize::MAX,
        (match selected {
            Some(s) => s as int,
            None => 0,
        }) <= isize::MAX,
        (match selected {
            Some(s) => s as int,
            None => 0,
        }) + delta <= isize::MAX,
    ensures
        len == 0 ==> r == selected,
        len > 0 ==> r == Some(
            clamp(
                (match selected {
                    Some(s) => s as int,
                    None => 0,
                }) + delta,
                0,
                len - 1,
            ) as usize,
        ),
{
    if len == 0 {
        return selected;
    }
    let cur = match selected {
        Some(s) => s,
        None => 0,
    };
    Some(clamp_step(cur, delta, len - 1))
}

/// A modal overlay (start-work confirm, status mover, messages). Captures all
/// input while open.
pub enum Modal {
    /// Nothing is open.
    Closed,
    /// Awaiting Enter/Esc before driving the agent pane. `prompt` is the line
    /// sent to the agent — prefilled from the skill + issue, editable here.
    Confirm {
        item_id: String,
        issue: u64,
        skill: String,
        session: String,
        prompt: String,
        /// `e` toggles this: while true, keys type into `prompt`.
        editing: bool,
    },
    /// Awaiting y/n before creating a worktree and starting the ticket in its own
    /// detached tmux session. `path` is the display path of the worktree; `base`
    /// the display name of the branch it forks from; `base_rev` the configured
    /// start point, if any; `subdir` the configured `claude_subdir`, if any;
    /// `bootstrap` a one-line summary of the seed/setup steps, if configured.
    WorktreeConfirm {
        item_id: String,
        issue: u64,
        skill: String,
        session: String,
        prompt: String,
        editing: bool,
        path: String,
        base: String,
        base_rev: Option<String>,
        subdir: Option<String>,
        bootstrap: Option<String>,
    },
    /// Status column picker. `selected` indexes `options`.
    StatusMove { item_id: String, options: Vec<String>, selected: usize },
    /// Project switcher. `selected` ranges over `0..=names.len()`, where the
    /// trailing index is "Add a board…".
    ProjectPick { names: Vec<String>, selected: usize },
    /// Keybindings overlay; any key dismisses.
    Help,
    /// Interactive builder for a saved preset.
    FilterBuild(FilterDraft),
    /// New-ticket form.
    Create(CreateDraft),
    /// Awaiting y/n before deleting the preset at `index` (`name` for display).
    ConfirmDelete { index: usize, name: String },
    /// A warning or result line; any key dismisses it.
    Message(String),
}

impl Modal {
    pub fn is_open(&self) -> (r: bool)
        ensures
            r == !(self is Closed),
    {
        match self {
            Modal::Closed => false,
            _ => true,
        }
    }

    /// The editable start-work prompt, when this modal carries one.
    pub open spec fn prompt_spec(self) -> Option<Seq<char>> {
        match self {
            Modal::Confirm { prompt, .. } => Some(prompt@),
            Modal::WorktreeConfirm { prompt, .. } => Some(prompt@),
            _ => None,
        }
    }

    /// Whether a start-work confirm is in prompt-editing mode.
    pub open spec fn editing_spec(self) -> bool {
        match self {
            Modal::Confirm { editing, .. } => editing,
            Modal::WorktreeConfirm { editing, .. } => editing,
            _ => false,
        }
    }

    /// The modal with its start-work prompt replaced by `p` (unchanged when it
    /// carries none).
    pub open spec fn with_prompt(self, p: String) -> Modal {
        match self {
            Modal::Confirm { item_id, issue, skill, session, prompt, editing } => Modal::Confirm {
                item_id,
                issue,
                skill,
                session,
                prompt: p,
                editing,
            },
            Modal::WorktreeConfirm {
                item_id,
                issue,
                skill,
                session,
                prompt,
                editing,
                path,
                base,
                base_rev,
                subdir,
                bootstrap,
            } => Modal::WorktreeConfirm {
                item_id,
                issue,
                skill,
                session,
                prompt: p,
                editing,
                path,
                base,
                base_rev,
                subdir,
                bootstrap,
            },
            other => other,
        }
    }

    /// The modal with prompt-editing set to `on` (unchanged when it isn't a
    /// start-work confirm).
    pub open spec fn with_editing(self, on: bool) -> Modal {
        match self {
            Modal::Confirm { item_id, issue, skill, session, prompt, editing } => Modal::Confirm {
                item_id,
                issue,
                skill,
                session,
                prompt,
                editing: on,
            },
            Modal::WorktreeConfirm {
                item_id,
                issue,
                skill,
                session,
                prompt,
                editing,
                path,
                base,
                base_rev,
                subdir,
                bootstrap,
            } => Modal::WorktreeConfirm {
                item_id,
                issue,
                skill,
                session,
                prompt,
                editing: on,
                path,
                base,
                base_rev,
                subdir,
                bootstrap,
            },
            other => other,
        }
    }

    /// The editable start-work prompt, when this modal carries one.
    pub fn prompt_mut(&mut self) -> (r: Option<&mut String>)
        ensures
            (r is Some) == (old(self).prompt_spec() is Some),
            r matches Some(p) ==> p@ == old(self).prompt_spec()->0 && *final(self) == old(
                self,
            ).with_prompt(*final(p)),
            r is None ==> *final(self) == *old(self),
    {
        match self {
            Modal::Confirm { prompt, .. } => Some(prompt),
            Modal::WorktreeConfirm { prompt, .. } => Some(prompt),
            _ => None,
        }
    }

    /// Whether a start-work confirm is currently in prompt-editing mode.
    pub fn is_editing_prompt(&self) -> (r: bool)
        ensures
            r == self.editing_spec(),
    {
        match self {
            Modal::Confirm { editing, .. } => *editing,
            Modal::WorktreeConfirm { editing, .. } => *editing,
            _ => false,
        }
    }

    /// Set prompt-editing mode on a start-work confirm.
    pub fn set_editing_prompt(&mut self, on: bool)
        ensures
            *final(self) == old(self).with_editing(on),
    {
        match self {
            Modal::Confirm { editing, .. } => {
                *editing = on;
            },
            Modal::WorktreeConfirm { editing, .. } => {
                *editing = on;
            },
            _ => {},
        }
    }
}


/// The views of a checkbox group.
pub open spec fn opts_view(v: Seq<(String, bool)>) -> Seq<(Seq<char>, bool)> {
    v.map_values(|e: (String, bool)| (e.0@, e.1))
}

/// The values of the checked rows of a checkbox group, in order.
pub open spec fn picked_spec(g: Seq<(Seq<char>, bool)>) -> Seq<Seq<char>>
    decreases g.len(),
{
    if g.len() == 0 {
        Seq::empty()
    } else {
        let p = picked_spec(g.drop_last());
        if g.last().1 {
            p.push(g.last().0)
        } else {
            p
        }
    }
}

/// The values of the checked rows of `group`, in order.
fn picked(group: &Vec<(String, bool)>) -> (r: Vec<String>)
    ensures
        strs_view(r@) == picked_spec(opts_view(group@)),
{
    let mut out: Vec<String> = Vec::new();
    let mut k: usize = 0;
    while k < group.len()
        invariant
            k <= group@.len(),
            strs_view(out@) == picked_spec(opts_view(group@.take(k as int))),
        decreases group.len() - k,
    {
        proof {
            assert(opts_view(group@.take(k + 1)).drop_last() =~= opts_view(group@.take(k as int)));
        }
        if group[k].1 {
            out.push(group[k].0.clone());
            proof {
                assert(strs_view(out@) =~= strs_view(out@.drop_last()).push(out@.last()@));
            }
        }
        k += 1;
    }
    assert(group@.take(group@.len() as int) =~= group@);
    out
}

/// The single row label of the builder's `Grouping` section, whose checkbox is
/// the preset's `include_parents`.
pub const GROUP_PARENTS_LABEL: &'static str = "show parent tasks of matching sub-issues";

/// In-progress state for the filter builder modal. The three filter groups are
/// seeded from the values present on the board; `focus` walks a flat list
/// where `0` is the name field and `1..` are the option rows in order
/// (statuses, then labels, then assignees, then grouping).
pub struct FilterDraft {
    pub name: String,
    pub statuses: Vec<(String, bool)>,
    pub labels: Vec<(String, bool)>,
    pub assignees: Vec<(String, bool)>,
    /// Always one row (`GROUP_PARENTS_LABEL`).
    pub grouping: Vec<(String, bool)>,
    pub focus: usize,
    /// The name of the preset being edited, or `None` for a brand-new filter.
    pub original: Option<String>,
}

impl FilterDraft {
    /// Total number of option rows.
    pub open spec fn count_spec(self) -> int {
        (self.statuses@.len() + self.labels@.len() + self.assignees@.len() + self.grouping@.len()) as int
    }

    /// The focus index at which each section begins: the name field (0), then
    /// the first option row of each non-empty group.
    pub open spec fn section_starts(self) -> Seq<int> {
        let a = self.statuses@.len() as int;
        let b = self.labels@.len() as int;
        let c = self.assignees@.len() as int;
        let d = self.grouping@.len() as int;
        let s1 = if a > 0 {
            seq![0int, 1int]
        } else {
            seq![0int]
        };
        let s2 = if b > 0 {
            s1.push(1 + a)
        } else {
            s1
        };
        let s3 = if c > 0 {
            s2.push(1 + a + b)
        } else {
            s2
        };
        if d > 0 {
            s3.push(1 + a + b + c)
        } else {
            s3
        }
    }

    /// The section the focus is in: the last whose start is at or before it.
    pub open spec fn section_at(self) -> int {
        let st = self.section_starts();
        match last_where(st.len() as int, at_or_before(st, self.focus as int)) {
            Some(k) => k,
            None => 0,
        }
    }

    /// The focus's section is one of at most five.
    pub proof fn lemma_section_at_bound(self)
        ensures
            0 <= self.section_at() < self.section_starts().len() <= 5,
    {
        let st = self.section_starts();
        crate::board::lemma_last_where_bound(st.len() as int, at_or_before(st, self.focus as int));
    }

    /// Every option group in focus order.
    pub fn groups(&self) -> (r: [&Vec<(String, bool)>; 4])
        ensures
            r@ == seq![&self.statuses, &self.labels, &self.assignees, &self.grouping],
    {
        [&self.statuses, &self.labels, &self.assignees, &self.grouping]
    }

    /// Total number of toggleable option rows across all groups.
    pub fn option_count(&self) -> (r: usize)
        requires
            self.count_spec() <= usize::MAX,
        ensures
            r == self.count_spec(),
    {
        self.statuses.len() + self.labels.len() + self.assignees.len() + self.grouping.len()
    }

    /// A one-row `Grouping` section, checked to match `on`.
    pub fn grouping_row(on: bool) -> (r: Vec<(String, bool)>)
        ensures
            opts_view(r@) == seq![(GROUP_PARENTS_LABEL@, on)],
    {
        let mut v: Vec<(String, bool)> = Vec::new();
        v.push((to_owned_string(GROUP_PARENTS_LABEL), on));
        assert(opts_view(v@) =~= seq![(GROUP_PARENTS_LABEL@, on)]);
        v
    }

    /// Move focus by `delta` over `[name, option_0, … option_n-1]`, clamped.
    pub fn move_focus(&mut self, delta: isize)
        requires
            old(self).count_spec() <= isize::MAX,
            old(self).focus <= isize::MAX,
            old(self).focus + delta <= isize::MAX,
        ensures
            *final(self) == (FilterDraft {
                focus: clamp(old(self).focus + delta, 0, old(self).count_spec()) as usize,
                ..*old(self)
            }),
    {
        let max = self.option_count();
        self.focus = clamp_step(self.focus, delta, max);
    }

    /// Jump focus to the start of the previous/next section, where a section is
    /// the name field or a non-empty option group; the ends clamp.
    pub fn jump_section(&mut self, delta: isize)
        requires
            old(self).count_spec() < isize::MAX,
            old(self).section_at() + delta <= isize::MAX,
        ensures
            *final(self) == (FilterDraft {
                focus: old(self).section_starts()[clamp(
                    old(self).section_at() + delta,
                    0,
                    old(self).section_starts().len() - 1,
                )] as usize,
                ..*old(self)
            }),
    {
        let a = self.statuses.len();
        let b = self.labels.len();
        let c = self.assignees.len();
        let d = self.grouping.len();
        let mut starts: Vec<usize> = Vec::new();
        starts.push(0);
        if a > 0 {
            starts.push(1);
        }
        if b > 0 {
            starts.push(1 + a);
        }
        if c > 0 {
            starts.push(1 + a + b);
        }
        if d > 0 {
            starts.push(1 + a + b + c);
        }
        let ghost st = self.section_starts();
        assert(starts@.len() == st.len());
        assert forall|k: int| 0 <= k < st.len() implies starts@[k] == #[trigger] st[k] by {}
        let focus = self.focus;
        let ghost pred = at_or_before(st, focus as int);
        let mut k = starts.len();
        while k > 0
            invariant
                k <= starts@.len(),
                starts@.len() == st.len(),
                forall|j: int| 0 <= j < st.len() ==> starts@[j] == #[trigger] st[j],
                pred == at_or_before(st, focus as int),
                last_where(st.len() as int, pred) == last_where(k as int, pred),
            ensures
                k == 0 || st[k - 1] <= focus,
            decreases k,
        {
            if starts[k - 1] <= focus {
                break;
            }
            k -= 1;
        }
        let cur: usize = if k > 0 {
            k - 1
        } else {
            0
        };
        assert(cur == self.section_at());
        let next = clamp_step(cur, delta, starts.len() - 1);
        self.focus = starts[next];
    }

    /// Flip the checkbox under the focused option row (no-op on the name field
    /// and past the last row).
    pub fn toggle_focused(&mut self)
        ensures
            final(self).name == old(self).name,
            final(self).focus == old(self).focus,
            final(self).original == old(self).original,
            final(self).statuses@ == toggled(old(self).statuses@, old(self).focus - 1),
            final(self).labels@ == toggled(
                old(self).labels@,
                old(self).focus - 1 - old(self).statuses@.len(),
            ),
            final(self).assignees@ == toggled(
                old(self).assignees@,
                old(self).focus - 1 - old(self).statuses@.len() - old(self).labels@.len(),
            ),
            final(self).grouping@ == toggled(
                old(self).grouping@,
                old(self).focus - 1 - old(self).statuses@.len() - old(self).labels@.len()
                    - old(self).assignees@.len(),
            ),
    {
        if self.focus == 0 {
            return;
        }
        let mut i = self.focus - 1;
        if i < self.statuses.len() {
            let on = self.statuses[i].1;
            self.statuses[i].1 = !on;
            return;
        }
        i = i - self.statuses.len();
        if i < self.labels.len() {
            let on = self.labels[i].1;
            self.labels[i].1 = !on;
            return;
        }
        i = i - self.labels.len();
        if i < self.assignees.len() {
            let on = self.assignees[i].1;
            self.assignees[i].1 = !on;
            return;
        }
        i = i - self.assignees.len();
        if i < self.grouping.len() {
            let on = self.grouping[i].1;
            self.grouping[i].1 = !on;
        }
    }

    /// The preset the draft describes, or `None` when the trimmed name is blank.
    pub open spec fn preset_spec(self) -> Option<PresetView> {
        let name = trim(self.name@);
        if name.len() == 0 {
            None
        } else {
            Some(
                PresetView {
                    name,
                    includes: FilterView {
                        labels: picked_spec(opts_view(self.labels@)),
                        statuses: picked_spec(opts_view(self.statuses@)),
                        assignees: picked_spec(opts_view(self.assignees@)),
                    },
                    include_parents: self.grouping@.len() > 0 && self.grouping@[0].1,
                },
            )
        }
    }

    /// Build a named `Preset` from the current selections, or `None` if the name
    /// is blank. Unchecked groups leave that filter dimension unconstrained.
    pub fn to_preset(&self) -> (r: Option<Preset>)
        ensures
            match r {
                Some(p) => self.preset_spec() == Some(p@),
                None => self.preset_spec() is None,
            },
    {
        let name = crate::text::trim_string(self.name.as_str());
        if name.as_str().is_empty() {
            return None;
        }
        let include_parents = self.grouping.len() > 0 && self.grouping[0].1;
        Some(
            Preset {
                name,
                includes: Filter {
                    labels: picked(&self.labels),
                    statuses: picked(&self.statuses),
                    assignees: picked(&self.assignees),
                },
                include_parents,
            },
        )
    }
}

/// Index `k` of `st` starts at or before `focus`.
pub open spec fn at_or_before(st: Seq<int>, focus: int) -> spec_fn(int) -> bool {
    |k: int| st[k] <= focus
}

/// `s` with the checkbox of row `j` flipped, when `j` is a row of it.
pub open spec fn toggled(s: Seq<(String, bool)>, j: int) -> Seq<(String, bool)> {
    if 0 <= j < s.len() {
        s.update(j, (s[j].0, !s[j].1))
    } else {
        s
    }
}


/// `(cur + delta)` wrapped into `[0, n)`, Euclidean style.
fn wrap_step(cur: usize, delta: isize, n: usize) -> (r: usize)
    requires
        0 < n <= isize::MAX,
        cur <= isize::MAX,
        cur + delta <= isize::MAX,
    ensures
        r == (cur + delta) % (n as int),
{
    let t: isize = cur as isize + delta;
    if t >= 0 {
        let u = t as usize;
        u % n
    } else {
        let a: usize = (-(t + 1)) as usize;
        proof {
            lemma_wrap_negative(t as int, a as int, n as int);
        }
        n - 1 - a % n
    }
}

/// For negative `t`, the Euclidean remainder `t % n` counts down from `n - 1`.
proof fn lemma_wrap_negative(t: int, a: int, n: int)
    requires
        n > 0,
        t < 0,
        a == -(t + 1),
    ensures
        0 <= a % n < n,
        t % n == n - 1 - a % n,
{
    let q = a / n;
    let r = a % n;
    vstd::arithmetic::div_mod::lemma_fundamental_div_mod(a, n);
    assert(0 <= r < n);
    assert(t == (-q - 1) * n + (n - 1 - r)) by (nonlinear_arith)
        requires
            a == n * q + r,
            a == -(t + 1),
    ;
    vstd::arithmetic::div_mod::lemma_fundamental_div_mod_converse(t, n, -q - 1, n - 1 - r);
}

/// In-progress state for the create-ticket modal. `focus` walks `0` title,
/// `1` description, `2` label, `3` status, `4` the Create button.
/// `label_idx`/`status_idx` are 0 for "(none)", else 1-based into their option
/// lists, so cycling wraps through none → each option → none.
pub struct CreateDraft {
    /// `owner/name` the issue is created in.
    pub repo: String,
    pub title: String,
    pub body: String,
    /// Selectable labels present on the board; empty is allowed.
    pub labels: Vec<String>,
    pub label_idx: usize,
    /// Selectable statuses.
    pub statuses: Vec<String>,
    pub status_idx: usize,
    pub focus: usize,
}

impl CreateDraft {
    /// Highest focus index: title, description, label, status, then the button.
    pub const FOCUS_MAX: usize = 4;

    /// Move focus over `[title, body, label, status, create]`, clamped.
    pub fn move_focus(&mut self, delta: isize)
        requires
            old(self).focus <= isize::MAX,
            old(self).focus + delta <= isize::MAX,
        ensures
            *final(self) == (CreateDraft {
                focus: clamp(old(self).focus + delta, 0, 4) as usize,
                ..*old(self)
            }),
    {
        self.focus = clamp_step(self.focus, delta, Self::FOCUS_MAX);
    }

    /// Cycle the label choice through `none → each label → none`.
    pub fn cycle_label(&mut self, delta: isize)
        requires
            old(self).labels@.len() < isize::MAX,
            old(self).label_idx <= isize::MAX,
            old(self).label_idx + delta <= isize::MAX,
        ensures
            *final(self) == (CreateDraft {
                label_idx: ((old(self).label_idx + delta) % (old(self).labels@.len() + 1) as int) as usize,
                ..*old(self)
            }),
    {
        self.label_idx = wrap_step(self.label_idx, delta, self.labels.len() + 1);
    }

    /// Cycle the status choice through `none → each status → none`.
    pub fn cycle_status(&mut self, delta: isize)
        requires
            old(self).statuses@.len() < isize::MAX,
            old(self).status_idx <= isize::MAX,
            old(self).status_idx + delta <= isize::MAX,
        ensures
            *final(self) == (CreateDraft {
                status_idx: ((old(self).status_idx + delta) % (old(self).statuses@.len() + 1) as int) as usize,
                ..*old(self)
            }),
    {
        self.status_idx = wrap_step(self.status_idx, delta, self.statuses.len() + 1);
    }

    /// The chosen label, or `None` for "(none)".
    pub fn chosen_label(&self) -> (r: Option<&str>)
        requires
            self.label_idx <= self.labels@.len(),
        ensures
            match r {
                Some(s) => self.label_idx > 0 && s@ == self.labels@[self.label_idx - 1]@,
                None => self.label_idx == 0,
            },
    {
        if self.label_idx > 0 {
            Some(self.labels[self.label_idx - 1].as_str())
        } else {
            None
        }
    }

    /// The chosen status, or `None` for "(none)".
    pub fn chosen_status(&self) -> (r: Option<&str>)
        requires
            self.status_idx <= self.statuses@.len(),
        ensures
            match r {
                Some(s) => self.status_idx > 0 && s@ == self.statuses@[self.status_idx - 1]@,
                None => self.status_idx == 0,
            },
    {
        if self.status_idx > 0 {
            Some(self.statuses[self.status_idx - 1].as_str())
        } else {
            None
        }
    }

    /// Display string for the label field.
    pub fn label_display(&self) -> (r: &str)
        requires
            self.label_idx <= self.labels@.len(),
        ensures
            r@ == if self.label_idx == 0 {
                "(none)"@
            } else {
                self.labels@[self.label_idx - 1]@
            },
    {
        match self.chosen_label() {
            Some(s) => s,
            None => "(none)",
        }
    }

    /// Display string for the status field.
    pub fn status_display(&self) -> (r: &str)
        requires
            self.status_idx <= self.statuses@.len(),
        ensures
            r@ == if self.status_idx == 0 {
                "(none)"@
            } else {
                self.statuses@[self.status_idx - 1]@
            },
    {
        match self.chosen_status() {
            Some(s) => s,
            None => "(none)",
        }
    }
}

/// The list shown is a function of the board, the config, the active preset,
/// the (trimmed) live query and the folded groups alone: two states that agree
/// on those show the same cards, nesting, groups and rows. In particular,
/// clearing a live query brings back exactly the view the preset showed.
pub proof fn law_view_determined(a: App, b: App)
    requires
        a.view_ok(),
        b.view_ok(),
        a.items_v() == b.items_v(),
        a.config == b.config,
        a.active_preset == b.active_preset,
        a.query_v() == b.query_v(),
        a.collapsed_v() == b.collapsed_v(),
    ensures
        a.visible@ == b.visible@,
        a.nested@ == b.nested@,
        groups_view(a.groups@) == groups_view(b.groups@),
        a.rows@ == b.rows@,
{
}

/// Cycling the create form's label (or status) choice, which moves the
/// index `idx` to `(idx + delta) % (len + 1)`: the choice always lands on
/// "none" (0) or one of the `len` options, and cycling by `delta` and then by
/// `-delta` brings back the choice it started from.
pub proof fn law_cycle_round_trip(idx: int, delta: int, len: int)
    requires
        0 <= idx <= len,
    ensures
        0 <= (idx + delta) % (len + 1) <= len,
        ((idx + delta) % (len + 1) + (-delta)) % (len + 1) == idx,
{
    let n = len + 1;
    vstd::arithmetic::div_mod::lemma_mod_bound(idx + delta, n);
    vstd::arithmetic::div_mod::lemma_add_mod_noop_right(-delta, idx + delta, n);
    assert(-delta + (idx + delta) == idx);
    vstd::arithmetic::div_mod::lemma_small_mod(idx as nat, n as nat);
    assert((-delta + (idx + delta) % n) == ((idx + delta) % n + (-delta)));
}

} // verus!
