//! The board view: which cards a preset shows, in what order, and how
//! sub-issues roll up under their parent card. Every list here is a list of
//! indices into the board's cards.
use vstd::prelude::*;
use crate::config::schema::{PresetView, ProjectConfig, Preset, rank};
use crate::fuzzy::{fuzzy_accepts, fuzzy_match};
use crate::model::{Item, ItemView, KeyView, items_view, opt_view};
use crate::text::{chars_lt, chars_of, lower, seq_lt, str_eq, to_lower, trim};

verus! {

// ---------------------------------------------------------------------------
// Index-list vocabulary
// ---------------------------------------------------------------------------

/// The indices `i < n` satisfying `pred`, ascending.
pub open spec fn indices_where(n: int, pred: spec_fn(int) -> bool) -> Seq<usize>
    decreases n,
{
    if n <= 0 {
        Seq::empty()
    } else if pred(n - 1) {
        indices_where(n - 1, pred).push((n - 1) as usize)
    } else {
        indices_where(n - 1, pred)
    }
}

/// The least index `i < n` satisfying `pred`.
pub open spec fn first_where(n: int, pred: spec_fn(int) -> bool) -> Option<int>
    decreases n,
{
    if n <= 0 {
        None
    } else {
        match first_where(n - 1, pred) {
            Some(j) => Some(j),
            None => if pred(n - 1) {
                Some(n - 1)
            } else {
                None
            },
        }
    }
}

/// The greatest index `i < n` satisfying `pred`.
pub open spec fn last_where(n: int, pred: spec_fn(int) -> bool) -> Option<int>
    decreases n,
{
    if n <= 0 {
        None
    } else if pred(n - 1) {
        Some(n - 1)
    } else {
        last_where(n - 1, pred)
    }
}

pub proof fn lemma_first_where_none(n: int, pred: spec_fn(int) -> bool)
    requires
        forall|j: int| 0 <= j < n ==> !#[trigger] pred(j),
    ensures
        first_where(n, pred) is None,
    decreases n,
{
    if n > 0 {
        lemma_first_where_none(n - 1, pred);
    }
}

pub proof fn lemma_first_where_found(n: int, m: int, pred: spec_fn(int) -> bool)
    requires
        0 <= m < n,
        pred(m),
        forall|j: int| 0 <= j < m ==> !#[trigger] pred(j),
    ensures
        first_where(n, pred) == Some(m),
    decreases n,
{
    if n - 1 == m {
        lemma_first_where_none(m, pred);
    } else {
        lemma_first_where_found(n - 1, m, pred);
    }
}

pub proof fn lemma_first_where_some(n: int, pred: spec_fn(int) -> bool)
    ensures
        match first_where(n, pred) {
            Some(j) => 0 <= j < n && pred(j) && forall|k: int| 0 <= k < j ==> !#[trigger] pred(k),
            None => forall|k: int| 0 <= k < n ==> !#[trigger] pred(k),
        },
    decreases n,
{
    if n > 0 {
        lemma_first_where_some(n - 1, pred);
    }
}

pub proof fn lemma_indices_where_bounds(n: int, pred: spec_fn(int) -> bool)
    requires
        n <= usize::MAX,
    ensures
        indices_where(n, pred).len() <= if n < 0 { 0 } else { n },
        forall|k: int|
            0 <= k < indices_where(n, pred).len() ==> 0 <= #[trigger] indices_where(n, pred)[k]
                < n && pred(indices_where(n, pred)[k] as int),
    decreases n,
{
    if n > 0 {
        lemma_indices_where_bounds(n - 1, pred);
        let prev = indices_where(n - 1, pred);
        reveal_with_fuel(indices_where, 2);
        if pred(n - 1) {
            assert(indices_where(n, pred) == prev.push((n - 1) as usize));
        } else {
            assert(indices_where(n, pred) == prev);
        }
        assert forall|k: int| 0 <= k < indices_where(n, pred).len() implies 0
            <= #[trigger] indices_where(n, pred)[k] < n && pred(
            indices_where(n, pred)[k] as int,
        ) by {
            if k < prev.len() {
                assert(indices_where(n, pred)[k] == prev[k]);
            }
        }
    }
}

/// `indices_where` depends only on the values of its predicate.
pub proof fn lemma_indices_where_ext(n: int, f: spec_fn(int) -> bool, g: spec_fn(int) -> bool)
    requires
        forall|i: int| 0 <= i < n ==> #[trigger] f(i) == g(i),
    ensures
        indices_where(n, f) == indices_where(n, g),
    decreases n,
{
    if n > 0 {
        lemma_indices_where_ext(n - 1, f, g);
    }
}

pub open spec fn opt_int(o: Option<usize>) -> Option<int> {
    match o {
        Some(u) => Some(u as int),
        None => None,
    }
}

// ---------------------------------------------------------------------------
// The sub-issue tree
// ---------------------------------------------------------------------------

/// The card addressed by handle `k`: the last card carrying it (a later
/// duplicate wins, as when collecting into a map).
pub open spec fn key_index(items: Seq<ItemView>, k: KeyView) -> Option<int> {
    last_where(items.len() as int, |j: int| items[j].key() == Some(k))
}

/// The card that card `i` is a sub-issue of, when that card is on the board.
pub open spec fn parent_index(items: Seq<ItemView>, i: int) -> Option<int> {
    match items[i].parent {
        Some(k) => key_index(items, k),
        None => None,
    }
}

/// Card `i` is a sub-issue of card `p`.
pub open spec fn child_pred(items: Seq<ItemView>, p: int) -> spec_fn(int) -> bool {
    |i: int| parent_index(items, i) == Some(p) && p != i
}

/// The sub-issues of card `p` on the whole board, in board order.
pub open spec fn child_list(items: Seq<ItemView>, p: int) -> Seq<usize> {
    indices_where(items.len() as int, child_pred(items, p))
}

/// The index of the card that `k` addresses.
pub fn key_index_exec(items: &Vec<Item>, k: &crate::model::ParentRef) -> (r: Option<usize>)
    ensures
        opt_int(r) == key_index(items_view(items@), k@),
{
    let ghost iv = items_view(items@);
    let mut res: Option<usize> = None;
    let mut j: usize = 0;
    while j < items.len()
        invariant
            j <= items@.len(),
            iv == items_view(items@),
            opt_int(res) == last_where(j as int, |x: int| iv[x].key() == Some(k@)),
        decreases items.len() - j,
    {
        let it = &items[j];
        assert(iv[j as int] == it@);
        let hit = match (&it.repository, it.number) {
            (Some(repo), Some(n)) => n == k.number && str_eq(repo.as_str(), k.repository.as_str()),
            _ => false,
        };
        assert(hit == (iv[j as int].key() == Some(k@)));
        if hit {
            res = Some(j);
        }
        j += 1;
    }
    res
}

/// `parent_index` for every card.
pub fn parent_indices(items: &Vec<Item>) -> (r: Vec<Option<usize>>)
    ensures
        r@.len() == items@.len(),
        forall|i: int|
            0 <= i < items@.len() ==> opt_int(#[trigger] r@[i]) == parent_index(
                items_view(items@),
                i,
            ),
{
    let ghost iv = items_view(items@);
    let mut out: Vec<Option<usize>> = Vec::new();
    let mut i: usize = 0;
    while i < items.len()
        invariant
            i <= items@.len(),
            iv == items_view(items@),
            out@.len() == i,
            forall|x: int| 0 <= x < i ==> opt_int(#[trigger] out@[x]) == parent_index(iv, x),
        decreases items.len() - i,
    {
        assert(iv[i as int] == items@[i as int]@);
        let p = match &items[i].parent {
            Some(k) => key_index_exec(items, k),
            None => None,
        };
        out.push(p);
        i += 1;
    }
    out
}

/// The board-wide sub-issue tree as one child list per card.
pub fn children_of(items: &Vec<Item>) -> (r: Vec<Vec<usize>>)
    ensures
        r@.len() == items@.len(),
        forall|p: int|
            0 <= p < items@.len() ==> (#[trigger] r@[p])@ == child_list(items_view(items@), p),
{
    let ghost iv = items_view(items@);
    let pidx = parent_indices(items);
    let n = items.len();
    let mut out: Vec<Vec<usize>> = Vec::new();
    let mut p: usize = 0;
    while p < n
        invariant
            p <= n,
            n == items@.len(),
            iv == items_view(items@),
            pidx@.len() == n,
            forall|x: int| 0 <= x < n ==> opt_int(#[trigger] pidx@[x]) == parent_index(iv, x),
            out@.len() == p,
            forall|q: int| 0 <= q < p ==> (#[trigger] out@[q])@ == child_list(iv, q),
        decreases n - p,
    {
        let mut ks: Vec<usize> = Vec::new();
        let mut i: usize = 0;
        while i < n
            invariant
                i <= n,
                p < n,
                n == items@.len(),
                pidx@.len() == n,
                forall|x: int| 0 <= x < n ==> opt_int(#[trigger] pidx@[x]) == parent_index(iv, x),
                ks@ == indices_where(i as int, child_pred(iv, p as int)),
            decreases n - i,
        {
            assert(opt_int(pidx@[i as int]) == parent_index(iv, i as int));
            if pidx[i] == Some(p) && p != i {
                ks.push(i);
            }
            i += 1;
        }
        out.push(ks);
        p += 1;
    }
    out
}

// ---------------------------------------------------------------------------
// Matching and ordering
// ---------------------------------------------------------------------------

/// Card `i` passes the preset (include filter + exclusions) and the trimmed
/// fuzzy query `q` (an empty query passes everything).
pub open spec fn passes(
    items: Seq<ItemView>,
    cfg: ProjectConfig,
    preset: PresetView,
    q: Seq<char>,
    i: int,
) -> bool {
    cfg.keeps_spec(preset, items[i]) && (q.len() == 0 || fuzzy_accepts(items[i].title, q))
}

/// The cards the view contains before ordering, in board order.
pub open spec fn matched(
    items: Seq<ItemView>,
    cfg: ProjectConfig,
    preset: PresetView,
    q: Seq<char>,
) -> Seq<usize> {
    indices_where(items.len() as int, pass_pred(items, cfg, preset, q))
}

/// `passes`, as a predicate on card indices.
pub open spec fn pass_pred(
    items: Seq<ItemView>,
    cfg: ProjectConfig,
    preset: PresetView,
    q: Seq<char>,
) -> spec_fn(int) -> bool {
    |i: int| passes(items, cfg, preset, q, i)
}

/// The group key of a status: its ASCII lowercase, or empty for no status.
pub open spec fn group_key(status: Option<Seq<char>>) -> Seq<char> {
    match status {
        Some(s) => lower(s),
        None => Seq::empty(),
    }
}

/// Sort key of a card: status rank, then the status key, so two statuses
/// missing from `status_order` still sort apart.
pub open spec fn sort_key(items: Seq<ItemView>, order: Seq<Seq<char>>, i: int) -> (
    int,
    Seq<char>,
) {
    (rank(order, items[i].status), group_key(items[i].status))
}

/// Strict order on sort keys: by rank, then lexicographically by status key.
pub open spec fn key_lt(a: (int, Seq<char>), b: (int, Seq<char>)) -> bool {
    a.0 < b.0 || (a.0 == b.0 && seq_lt(a.1, b.1))
}

/// Where a stable insertion places `x` in the sorted `s`: before the first
/// element whose key is strictly greater.
pub open spec fn ins_pos(s: Seq<usize>, x: usize, keyf: spec_fn(int) -> (int, Seq<char>)) -> int {
    match first_where(s.len() as int, |j: int| key_lt(keyf(x as int), keyf(s[j] as int))) {
        Some(j) => j,
        None => s.len() as int,
    }
}

/// Stable sort of `s` by `keyf` (as `slice::sort_by_key`): insertion sort.
pub open spec fn sort_by_key(s: Seq<usize>, keyf: spec_fn(int) -> (int, Seq<char>)) -> Seq<usize>
    decreases s.len(),
{
    if s.len() == 0 {
        s
    } else {
        let sorted = sort_by_key(s.drop_last(), keyf);
        sorted.insert(ins_pos(sorted, s.last(), keyf), s.last())
    }
}

/// The sort-key function of a board.
pub open spec fn key_fn(items: Seq<ItemView>, order: Seq<Seq<char>>) -> spec_fn(int) -> (
    int,
    Seq<char>,
) {
    |i: int| sort_key(items, order, i)
}

/// An executable sort key: rank and lowered status characters.
pub struct SortKey {
    pub rank: usize,
    pub key: Vec<char>,
}

impl SortKey {
    pub open spec fn view_key(self) -> (int, Seq<char>) {
        (self.rank as int, self.key@)
    }
}

/// The sort key of every card.
pub fn sort_keys(items: &Vec<Item>, cfg: &ProjectConfig) -> (r: Vec<SortKey>)
    ensures
        r@.len() == items@.len(),
        forall|i: int|
            0 <= i < items@.len() ==> (#[trigger] r@[i]).view_key() == sort_key(
                items_view(items@),
                cfg.order_view(),
                i,
            ),
{
    let ghost iv = items_view(items@);
    let mut out: Vec<SortKey> = Vec::new();
    let mut i: usize = 0;
    while i < items.len()
        invariant
            i <= items@.len(),
            iv == items_view(items@),
            out@.len() == i,
            forall|x: int|
                0 <= x < i ==> (#[trigger] out@[x]).view_key() == sort_key(
                    iv,
                    cfg.order_view(),
                    x,
                ),
        decreases items.len() - i,
    {
        assert(iv[i as int] == items@[i as int]@);
        let k = match &items[i].status {
            Some(s) => {
                let r = cfg.status_rank(Some(s.as_str()));
                let l = to_lower(s.as_str());
                SortKey { rank: r, key: chars_of(l.as_str()) }
            },
            None => SortKey { rank: cfg.status_rank(None), key: Vec::new() },
        };
        proof {
            assert(k.key@ == group_key(iv[i as int].status));
        }
        out.push(k);
        i += 1;
    }
    out
}

fn sort_key_lt(a: &SortKey, b: &SortKey) -> (r: bool)
    ensures
        r == key_lt(a.view_key(), b.view_key()),
{
    a.rank < b.rank || (a.rank == b.rank && chars_lt(a.key.as_slice(), b.key.as_slice()))
}

/// Stable sort of `s` by the precomputed card keys.
pub fn sort_indices(
    s: &Vec<usize>,
    keys: &Vec<SortKey>,
    Ghost(keyf): Ghost<spec_fn(int) -> (int, Seq<char>)>,
) -> (r: Vec<usize>)
    requires
        forall|k: int| 0 <= k < s@.len() ==> (#[trigger] s@[k]) < keys@.len(),
        forall|i: int| 0 <= i < keys@.len() ==> (#[trigger] keys@[i]).view_key() == keyf(i),
    ensures
        r@ == sort_by_key(s@, keyf),
        r@.len() == s@.len(),
        forall|k: int| 0 <= k < r@.len() ==> (#[trigger] r@[k]) < keys@.len(),
{
    let mut out: Vec<usize> = Vec::new();
    let mut k: usize = 0;
    while k < s.len()
        invariant
            k <= s@.len(),
            forall|x: int| 0 <= x < s@.len() ==> (#[trigger] s@[x]) < keys@.len(),
            forall|i: int| 0 <= i < keys@.len() ==> (#[trigger] keys@[i]).view_key() == keyf(i),
            out@ == sort_by_key(s@.take(k as int), keyf),
            out@.len() == k,
            forall|x: int| 0 <= x < out@.len() ==> (#[trigger] out@[x]) < keys@.len(),
        decreases s.len() - k,
    {
        let x = s[k];
        let ghost pred = |j: int| key_lt(keyf(x as int), keyf(out@[j] as int));
        let mut pos: usize = 0;
        while pos < out.len() && !sort_key_lt(&keys[x], &keys[out[pos]])
            invariant
                pos <= out@.len(),
                x < keys@.len(),
                forall|x2: int| 0 <= x2 < out@.len() ==> (#[trigger] out@[x2]) < keys@.len(),
                forall|i: int|
                    0 <= i < keys@.len() ==> (#[trigger] keys@[i]).view_key() == keyf(i),
                pred == (|j: int| key_lt(keyf(x as int), keyf(out@[j] as int))),
                forall|j: int| 0 <= j < pos ==> !#[trigger] pred(j),
            decreases out.len() - pos,
        {
            pos += 1;
        }
        proof {
            assert(keys@[x as int].view_key() == keyf(x as int));
            if pos < out@.len() {
                assert(keys@[out@[pos as int] as int].view_key() == keyf(out@[pos as int] as int));
                assert(pred(pos as int));
                lemma_first_where_found(out@.len() as int, pos as int, pred);
            } else {
                lemma_first_where_none(out@.len() as int, pred);
            }
            assert(s@.take(k + 1).drop_last() =~= s@.take(k as int));
            assert(s@.take(k + 1).last() == x);
        }
        let ghost old_out = out@;
        out.insert(pos, x);
        proof {
            assert forall|y: int| 0 <= y < out@.len() implies (#[trigger] out@[y]) < keys@.len() by {
                if y < pos {
                    assert(out@[y] == old_out[y]);
                } else if y > pos {
                    assert(out@[y] == old_out[y - 1]);
                }
            }
        }
        k += 1;
    }
    assert(s@.take(s@.len() as int) =~= s@);
    out
}

/// Which cards pass the preset and query.
pub fn passes_flags(
    items: &Vec<Item>,
    cfg: &ProjectConfig,
    preset: &Preset,
    q: &str,
) -> (r: Vec<bool>)
    ensures
        r@.len() == items@.len(),
        forall|i: int|
            0 <= i < items@.len() ==> #[trigger] r@[i] == passes(
                items_view(items@),
                *cfg,
                preset@,
                q@,
                i,
            ),
{
    let ghost iv = items_view(items@);
    let empty_q = q.is_empty();
    let mut out: Vec<bool> = Vec::new();
    let mut i: usize = 0;
    while i < items.len()
        invariant
            i <= items@.len(),
            iv == items_view(items@),
            empty_q == (q@.len() == 0),
            out@.len() == i,
            forall|x: int| 0 <= x < i ==> #[trigger] out@[x] == passes(iv, *cfg, preset@, q@, x),
        decreases items.len() - i,
    {
        assert(iv[i as int] == items@[i as int]@);
        let it = &items[i];
        let ok = cfg.keeps(preset, it) && (empty_q || fuzzy_match(it.title.as_str(), q));
        out.push(ok);
        i += 1;
    }
    out
}

/// The indices whose flag is set, ascending.
pub fn flagged(flags: &Vec<bool>, Ghost(pred): Ghost<spec_fn(int) -> bool>) -> (r: Vec<usize>)
    requires
        forall|i: int| 0 <= i < flags@.len() ==> #[trigger] flags@[i] == pred(i),
    ensures
        r@ == indices_where(flags@.len() as int, pred),
{
    let mut out: Vec<usize> = Vec::new();
    let mut i: usize = 0;
    while i < flags.len()
        invariant
            i <= flags@.len(),
            forall|x: int| 0 <= x < flags@.len() ==> #[trigger] flags@[x] == pred(x),
            out@ == indices_where(i as int, pred),
        decreases flags.len() - i,
    {
        if flags[i] {
            out.push(i);
        }
        i += 1;
    }
    out
}

// ---------------------------------------------------------------------------
// Rolling sub-issues up under their parent
// ---------------------------------------------------------------------------

/// The card that matched card `i` nests under: its parent, when that parent is
/// on the board, isn't `i` itself, and isn't hidden by `exclude_statuses`.
pub open spec fn host_of(
    items: Seq<ItemView>,
    cfg: ProjectConfig,
    preset: PresetView,
    i: int,
) -> Option<int> {
    match parent_index(items, i) {
        Some(p) => if p != i && cfg.keeps_parent_spec(preset, items[p]) {
            Some(p)
        } else {
            None
        },
        None => None,
    }
}

/// Card `p` is the host of some card of the view.
pub open spec fn is_host(
    items: Seq<ItemView>,
    cfg: ProjectConfig,
    preset: PresetView,
    q: Seq<char>,
    p: int,
) -> bool {
    exists|i: int|
        0 <= i < items.len() && passes(items, cfg, preset, q, i) && #[trigger] host_of(
            items,
            cfg,
            preset,
            i,
        ) == Some(p)
}

/// Card `i` is listed one level in, under its host: it matched, has a host,
/// and doesn't host a group of its own (nesting stops at one level).
pub open spec fn is_nested(
    items: Seq<ItemView>,
    cfg: ProjectConfig,
    preset: PresetView,
    q: Seq<char>,
    i: int,
) -> bool {
    passes(items, cfg, preset, q, i) && host_of(items, cfg, preset, i) is Some && !is_host(
        items,
        cfg,
        preset,
        q,
        i,
    )
}

/// The cards nested under host `p`, in board order.
pub open spec fn kids_of(
    items: Seq<ItemView>,
    cfg: ProjectConfig,
    preset: PresetView,
    q: Seq<char>,
    p: int,
) -> Seq<usize> {
    indices_where(items.len() as int, kid_pred(items, cfg, preset, q, p))
}

/// Card `i` is nested under host `p`.
pub open spec fn kid_pred(
    items: Seq<ItemView>,
    cfg: ProjectConfig,
    preset: PresetView,
    q: Seq<char>,
    p: int,
) -> spec_fn(int) -> bool {
    |i: int| is_nested(items, cfg, preset, q, i) && host_of(items, cfg, preset, i) == Some(p)
}

/// `is_nested`, as a predicate on card indices.
pub open spec fn nest_pred(
    items: Seq<ItemView>,
    cfg: ProjectConfig,
    preset: PresetView,
    q: Seq<char>,
) -> spec_fn(int) -> bool {
    |i: int| is_nested(items, cfg, preset, q, i)
}

/// A matched card that stays top-level.
pub open spec fn top_pred(
    items: Seq<ItemView>,
    cfg: ProjectConfig,
    preset: PresetView,
    q: Seq<char>,
) -> spec_fn(int) -> bool {
    |i: int| passes(items, cfg, preset, q, i) && !is_nested(items, cfg, preset, q, i)
}

/// A host listed only because a sub-issue of it is nested under it.
pub open spec fn pulled_pred(
    items: Seq<ItemView>,
    cfg: ProjectConfig,
    preset: PresetView,
    q: Seq<char>,
) -> spec_fn(int) -> bool {
    |p: int|
        is_host(items, cfg, preset, q, p) && !passes(items, cfg, preset, q, p) && kids_of(
            items,
            cfg,
            preset,
            q,
            p,
        ).len() > 0
}

/// The top-level cards before ordering: every matched card that isn't nested,
/// then (in board order) every host pulled in only by a nested sub-issue.
pub open spec fn tops(
    items: Seq<ItemView>,
    cfg: ProjectConfig,
    preset: PresetView,
    q: Seq<char>,
) -> Seq<usize> {
    indices_where(items.len() as int, top_pred(items, cfg, preset, q)) + indices_where(
        items.len() as int,
        pulled_pred(items, cfg, preset, q),
    )
}

/// Each top-level card followed by its (ordered) nested cards.
pub open spec fn expand(ts: Seq<usize>, kidsf: spec_fn(int) -> Seq<usize>) -> Seq<usize>
    decreases ts.len(),
{
    if ts.len() == 0 {
        Seq::empty()
    } else {
        expand(ts.drop_last(), kidsf) + seq![ts.last()] + kidsf(ts.last() as int)
    }
}

/// The rolled-up view: ordered top-level cards, each followed by its ordered
/// nested sub-issues.
pub open spec fn rolled_visible(
    items: Seq<ItemView>,
    cfg: ProjectConfig,
    preset: PresetView,
    q: Seq<char>,
) -> Seq<usize> {
    expand(
        sort_by_key(tops(items, cfg, preset, q), key_fn(items, cfg.order_view())),
        kids_sorted(items, cfg, preset, q),
    )
}

/// The ordered nested cards of each host.
pub open spec fn kids_sorted(
    items: Seq<ItemView>,
    cfg: ProjectConfig,
    preset: PresetView,
    q: Seq<char>,
) -> spec_fn(int) -> Seq<usize> {
    |t: int| sort_by_key(kids_of(items, cfg, preset, q, t), key_fn(items, cfg.order_view()))
}

/// The nested cards of the rolled-up view, in board order.
pub open spec fn rolled_nested(
    items: Seq<ItemView>,
    cfg: ProjectConfig,
    preset: PresetView,
    q: Seq<char>,
) -> Seq<usize> {
    indices_where(items.len() as int, nest_pred(items, cfg, preset, q))
}

/// The cards the view contains, in list order.
pub open spec fn view_visible(
    items: Seq<ItemView>,
    cfg: ProjectConfig,
    preset: PresetView,
    q: Seq<char>,
) -> Seq<usize> {
    if preset.include_parents {
        rolled_visible(items, cfg, preset, q)
    } else {
        sort_by_key(matched(items, cfg, preset, q), key_fn(items, cfg.order_view()))
    }
}

/// The cards the view lists one level in.
pub open spec fn view_nested(
    items: Seq<ItemView>,
    cfg: ProjectConfig,
    preset: PresetView,
    q: Seq<char>,
) -> Seq<usize> {
    if preset.include_parents {
        rolled_nested(items, cfg, preset, q)
    } else {
        Seq::empty()
    }
}

/// Compute the view's cards and its nested subset for `preset` and the raw
/// fuzzy `query` (trimmed here).
pub fn compute_view(items: &Vec<Item>, cfg: &ProjectConfig, preset: &Preset, query: &str) -> (r: (
    Vec<usize>,
    Vec<usize>,
))
    ensures
        r.0@ == view_visible(items_view(items@), *cfg, preset@, trim(query@)),
        r.1@ == view_nested(items_view(items@), *cfg, preset@, trim(query@)),
        forall|k: int| 0 <= k < r.0@.len() ==> (#[trigger] r.0@[k]) < items@.len(),
        forall|k: int| 0 <= k < r.1@.len() ==> (#[trigger] r.1@[k]) < items@.len(),
{
    let ghost iv = items_view(items@);
    let q = crate::text::trim_string(query);
    let ghost qv = q@;
    let flags = passes_flags(items, cfg, preset, q.as_str());
    let keys = sort_keys(items, cfg);
    let ghost kf = key_fn(iv, cfg.order_view());
    assert forall|i: int| 0 <= i < keys@.len() implies (#[trigger] keys@[i]).view_key() == kf(
        i,
    ) by {}
    let m = flagged(&flags, Ghost(pass_pred(iv, *cfg, preset@, qv)));
    let n = items.len();
    proof {
        assert(iv.len() == n);
        lemma_indices_where_bounds(iv.len() as int, pass_pred(iv, *cfg, preset@, qv));
    }
    if !preset.include_parents {
        let v = sort_indices(&m, &keys, Ghost(kf));
        return (v, Vec::new());
    }
    group_by_parent(items, cfg, preset, q.as_str(), &flags, &keys)
}

/// The host of every card.
fn host_indices(items: &Vec<Item>, cfg: &ProjectConfig, preset: &Preset) -> (r: Vec<Option<usize>>)
    ensures
        r@.len() == items@.len(),
        forall|i: int|
            0 <= i < items@.len() ==> opt_int(#[trigger] r@[i]) == host_of(
                items_view(items@),
                *cfg,
                preset@,
                i,
            ),
        forall|i: int|
            0 <= i < items@.len() ==> ((#[trigger] r@[i]) matches Some(p) ==> p < items@.len()),
{
    let ghost iv = items_view(items@);
    let pidx = parent_indices(items);
    let mut out: Vec<Option<usize>> = Vec::new();
    let mut i: usize = 0;
    while i < items.len()
        invariant
            i <= items@.len(),
            iv == items_view(items@),
            pidx@.len() == items@.len(),
            forall|x: int|
                0 <= x < items@.len() ==> opt_int(#[trigger] pidx@[x]) == parent_index(iv, x),
            out@.len() == i,
            forall|x: int|
                0 <= x < i ==> opt_int(#[trigger] out@[x]) == host_of(iv, *cfg, preset@, x),
            forall|x: int| 0 <= x < i ==> ((#[trigger] out@[x]) matches Some(p) ==> p < items@.len()),
        decreases items.len() - i,
    {
        assert(opt_int(pidx@[i as int]) == parent_index(iv, i as int));
        let h = match pidx[i] {
            Some(p) => {
                proof {
                    let k = iv[i as int].parent->0;
                    lemma_last_where_bound(iv.len() as int, |j: int| iv[j].key() == Some(k));
                }
                assert(iv[p as int] == items@[p as int]@);
                if p != i && cfg.keeps_parent(preset, &items[p]) {
                    Some(p)
                } else {
                    None
                }
            },
            None => None,
        };
        out.push(h);
        i += 1;
    }
    out
}

pub proof fn lemma_last_where_bound(n: int, pred: spec_fn(int) -> bool)
    ensures
        last_where(n, pred) matches Some(j) ==> 0 <= j < n && pred(j),
    decreases n,
{
    if n > 0 {
        lemma_last_where_bound(n - 1, pred);
    }
}

/// The rolled-up view, from precomputed pass flags and sort keys.
pub fn group_by_parent(
    items: &Vec<Item>,
    cfg: &ProjectConfig,
    preset: &Preset,
    q: &str,
    flags: &Vec<bool>,
    keys: &Vec<SortKey>,
) -> (r: (Vec<usize>, Vec<usize>))
    requires
        preset.include_parents,
        flags@.len() == items@.len(),
        forall|i: int|
            0 <= i < items@.len() ==> #[trigger] flags@[i] == passes(
                items_view(items@),
                *cfg,
                preset@,
                q@,
                i,
            ),
        keys@.len() == items@.len(),
        forall|i: int|
            0 <= i < items@.len() ==> (#[trigger] keys@[i]).view_key() == sort_key(
                items_view(items@),
                cfg.order_view(),
                i,
            ),
    ensures
        r.0@ == view_visible(items_view(items@), *cfg, preset@, q@),
        r.1@ == view_nested(items_view(items@), *cfg, preset@, q@),
        forall|k: int| 0 <= k < r.0@.len() ==> (#[trigger] r.0@[k]) < items@.len(),
        forall|k: int| 0 <= k < r.1@.len() ==> (#[trigger] r.1@[k]) < items@.len(),
{
    let ghost iv = items_view(items@);
    let ghost pv = preset@;
    let ghost qv = q@;
    let ghost kf = key_fn(iv, cfg.order_view());
    let n = items.len();
    let hosts = host_indices(items, cfg, preset);

    // is_host for every card.
    let mut hflag: Vec<bool> = Vec::new();
    let mut p: usize = 0;
    while p < n
        invariant
            p <= n,
            n == items@.len(),
            hflag@.len() == p,
            forall|x: int| 0 <= x < p ==> !(#[trigger] hflag@[x]),
        decreases n - p,
    {
        hflag.push(false);
        p += 1;
    }
    let mut i: usize = 0;
    while i < n
        invariant
            i <= n,
            n == items@.len(),
            iv == items_view(items@),
            hflag@.len() == n,
            flags@.len() == n,
            hosts@.len() == n,
            forall|x: int| 0 <= x < n ==> #[trigger] flags@[x] == passes(iv, *cfg, pv, qv, x),
            forall|x: int| 0 <= x < n ==> opt_int(#[trigger] hosts@[x]) == host_of(iv, *cfg, pv, x),
            forall|x: int| 0 <= x < n ==> ((#[trigger] hosts@[x]) matches Some(h) ==> h < n),
            forall|y: int|
                0 <= y < n ==> #[trigger] hflag@[y] == exists|x: int|
                    0 <= x < i && passes(iv, *cfg, pv, qv, x) && #[trigger] host_of(
                        iv,
                        *cfg,
                        pv,
                        x,
                    ) == Some(y),
        decreases n - i,
    {
        let ghost old_h = hflag@;
        assert(opt_int(hosts@[i as int]) == host_of(iv, *cfg, pv, i as int));
        if flags[i] {
            if let Some(h) = hosts[i] {
                hflag.set(h, true);
            }
        }
        assert forall|y: int| 0 <= y < n implies #[trigger] hflag@[y] == exists|x: int|
            0 <= x < i + 1 && passes(iv, *cfg, pv, qv, x) && #[trigger] host_of(iv, *cfg, pv, x)
                == Some(y) by {
            if hflag@[y] && !old_h[y] {
                assert(passes(iv, *cfg, pv, qv, i as int) && host_of(iv, *cfg, pv, i as int) == Some(
                    y,
                ));
            }
            if (exists|x: int|
                0 <= x < i + 1 && passes(iv, *cfg, pv, qv, x) && #[trigger] host_of(iv, *cfg, pv, x)
                    == Some(y)) {
                let x = choose|x: int|
                    0 <= x < i + 1 && passes(iv, *cfg, pv, qv, x) && #[trigger] host_of(
                        iv,
                        *cfg,
                        pv,
                        x,
                    ) == Some(y);
                if x == i {
                    assert(hflag@[y]);
                }
            }
        }
        i += 1;
    }
    assert forall|y: int| 0 <= y < n implies #[trigger] hflag@[y] == is_host(
        iv,
        *cfg,
        pv,
        qv,
        y,
    ) by {}

    // is_nested for every card.
    let mut nflag: Vec<bool> = Vec::new();
    let mut i: usize = 0;
    while i < n
        invariant
            i <= n,
            n == items@.len(),
            iv == items_view(items@),
            hflag@.len() == n,
            flags@.len() == n,
            hosts@.len() == n,
            forall|x: int| 0 <= x < n ==> #[trigger] flags@[x] == passes(iv, *cfg, pv, qv, x),
            forall|x: int| 0 <= x < n ==> opt_int(#[trigger] hosts@[x]) == host_of(iv, *cfg, pv, x),
            forall|y: int| 0 <= y < n ==> #[trigger] hflag@[y] == is_host(iv, *cfg, pv, qv, y),
            nflag@.len() == i,
            forall|x: int| 0 <= x < i ==> #[trigger] nflag@[x] == is_nested(iv, *cfg, pv, qv, x),
        decreases n - i,
    {
        assert(opt_int(hosts@[i as int]) == host_of(iv, *cfg, pv, i as int));
        nflag.push(flags[i] && hosts[i].is_some() && !hflag[i]);
        i += 1;
    }
    let nested = flagged(&nflag, Ghost(nest_pred(iv, *cfg, pv, qv)));

    // Top-level cards: matched and not nested, then pulled-in hosts.
    let mut tflag: Vec<bool> = Vec::new();
    let mut i: usize = 0;
    while i < n
        invariant
            i <= n,
            n == items@.len(),
            iv == items_view(items@),
            flags@.len() == n,
            nflag@.len() == n,
            forall|x: int| 0 <= x < n ==> #[trigger] flags@[x] == passes(iv, *cfg, pv, qv, x),
            forall|x: int| 0 <= x < n ==> #[trigger] nflag@[x] == is_nested(iv, *cfg, pv, qv, x),
            tflag@.len() == i,
            forall|x: int|
                0 <= x < i ==> #[trigger] tflag@[x] == (passes(iv, *cfg, pv, qv, x) && !is_nested(
                    iv,
                    *cfg,
                    pv,
                    qv,
                    x,
                )),
        decreases n - i,
    {
        tflag.push(flags[i] && !nflag[i]);
        i += 1;
    }
    let mut tops_v = flagged(&tflag, Ghost(top_pred(iv, *cfg, pv, qv)));

    let mut extra: Vec<bool> = Vec::new();
    let mut p: usize = 0;
    while p < n
        invariant
            p <= n,
            n == items@.len(),
            iv == items_view(items@),
            flags@.len() == n,
            nflag@.len() == n,
            hflag@.len() == n,
            hosts@.len() == n,
            forall|x: int| 0 <= x < n ==> #[trigger] flags@[x] == passes(iv, *cfg, pv, qv, x),
            forall|x: int| 0 <= x < n ==> #[trigger] nflag@[x] == is_nested(iv, *cfg, pv, qv, x),
            forall|y: int| 0 <= y < n ==> #[trigger] hflag@[y] == is_host(iv, *cfg, pv, qv, y),
            forall|x: int| 0 <= x < n ==> opt_int(#[trigger] hosts@[x]) == host_of(iv, *cfg, pv, x),
            extra@.len() == p,
            forall|y: int|
                0 <= y < p ==> #[trigger] extra@[y] == (is_host(iv, *cfg, pv, qv, y) && !passes(
                    iv,
                    *cfg,
                    pv,
                    qv,
                    y,
                ) && kids_of(iv, *cfg, pv, qv, y).len() > 0),
        decreases n - p,
    {
        let e = if hflag[p] && !flags[p] {
            let ks = kid_list(&nflag, &hosts, p, Ghost(iv), Ghost(*cfg), Ghost(pv), Ghost(qv));
            ks.len() > 0
        } else {
            false
        };
        extra.push(e);
        p += 1;
    }
    let mut pulled = flagged(&extra, Ghost(pulled_pred(iv, *cfg, pv, qv)));
    proof {
        lemma_indices_where_bounds(n as int, top_pred(iv, *cfg, pv, qv));
        lemma_indices_where_bounds(n as int, pulled_pred(iv, *cfg, pv, qv));
    }
    let ghost t1 = tops_v@;
    tops_v.append(&mut pulled);
    assert(tops_v@ == tops(iv, *cfg, pv, qv));
    assert forall|k: int| 0 <= k < tops_v@.len() implies (#[trigger] tops_v@[k]) < keys@.len() by {
        if k < t1.len() {
            assert(tops_v@[k] == t1[k]);
        }
    }
    let sorted_tops = sort_indices(&tops_v, keys, Ghost(kf));

    // Each top-level card, then its ordered nested sub-issues.
    let ghost kidsf = kids_sorted(iv, *cfg, pv, qv);
    let mut out: Vec<usize> = Vec::new();
    let mut k: usize = 0;
    while k < sorted_tops.len()
        invariant
            k <= sorted_tops@.len(),
            n == items@.len(),
            iv == items_view(items@),
            kidsf == kids_sorted(iv, *cfg, pv, qv),
            kf == key_fn(iv, cfg.order_view()),
            nflag@.len() == n,
            hosts@.len() == n,
            keys@.len() == n,
            forall|x: int| 0 <= x < n ==> #[trigger] nflag@[x] == is_nested(iv, *cfg, pv, qv, x),
            forall|x: int| 0 <= x < n ==> opt_int(#[trigger] hosts@[x]) == host_of(iv, *cfg, pv, x),
            forall|i: int| 0 <= i < keys@.len() ==> (#[trigger] keys@[i]).view_key() == kf(i),
            forall|x: int| 0 <= x < sorted_tops@.len() ==> (#[trigger] sorted_tops@[x]) < n,
            out@ == expand(sorted_tops@.take(k as int), kidsf),
            forall|x: int| 0 <= x < out@.len() ==> (#[trigger] out@[x]) < n,
        decreases sorted_tops.len() - k,
    {
        let t = sorted_tops[k];
        let ks = kid_list(&nflag, &hosts, t, Ghost(iv), Ghost(*cfg), Ghost(pv), Ghost(qv));
        proof {
            lemma_indices_where_bounds(n as int, kid_pred(iv, *cfg, pv, qv, t as int));
        }
        let sk = sort_indices(&ks, keys, Ghost(kf));
        let ghost before = out@;
        out.push(t);
        let mut j: usize = 0;
        while j < sk.len()
            invariant
                j <= sk@.len(),
                out@ == before.push(t) + sk@.take(j as int),
                forall|x: int| 0 <= x < before.len() ==> (#[trigger] before[x]) < n,
                t < n,
                n == keys@.len(),
                forall|x: int| 0 <= x < sk@.len() ==> (#[trigger] sk@[x]) < n,
            decreases sk.len() - j,
        {
            out.push(sk[j]);
            assert(sk@.take(j + 1) =~= sk@.take(j as int).push(sk@[j as int]));
            j += 1;
        }
        proof {
            assert(sk@.take(sk@.len() as int) =~= sk@);
            assert(out@ == before.push(t) + sk@);
            assert(kidsf(t as int) == sort_by_key(ks@, kf));
            assert(sorted_tops@.take(k + 1).drop_last() =~= sorted_tops@.take(k as int));
            assert(sorted_tops@.take(k + 1).last() == t);
            assert(out@ =~= expand(sorted_tops@.take(k as int), kidsf) + seq![t] + kidsf(t as int));
            assert forall|x: int| 0 <= x < out@.len() implies (#[trigger] out@[x]) < n by {
                if x < before.len() {
                    assert(out@[x] == before[x]);
                } else if x > before.len() {
                    let y = x - before.len() - 1;
                    assert(out@[x] == sk@[y]);
                }
            }
        }
        k += 1;
    }
    assert(sorted_tops@.take(sorted_tops@.len() as int) =~= sorted_tops@);
    proof {
        lemma_indices_where_bounds(n as int, nest_pred(iv, *cfg, pv, qv));
    }
    (out, nested)
}

/// The cards nested under host `p`, in board order.
fn kid_list(
    nflag: &Vec<bool>,
    hosts: &Vec<Option<usize>>,
    p: usize,
    Ghost(iv): Ghost<Seq<ItemView>>,
    Ghost(cfg): Ghost<ProjectConfig>,
    Ghost(pv): Ghost<PresetView>,
    Ghost(qv): Ghost<Seq<char>>,
) -> (r: Vec<usize>)
    requires
        nflag@.len() == iv.len(),
        hosts@.len() == iv.len(),
        forall|x: int| 0 <= x < iv.len() ==> #[trigger] nflag@[x] == is_nested(iv, cfg, pv, qv, x),
        forall|x: int| 0 <= x < iv.len() ==> opt_int(#[trigger] hosts@[x]) == host_of(iv, cfg, pv, x),
    ensures
        r@ == kids_of(iv, cfg, pv, qv, p as int),
{
    let mut out: Vec<usize> = Vec::new();
    let mut i: usize = 0;
    while i < nflag.len()
        invariant
            i <= nflag@.len(),
            nflag@.len() == iv.len(),
            hosts@.len() == iv.len(),
            forall|x: int| 0 <= x < iv.len() ==> #[trigger] nflag@[x] == is_nested(iv, cfg, pv, qv, x),
            forall|x: int|
                0 <= x < iv.len() ==> opt_int(#[trigger] hosts@[x]) == host_of(iv, cfg, pv, x),
            out@ == indices_where(i as int, kid_pred(iv, cfg, pv, qv, p as int)),
        decreases nflag.len() - i,
    {
        assert(opt_int(hosts@[i as int]) == host_of(iv, cfg, pv, i as int));
        if nflag[i] && hosts[i] == Some(p) {
            out.push(i);
        }
        i += 1;
    }
    out
}

/// The roll-up nests exactly one level: a card listed under a parent never
/// has cards listed under it.
pub proof fn law_nesting_one_level(
    items: Seq<ItemView>,
    cfg: ProjectConfig,
    preset: PresetView,
    q: Seq<char>,
    i: int,
    j: int,
)
    requires
        0 <= j < items.len(),
        is_nested(items, cfg, preset, q, j),
        host_of(items, cfg, preset, j) == Some(i),
    ensures
        !is_nested(items, cfg, preset, q, i),
{
    assert(is_host(items, cfg, preset, q, i));
}

/// Strict lexicographic order on strings is irreflexive.
pub proof fn lemma_seq_lt_irrefl(a: Seq<char>)
    ensures
        !seq_lt(a, a),
    decreases a.len(),
{
    if a.len() > 0 {
        lemma_seq_lt_irrefl(a.drop_first());
    }
}

/// Strict lexicographic order on strings is transitive.
pub proof fn lemma_seq_lt_trans(a: Seq<char>, b: Seq<char>, c: Seq<char>)
    requires
        seq_lt(a, b),
        seq_lt(b, c),
    ensures
        seq_lt(a, c),
    decreases a.len(),
{
    if a.len() > 0 && b.len() > 0 && c.len() > 0 && a[0] == b[0] && b[0] == c[0] {
        lemma_seq_lt_trans(a.drop_first(), b.drop_first(), c.drop_first());
    }
}

/// The sort order on keys is irreflexive and transitive.
pub proof fn lemma_key_lt_order(a: (int, Seq<char>), b: (int, Seq<char>), c: (int, Seq<char>))
    ensures
        !key_lt(a, a),
        key_lt(a, b) && key_lt(b, c) ==> key_lt(a, c),
{
    lemma_seq_lt_irrefl(a.1);
    if key_lt(a, b) && key_lt(b, c) && a.0 == b.0 && b.0 == c.0 {
        lemma_seq_lt_trans(a.1, b.1, c.1);
    }
}

/// `s` lists its cards in key order: no card sorts strictly before one that
/// precedes it.
pub open spec fn sorted_by(s: Seq<usize>, keyf: spec_fn(int) -> (int, Seq<char>)) -> bool {
    forall|i: int, j: int|
        0 <= i < j < s.len() ==> !key_lt(#[trigger] keyf(s[j] as int), #[trigger] keyf(s[i] as int))
}

/// The stable sort orders its cards by key and keeps exactly the cards it was
/// given.
pub proof fn law_sort_by_key(s: Seq<usize>, keyf: spec_fn(int) -> (int, Seq<char>))
    ensures
        sorted_by(sort_by_key(s, keyf), keyf),
        sort_by_key(s, keyf).to_multiset() == s.to_multiset(),
    decreases s.len(),
{
    if s.len() > 0 {
        let rest = s.drop_last();
        law_sort_by_key(rest, keyf);
        let sorted = sort_by_key(rest, keyf);
        let x = s.last();
        let pred = |j: int| key_lt(keyf(x as int), keyf(sorted[j] as int));
        lemma_first_where_some(sorted.len() as int, pred);
        let p = ins_pos(sorted, x, keyf);
        assert(0 <= p <= sorted.len());
        let r = sorted.insert(p, x);
        assert(sort_by_key(s, keyf) == r);
        vstd::seq_lib::to_multiset_insert(sorted, p, x);
        assert(s == rest.push(x));
        vstd::seq_lib::to_multiset_build(rest, x);
        assert forall|i: int, j: int| 0 <= i < j < r.len() implies !key_lt(
            #[trigger] keyf(r[j] as int),
            #[trigger] keyf(r[i] as int),
        ) by {
            let kx = keyf(x as int);
            if i < p && j < p {
                assert(r[i] == sorted[i] && r[j] == sorted[j]);
            } else if i > p && j > p {
                assert(r[i] == sorted[i - 1] && r[j] == sorted[j - 1]);
            } else if i < p && j == p {
                assert(r[i] == sorted[i] && r[j] == x);
                assert(!pred(i));
            } else if i < p && j > p {
                assert(r[i] == sorted[i] && r[j] == sorted[j - 1]);
            } else {
                assert(i == p && j > p);
                assert(r[i] == x && r[j] == sorted[j - 1]);
                assert(pred(p));
                let kp = keyf(sorted[p] as int);
                let kj = keyf(sorted[j - 1] as int);
                lemma_key_lt_order(kj, kx, kp);
                lemma_key_lt_order(kp, kp, kp);
                if j - 1 > p {
                    assert(!key_lt(keyf(sorted[j - 1] as int), keyf(sorted[p] as int)));
                }
            }
        }
    }
}

/// Without the roll-up, the view lists exactly the cards that pass the preset
/// and query, in status order (stably, so cards sharing a status keep board
/// order).
pub proof fn law_flat_view_sorted(
    items: Seq<ItemView>,
    cfg: ProjectConfig,
    preset: PresetView,
    q: Seq<char>,
)
    requires
        !preset.include_parents,
    ensures
        sorted_by(view_visible(items, cfg, preset, q), key_fn(items, cfg.order_view())),
        view_visible(items, cfg, preset, q).to_multiset() == matched(items, cfg, preset, q).to_multiset(),
{
    law_sort_by_key(matched(items, cfg, preset, q), key_fn(items, cfg.order_view()));
}

} // verus!
