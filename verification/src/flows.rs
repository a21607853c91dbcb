//! The decisions around the board's commands that end in a `gh`, `git` or
//! `tmux` call: what a start-work acts on, the bootstrap and outcome notes it
//! reports, what a create submits, and the in-memory half of committing or
//! deleting a filter and of adopting a polled snapshot.
use vstd::prelude::*;
use crate::app::{App, Modal, selection_after};
use crate::board::{first_where, lemma_first_where_found, lemma_first_where_none};
use crate::config::schema::{Preset, PresetView, presets_view, saved_presets};
use crate::model::{Item, items_view, opt_view, strs_view};
use crate::text::{decimal, push_decimal, to_owned_string, trim, trim_string};

verus! {

/// Why a start-work can't begin.
#[derive(Debug, Clone, Copy, PartialEq, Eq, Structural)]
pub enum StartRefusal {
    /// The cursor is on a header or the view is empty.
    NoSelection,
    /// The selected card is a draft with no issue number.
    Draft,
    /// The project has no start-work skill configured.
    NoSkill,
}

/// `parts` joined with `sep` between consecutive ones.
pub open spec fn join(parts: Seq<Seq<char>>, sep: Seq<char>) -> Seq<char>
    decreases parts.len(),
{
    if parts.len() == 0 {
        Seq::empty()
    } else if parts.len() == 1 {
        parts[0]
    } else {
        join(parts.drop_last(), sep) + sep + parts.last()
    }
}

/// `parts` joined with `sep`.
pub fn join_strings(parts: &Vec<String>, sep: &str) -> (r: String)
    ensures
        r@ == join(strs_view(parts@), sep@),
{
    let ghost pv = strs_view(parts@);
    let mut out = String::new();
    let mut k: usize = 0;
    while k < parts.len()
        invariant
            k <= parts@.len(),
            pv == strs_view(parts@),
            out@ == join(pv.take(k as int), sep@),
        decreases parts.len() - k,
    {
        assert(pv.take(k + 1).drop_last() =~= pv.take(k as int));
        assert(pv[k as int] == parts@[k as int]@);
        if k > 0 {
            out.append(sep);
        } else {
            assert(pv.take(1) =~= seq![pv[0]]);
        }
        out.append(parts[k].as_str());
        k += 1;
    }
    assert(pv.take(pv.len() as int) =~= pv);
    out
}

/// The card, issue number and skill a start-work acts on.
pub open spec fn start_target_spec(app: App) -> Result<(Seq<char>, u64, Seq<char>), StartRefusal> {
    match app.sel_row() {
        Some(crate::app::Row::Item(i)) => match app.items@[i as int].number {
            None => Err(StartRefusal::Draft),
            Some(n) => match app.config.skill.start {
                None => Err(StartRefusal::NoSkill),
                Some(sk) => Ok((app.items@[i as int].id@, n, sk@)),
            },
        },
        _ => Err(StartRefusal::NoSelection),
    }
}

/// Check a start-work's preconditions that the board alone decides: a card is
/// selected, it is a real issue, and the project links a start-work skill.
pub fn start_target(app: &App) -> (r: Result<(String, u64, String), StartRefusal>)
    requires
        app.view_ok(),
    ensures
        match (r, start_target_spec(*app)) {
            (Ok(t), Ok(s)) => t.0@ == s.0 && t.1 == s.1 && t.2@ == s.2,
            (Err(e), Err(f)) => e == f,
            _ => false,
        },
{
    let item = match app.selected() {
        Some(it) => it,
        None => return Err(StartRefusal::NoSelection),
    };
    let issue = match item.number {
        Some(n) => n,
        None => return Err(StartRefusal::Draft),
    };
    let skill = match &app.config.skill.start {
        Some(s) => s.clone(),
        None => return Err(StartRefusal::NoSkill),
    };
    Ok((item.id.clone(), issue, skill))
}

/// The one-line preview of a worktree's bootstrap: how many files get seeded
/// and the setup commands joined by ` && `, the two joined by `  ·  `; `None`
/// when there is neither.
pub open spec fn bootstrap_spec(copy: Seq<Seq<char>>, setup: Seq<Seq<char>>) -> Option<Seq<char>> {
    let a = if copy.len() > 0 {
        seq!["seed "@ + decimal(copy.len()) + " file(s)"@]
    } else {
        Seq::empty()
    };
    let b = if setup.len() > 0 {
        a.push(join(setup, " && "@))
    } else {
        a
    };
    if b.len() == 0 {
        None
    } else {
        Some(join(b, "  ·  "@))
    }
}

/// The bootstrap preview of a worktree start.
pub fn bootstrap_summary(copy: &Vec<String>, setup: &Vec<String>) -> (r: Option<String>)
    requires
        copy@.len() <= u64::MAX,
    ensures
        opt_view(r) == bootstrap_spec(strs_view(copy@), strs_view(setup@)),
{
    let mut boot: Vec<String> = Vec::new();
    if copy.len() > 0 {
        let mut s = to_owned_string("seed ");
        push_decimal(&mut s, copy.len() as u64);
        s.append(" file(s)");
        boot.push(s);
    }
    if setup.len() > 0 {
        boot.push(join_strings(setup, " && "));
    }
    let ghost bv = strs_view(boot@);
    proof {
        let a = if copy@.len() > 0 {
            seq!["seed "@ + decimal(copy@.len()) + " file(s)"@]
        } else {
            Seq::empty()
        };
        let b = if setup@.len() > 0 {
            a.push(join(strs_view(setup@), " && "@))
        } else {
            a
        };
        assert(bv =~= b);
    }
    if boot.len() == 0 {
        None
    } else {
        Some(join_strings(&boot, "  ·  "))
    }
}

/// What a finished worktree start reports after its headline: each thing it
/// did, ` · `-separated, after a leading ` · `; empty when nothing applies.
pub open spec fn start_notes_spec(fetched: bool, seeded: nat, has_setup: bool, flipped: bool) -> Seq<char> {
    let a = if fetched {
        seq!["fetched base"@]
    } else {
        Seq::empty()
    };
    let b = if seeded > 0 {
        a.push("seeded "@ + decimal(seeded) + " file(s)"@)
    } else {
        a
    };
    let c = if has_setup {
        b.push("running setup"@)
    } else {
        b
    };
    let d = if flipped {
        c.push("moved to In progress"@)
    } else {
        c
    };
    if d.len() == 0 {
        Seq::empty()
    } else {
        " · "@ + join(d, " · "@)
    }
}

/// The notes a finished worktree start reports.
pub fn start_notes(fetched: bool, seeded: u64, has_setup: bool, flipped: bool) -> (r: String)
    ensures
        r@ == start_notes_spec(fetched, seeded as nat, has_setup, flipped),
{
    let mut notes: Vec<String> = Vec::new();
    if fetched {
        notes.push(to_owned_string("fetched base"));
    }
    if seeded > 0 {
        let mut s = to_owned_string("seeded ");
        push_decimal(&mut s, seeded);
        s.append(" file(s)");
        notes.push(s);
    }
    if has_setup {
        notes.push(to_owned_string("running setup"));
    }
    if flipped {
        notes.push(to_owned_string("moved to In progress"));
    }
    let ghost nv = strs_view(notes@);
    proof {
        let a = if fetched {
            seq!["fetched base"@]
        } else {
            Seq::empty()
        };
        let b = if seeded > 0 {
            a.push("seeded "@ + decimal(seeded as nat) + " file(s)"@)
        } else {
            a
        };
        let c = if has_setup {
            b.push("running setup"@)
        } else {
            b
        };
        let d = if flipped {
            c.push("moved to In progress"@)
        } else {
            c
        };
        assert(nv =~= d);
    }
    if notes.len() == 0 {
        String::new()
    } else {
        let mut out = to_owned_string(" · ");
        let j = join_strings(&notes, " · ");
        out.append(j.as_str());
        out
    }
}

/// The start-work prompt to send: the trimmed prompt of an open start-work
/// confirm, `None` when it is blank or no confirm is open.
pub fn prompt_to_send(modal: &Modal) -> (r: Option<String>)
    ensures
        match modal.prompt_spec() {
            Some(p) => if trim(p).len() == 0 {
                r is None
            } else {
                opt_view(r) == Some(trim(p))
            },
            None => r is None,
        },
{
    let p = match modal {
        Modal::Confirm { prompt, .. } => prompt,
        Modal::WorktreeConfirm { prompt, .. } => prompt,
        _ => return None,
    };
    let t = trim_string(p.as_str());
    if t.as_str().is_empty() {
        None
    } else {
        Some(t)
    }
}

/// A create-ticket submission: repo, trimmed title, body, labels (the chosen
/// one, if any) and the chosen status.
pub struct Submission {
    pub repo: String,
    pub title: String,
    pub body: String,
    pub labels: Vec<String>,
    pub status: Option<String>,
}

/// What the create form submits, or `None` while the trimmed title is blank
/// (the form stays open).
pub fn create_submission(modal: &Modal) -> (r: Option<Submission>)
    ensures
        match modal {
            Modal::Create(d) => if trim(d.title@).len() == 0 || d.label_idx > d.labels@.len()
                || d.status_idx > d.statuses@.len() {
                r is None
            } else {
                r matches Some(s) && {
                    &&& s.repo@ == d.repo@
                    &&& s.title@ == trim(d.title@)
                    &&& s.body@ == d.body@
                    &&& strs_view(s.labels@) == if d.label_idx == 0 {
                        Seq::empty()
                    } else {
                        seq![d.labels@[d.label_idx - 1]@]
                    }
                    &&& opt_view(s.status) == if d.status_idx == 0 {
                        None
                    } else {
                        Some(d.statuses@[d.status_idx - 1]@)
                    }
                }
            },
            _ => r is None,
        },
{
    let d = match modal {
        Modal::Create(d) => d,
        _ => return None,
    };
    let title = trim_string(d.title.as_str());
    if title.as_str().is_empty() || d.label_idx > d.labels.len() || d.status_idx > d.statuses.len() {
        return None;
    }
    let mut labels: Vec<String> = Vec::new();
    match d.chosen_label() {
        Some(l) => labels.push(to_owned_string(l)),
        None => {},
    }
    assert(strs_view(labels@) =~= if d.label_idx == 0 {
        Seq::empty()
    } else {
        seq![d.labels@[d.label_idx - 1]@]
    });
    let status = match d.chosen_status() {
        Some(s) => Some(to_owned_string(s)),
        None => None,
    };
    Some(Submission { repo: d.repo.clone(), title, body: d.body.clone(), labels, status })
}

impl App {
    /// Commit the open filter builder in memory: a draft with a blank name
    /// changes nothing and returns `None`; otherwise the preset is saved (and
    /// made active), the builder closes, and the preset and its pre-edit name
    /// are returned for persisting.
    pub fn commit_filter(&mut self) -> (r: Option<(Preset, Option<String>)>)
        requires
            old(self).view_ok(),
        ensures
            final(self).view_ok(),
            match old(self).modal {
                Modal::FilterBuild(d) => match d.preset_spec() {
                    None => r is None && *final(self) == *old(self),
                    Some(pv) => r matches Some(out) && out.0@ == pv && opt_view(out.1) == opt_view(
                        d.original,
                    ) && final(self).modal is Closed && presets_view(final(self).config.presets@)
                        == saved_presets(
                        presets_view(old(self).config.presets@),
                        pv,
                        opt_view(d.original),
                    ).0 && final(self).active_preset == saved_presets(
                        presets_view(old(self).config.presets@),
                        pv,
                        opt_view(d.original),
                    ).1,
                },
                _ => r is None && *final(self) == *old(self),
            },
    {
        let (preset, replacing) = match &self.modal {
            Modal::FilterBuild(d) => match d.to_preset() {
                Some(p) => (p, crate::model::clone_opt_string(&d.original)),
                None => return None,
            },
            _ => return None,
        };
        let kept = preset.clone();
        let again = crate::model::clone_opt_string(&replacing);
        self.save_preset(preset, replacing);
        self.modal = Modal::Closed;
        Some((kept, again))
    }

    /// Ask to delete the active preset: refused with a message when it is the
    /// only one, else a confirm naming it opens.
    pub fn begin_delete_preset(&mut self)
        requires
            old(self).view_ok(),
        ensures
            final(self).view_ok(),
            *final(self) == (App { modal: final(self).modal, ..*old(self) }),
            old(self).config.presets@.len() <= 1 ==> final(self).modal is Message,
            old(self).config.presets@.len() > 1 ==> (final(self).modal matches Modal::ConfirmDelete {
                index,
                name,
            } && index == old(self).active_preset && name@ == old(self).preset_v().name),
    {
        if self.preset_count() <= 1 {
            self.modal = Modal::Message(
                to_owned_string("Can't delete the only filter — a board needs at least one."),
            );
            return;
        }
        let index = self.active_preset;
        let name = to_owned_string(self.preset_name(index));
        self.modal = Modal::ConfirmDelete { index, name };
    }

    /// Carry out an open delete confirm in memory: the named preset goes (if
    /// it may), the confirm closes, and the name is returned for persisting
    /// when a preset was removed.
    pub fn commit_delete(&mut self) -> (r: Option<String>)
        requires
            old(self).view_ok(),
        ensures
            final(self).view_ok(),
            match old(self).modal {
                Modal::ConfirmDelete { index, name } => final(self).modal is Closed && if old(
                    self,
                ).config.presets@.len() > 1 && index < old(self).config.presets@.len() {
                    opt_view(r) == Some(name@) && presets_view(final(self).config.presets@)
                        == presets_view(old(self).config.presets@).remove(index as int)
                } else {
                    r is None && final(self).config == old(self).config
                },
                _ => r is None && *final(self) == *old(self),
            },
    {
        let (index, name) = match &self.modal {
            Modal::ConfirmDelete { index, name } => (*index, name.clone()),
            _ => return None,
        };
        let removed = self.delete_preset(index);
        self.modal = Modal::Closed;
        if removed {
            Some(name)
        } else {
            None
        }
    }

    /// Adopt a polled snapshot of board `(owner, number)`: ignored when it is
    /// for another board or shows nothing new; otherwise the board is replaced
    /// and the view rebuilt, keeping the selected card. Returns whether it was
    /// adopted.
    pub fn adopt_snapshot(&mut self, owner: &str, number: u32, items: Vec<Item>) -> (r: bool)
        requires
            old(self).view_ok(),
        ensures
            final(self).view_ok(),
            r == (owner@ == old(self).config.board.owner@ && number == old(self).config.board.number
                && items_view(items@) != old(self).items_v()),
            !r ==> *final(self) == *old(self),
            r ==> final(self).same_state(App { items, ..*old(self) }) && opt_usize_of(
                final(self).selected,
            ) == selection_after(
                final(self).items_v(),
                final(self).visible@,
                final(self).nested@,
                crate::app::groups_view(final(self).groups@),
                final(self).rows@,
                old(self).sel_id(),
            ),
    {
        if !crate::text::str_eq(owner, self.config.board.owner.as_str()) || number
            != self.config.board.number {
            return false;
        }
        if same_items(&items, &self.items) {
            return false;
        }
        let keep = match self.selected() {
            Some(it) => Some(it.id.clone()),
            None => None,
        };
        self.items = items;
        self.recompute(keep);
        true
    }
}

/// `opt_usize`, re-exported for contracts here.
pub open spec fn opt_usize_of(o: Option<usize>) -> Option<int> {
    crate::app::opt_usize(o)
}

/// Whether two boards hold the same cards, field for field.
pub fn same_items(a: &Vec<Item>, b: &Vec<Item>) -> (r: bool)
    ensures
        r == (items_view(a@) == items_view(b@)),
{
    if a.len() != b.len() {
        assert(items_view(a@).len() != items_view(b@).len());
        return false;
    }
    let mut k: usize = 0;
    while k < a.len()
        invariant
            k <= a@.len(),
            a@.len() == b@.len(),
            forall|j: int| 0 <= j < k ==> a@[j]@ == b@[j]@,
        decreases a.len() - k,
    {
        if !same_item(&a[k], &b[k]) {
            assert(items_view(a@)[k as int] != items_view(b@)[k as int]);
            return false;
        }
        k += 1;
    }
    assert(items_view(a@) =~= items_view(b@));
    true
}

/// Whether two optional strings are equal.
fn same_opt(a: &Option<String>, b: &Option<String>) -> (r: bool)
    ensures
        r == (opt_view(*a) == opt_view(*b)),
{
    match (a, b) {
        (Some(x), Some(y)) => crate::text::str_eq(x.as_str(), y.as_str()),
        (None, None) => true,
        _ => false,
    }
}

/// Whether two string lists are equal.
fn same_strings(a: &Vec<String>, b: &Vec<String>) -> (r: bool)
    ensures
        r == (strs_view(a@) == strs_view(b@)),
{
    if a.len() != b.len() {
        assert(strs_view(a@).len() != strs_view(b@).len());
        return false;
    }
    let mut k: usize = 0;
    while k < a.len()
        invariant
            k <= a@.len(),
            a@.len() == b@.len(),
            forall|j: int| 0 <= j < k ==> a@[j]@ == b@[j]@,
        decreases a.len() - k,
    {
        if !crate::text::str_eq(a[k].as_str(), b[k].as_str()) {
            assert(strs_view(a@)[k as int] != strs_view(b@)[k as int]);
            return false;
        }
        k += 1;
    }
    assert(strs_view(a@) =~= strs_view(b@));
    true
}

/// Whether two cards are equal field for field.
fn same_item(a: &Item, b: &Item) -> (r: bool)
    ensures
        r == (a@ == b@),
{
    let parent = match (&a.parent, &b.parent) {
        (Some(x), Some(y)) => x.number == y.number && crate::text::str_eq(
            x.repository.as_str(),
            y.repository.as_str(),
        ),
        (None, None) => true,
        _ => false,
    };
    crate::text::str_eq(a.id.as_str(), b.id.as_str()) && a.number == b.number
        && crate::text::str_eq(a.title.as_str(), b.title.as_str()) && same_opt(
        &a.repository,
        &b.repository,
    ) && same_opt(&a.status, &b.status) && same_strings(&a.labels, &b.labels) && same_strings(
        &a.assignees,
        &b.assignees,
    ) && same_opt(&a.url, &b.url) && parent
}

/// What the detail pane should show for the selection.
#[derive(Debug)]
pub enum DetailTarget {
    /// Nothing is selected.
    Nothing,
    /// A draft card: no issue to fetch.
    Draft,
    /// A real issue: its card id, number and repo.
    Fetch { id: String, number: u64, repo: String },
}

/// The card id, issue number and repo the detail pane fetches for the
/// selected card; a card without a number or repo is a draft.
pub open spec fn detail_target_spec(app: App) -> Option<Option<(Seq<char>, u64, Seq<char>)>> {
    match app.sel_row() {
        Some(crate::app::Row::Item(i)) => {
            let it = app.items@[i as int];
            match (it.number, it.repository) {
                (Some(n), Some(r)) => Some(Some((it.id@, n, r@))),
                _ => Some(None),
            }
        },
        _ => None,
    }
}

/// Entry `j` of the detail cache is for card `id`.
pub open spec fn cached_for(cache: Seq<(String, crate::gh::issue::IssueDetail)>, id: Seq<char>) -> spec_fn(int) -> bool {
    |j: int| cache[j].0@ == id
}

/// Whether string `j` of `names` equals `name` ignoring ASCII case.
pub open spec fn names_ic(names: Seq<Seq<char>>, name: Seq<char>) -> spec_fn(int) -> bool {
    |j: int| crate::text::eq_ic(names[j], name)
}

/// The status mover's starting row: the card's current status among the
/// options (ignoring ASCII case), else the first.
pub fn status_pick_index(options: &Vec<String>, current: &Option<String>) -> (r: usize)
    ensures
        r as int == match opt_view(*current) {
            Some(c) => match first_where(options@.len() as int, names_ic(strs_view(options@), c)) {
                Some(j) => j,
                None => 0,
            },
            None => 0,
        },
{
    let cur = match current {
        Some(c) => c,
        None => return 0,
    };
    let ghost pv = strs_view(options@);
    let ghost pred = names_ic(pv, cur@);
    let mut j: usize = 0;
    while j < options.len()
        invariant
            j <= options@.len(),
            pv == strs_view(options@),
            pred == names_ic(pv, cur@),
            opt_view(*current) == Some(cur@),
            forall|x: int| 0 <= x < j ==> !#[trigger] pred(x),
        decreases options.len() - j,
    {
        assert(pv[j as int] == options@[j as int]@);
        if crate::text::eq_ignore_case(options[j].as_str(), cur.as_str()) {
            proof {
                lemma_first_where_found(options@.len() as int, j as int, pred);
            }
            return j;
        }
        j += 1;
    }
    proof {
        lemma_first_where_none(options@.len() as int, pred);
    }
    0
}

/// Index of the first of `names` exactly equal to `name`, else 0 (the project
/// switcher starts on the current project).
pub fn name_position(names: &Vec<String>, name: &str) -> (r: usize)
    ensures
        r as int == match first_where(names@.len() as int, |j: int| names@[j]@ == name@) {
            Some(j) => j,
            None => 0,
        },
{
    let ghost pred = |j: int| names@[j]@ == name@;
    let mut j: usize = 0;
    while j < names.len()
        invariant
            j <= names@.len(),
            pred == (|j: int| names@[j]@ == name@),
            forall|x: int| 0 <= x < j ==> !#[trigger] pred(x),
        decreases names.len() - j,
    {
        if crate::text::str_eq(names[j].as_str(), name) {
            proof {
                lemma_first_where_found(names@.len() as int, j as int, pred);
            }
            return j;
        }
        j += 1;
    }
    proof {
        lemma_first_where_none(names@.len() as int, pred);
    }
    0
}

/// After a start, a card is flipped to In progress unless it is already
/// there (ignoring ASCII case).
pub fn needs_flip(current: &Option<String>) -> (r: bool)
    ensures
        r == !(opt_view(*current) matches Some(c) && crate::text::eq_ic(c, "In progress"@)),
{
    match current {
        Some(c) => !crate::text::eq_ignore_case(c.as_str(), "In progress"),
        None => true,
    }
}

impl App {
    /// What the detail pane should show for the current selection.
    pub fn detail_target(&self) -> (r: DetailTarget)
        requires
            self.view_ok(),
        ensures
            match (r, detail_target_spec(*self)) {
                (DetailTarget::Nothing, None) => true,
                (DetailTarget::Draft, Some(None)) => true,
                (DetailTarget::Fetch { id, number, repo }, Some(Some(t))) => id@ == t.0 && number
                    == t.1 && repo@ == t.2,
                _ => false,
            },
    {
        let it = match self.selected() {
            Some(it) => it,
            None => return DetailTarget::Nothing,
        };
        match (it.number, &it.repository) {
            (Some(n), Some(r)) => DetailTarget::Fetch { id: it.id.clone(), number: n, repo: r.clone() },
            _ => DetailTarget::Draft,
        }
    }

    /// The cached detail of card `id`, if fetched before.
    pub fn cached_detail(&self, id: &str) -> (r: Option<&crate::gh::issue::IssueDetail>)
        ensures
            match first_where(self.detail_cache@.len() as int, cached_for(self.detail_cache@, id@)) {
                Some(j) => r == Some(&self.detail_cache@[j].1),
                None => r is None,
            },
    {
        let ghost pred = cached_for(self.detail_cache@, id@);
        let mut j: usize = 0;
        while j < self.detail_cache.len()
            invariant
                j <= self.detail_cache@.len(),
                pred == cached_for(self.detail_cache@, id@),
                forall|x: int| 0 <= x < j ==> !#[trigger] pred(x),
            decreases self.detail_cache.len() - j,
        {
            if crate::text::str_eq(self.detail_cache[j].0.as_str(), id) {
                proof {
                    lemma_first_where_found(self.detail_cache@.len() as int, j as int, pred);
                }
                return Some(&self.detail_cache[j].1);
            }
            j += 1;
        }
        proof {
            lemma_first_where_none(self.detail_cache@.len() as int, pred);
        }
        None
    }

    /// Remember a fetched detail for card `id`: it replaces an earlier entry
    /// for that card, else it is added.
    pub fn remember_detail(&mut self, id: String, d: crate::gh::issue::IssueDetail)
        ensures
            *final(self) == (App { detail_cache: final(self).detail_cache, ..*old(self) }),
            match first_where(old(self).detail_cache@.len() as int, cached_for(old(self).detail_cache@, id@)) {
                Some(j) => final(self).detail_cache@ == old(self).detail_cache@.update(j, (old(self).detail_cache@[j].0, d)),
                None => final(self).detail_cache@ == old(self).detail_cache@.push((id, d)),
            },
    {
        let ghost pred = cached_for(self.detail_cache@, id@);
        let mut j: usize = 0;
        while j < self.detail_cache.len()
            invariant
                j <= self.detail_cache@.len(),
                pred == cached_for(self.detail_cache@, id@),
                forall|x: int| 0 <= x < j ==> !#[trigger] pred(x),
            ensures
                j == self.detail_cache@.len() || pred(j as int),
            decreases self.detail_cache.len() - j,
        {
            if crate::text::str_eq(self.detail_cache[j].0.as_str(), id.as_str()) {
                break;
            }
            j += 1;
        }
        if j < self.detail_cache.len() {
            proof {
                lemma_first_where_found(self.detail_cache@.len() as int, j as int, pred);
            }
            self.detail_cache[j].1 = d;
        } else {
            proof {
                lemma_first_where_none(self.detail_cache@.len() as int, pred);
            }
            self.detail_cache.push((id, d));
        }
    }
}

/// `s` escaped for a double-quoted shell string: each `\`, `"` and `$` gets a
/// backslash before it.
pub open spec fn shell_escape(s: Seq<char>) -> Seq<char>
    decreases s.len(),
{
    if s.len() == 0 {
        Seq::empty()
    } else {
        let p = shell_escape(s.drop_last());
        let c = s.last();
        if c == '\\' || c == '"' || c == '$' {
            p + seq!['\\', c]
        } else {
            p.push(c)
        }
    }
}

/// The line typed into a fresh worktree session: the agent program started
/// on `prompt` (double-quoted), preceded by the setup commands (joined by
/// ` && `, escaped, run under `sh -c`) when there are any.
pub open spec fn launch_line_spec(setup: Seq<Seq<char>>, agent: Seq<char>, prompt: Seq<char>) -> Seq<char> {
    let start = agent + " \""@ + prompt + seq!['"'];
    if setup.len() == 0 {
        start
    } else {
        "sh -c \""@ + shell_escape(join(setup, " && "@)) + "\" ; "@ + start
    }
}

/// `s` escaped for a double-quoted shell string.
pub fn shell_escaped(s: &str) -> (r: String)
    ensures
        r@ == shell_escape(s@),
{
    let cs = crate::text::chars_of(s);
    let mut out = String::new();
    let mut i: usize = 0;
    while i < cs.len()
        invariant
            i <= cs@.len(),
            cs@ == s@,
            out@ == shell_escape(cs@.take(i as int)),
        decreases cs.len() - i,
    {
        assert(cs@.take(i + 1).drop_last() =~= cs@.take(i as int));
        let c = cs[i];
        if c == '\\' || c == '"' || c == '$' {
            crate::text::push_char(&mut out, '\\');
            crate::text::push_char(&mut out, c);
            assert(out@ =~= shell_escape(cs@.take(i as int)) + seq!['\\', c]);
        } else {
            crate::text::push_char(&mut out, c);
        }
        i += 1;
    }
    assert(cs@.take(cs@.len() as int) =~= cs@);
    out
}

/// The line typed into a fresh worktree session.
pub fn launch_line(setup: &Vec<String>, agent: &str, prompt: &str) -> (r: String)
    ensures
        r@ == launch_line_spec(strs_view(setup@), agent@, prompt@),
{
    let mut start = to_owned_string(agent);
    start.append(" \"");
    start.append(prompt);
    crate::text::push_char(&mut start, '"');
    if setup.len() == 0 {
        return start;
    }
    let script = join_strings(setup, " && ");
    let mut out = to_owned_string("sh -c \"");
    let esc = shell_escaped(script.as_str());
    out.append(esc.as_str());
    out.append("\" ; ");
    out.append(start.as_str());
    out
}

/// Whether some line of `listing` is exactly `name` (a `tmux list-windows`
/// listing holds one window name per line).
pub fn window_listed(listing: &str, name: &str) -> (r: bool)
    ensures
        r == exists|k: int|
            0 <= k < crate::text::split_char(listing@, '\n').len() && crate::text::line_at(
                crate::text::split_char(listing@, '\n'),
                k,
            ) == name@,
{
    let cs = crate::text::chars_of(listing);
    let pieces = crate::text::split_on(cs.as_slice(), '\n');
    let ghost pv = strs_view(pieces@);
    let mut k: usize = 0;
    while k < pieces.len()
        invariant
            k <= pieces@.len(),
            pv == strs_view(pieces@),
            pv == crate::text::split_char(listing@, '\n'),
            forall|j: int| 0 <= j < k ==> crate::text::line_at(pv, j) != name@,
        decreases pieces.len() - k,
    {
        let pc = crate::text::chars_of(pieces[k].as_str());
        assert(pv[k as int] == pieces@[k as int]@);
        let line: Vec<char> = if k + 1 < pieces.len() && pc.len() > 0 && pc[pc.len() - 1] == '\r' {
            let s = crate::text::string_of_range(pc.as_slice(), 0, pc.len() - 1);
            crate::text::chars_of(s.as_str())
        } else {
            pc
        };
        assert(line@ == crate::text::line_at(pv, k as int));
        let ls = crate::text::string_of(line.as_slice());
        if crate::text::str_eq(ls.as_str(), name) {
            return true;
        }
        k += 1;
    }
    false
}

} // verus!
