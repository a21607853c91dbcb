//! Config types and the filtering/ordering logic they drive: which cards a
//! preset keeps, and where each status column sorts.
use vstd::prelude::*;
use crate::board::{first_where, lemma_first_where_none, lemma_first_where_some};
use crate::model::{Item, ItemView, clone_strings, strs_view, opt_view};
use crate::text::{chars_eq_ic, chars_of, eq_ic, eq_ignore_case};

verus! {

/// A single project entry in the global config.
#[derive(Debug)]
pub struct ProjectConfig {
    pub name: String,
    /// `owner/name` repos that resolve to this project (git-remote match).
    pub repos: Vec<String>,
    /// The GitHub Projects v2 board this project reads.
    pub board: Board,
    /// tmux session for start-work.
    pub target_session: Option<String>,
    /// Subdir the agent boots inside for worktree-start.
    pub claude_subdir: Option<String>,
    /// Skill names invoked by start-work / create.
    pub skill: Skill,
    /// Files + setup commands that make a fresh worktree runnable.
    pub worktree: Worktree,
    /// Canonical column order, used to sort the list.
    pub status_order: Vec<String>,
    /// Statuses hidden by default (unless a preset explicitly includes one).
    pub exclude_statuses: Vec<String>,
    /// Saved views. The first entry is the default on launch.
    pub presets: Vec<Preset>,
}

/// A GitHub Projects v2 board coordinate.
#[derive(Debug)]
pub struct Board {
    pub owner: String,
    pub number: u32,
}

/// Skill names linked to a project.
#[derive(Debug)]
pub struct Skill {
    pub start: Option<String>,
    pub create: Option<String>,
}

/// Post-create bootstrap for worktree-start.
#[derive(Debug)]
pub struct Worktree {
    /// Paths (relative to the repo root) copied into a fresh worktree.
    pub copy: Vec<String>,
    /// Shell commands run in the new session before the agent starts.
    pub setup: Vec<String>,
}

/// A named, saved view.
#[derive(Debug)]
pub struct Preset {
    pub name: String,
    pub includes: Filter,
    /// Roll matching sub-issues up under their parent card.
    pub include_parents: bool,
}

/// An includes filter. Empty fields don't constrain; within a field the match is
/// OR, across fields it's AND.
#[derive(Debug)]
pub struct Filter {
    pub labels: Vec<String>,
    pub statuses: Vec<String>,
    pub assignees: Vec<String>,
}

/// `xs` holds a string equal to `s` ignoring ASCII case.
pub open spec fn any_ic(xs: Seq<Seq<char>>, s: Seq<char>) -> bool {
    exists|k: int| 0 <= k < xs.len() && eq_ic(#[trigger] xs[k], s)
}

/// Some string of `want` equals some string of `have`, ignoring ASCII case.
pub open spec fn overlap_ic(want: Seq<Seq<char>>, have: Seq<Seq<char>>) -> bool {
    exists|k: int| 0 <= k < want.len() && any_ic(have, #[trigger] want[k])
}

/// The mathematical content of a filter.
#[verifier::ext_equal]
pub struct FilterView {
    pub labels: Seq<Seq<char>>,
    pub statuses: Seq<Seq<char>>,
    pub assignees: Seq<Seq<char>>,
}

impl View for Filter {
    type V = FilterView;

    open spec fn view(&self) -> FilterView {
        FilterView {
            labels: strs_view(self.labels@),
            statuses: strs_view(self.statuses@),
            assignees: strs_view(self.assignees@),
        }
    }
}

impl FilterView {
    /// Whether the filter keeps a card: each non-empty field needs one
    /// case-insensitive hit.
    pub open spec fn matches(self, it: ItemView) -> bool {
        &&& (self.labels.len() == 0 || overlap_ic(self.labels, it.labels))
        &&& (self.statuses.len() == 0 || (it.status is Some && any_ic(
            self.statuses,
            it.status->0,
        )))
        &&& (self.assignees.len() == 0 || overlap_ic(self.assignees, it.assignees))
    }

    pub open spec fn is_empty(self) -> bool {
        self.labels.len() == 0 && self.statuses.len() == 0 && self.assignees.len() == 0
    }
}

/// The mathematical content of a preset.
#[verifier::ext_equal]
pub struct PresetView {
    pub name: Seq<char>,
    pub includes: FilterView,
    pub include_parents: bool,
}

impl View for Preset {
    type V = PresetView;

    open spec fn view(&self) -> PresetView {
        PresetView {
            name: self.name@,
            includes: self.includes@,
            include_parents: self.include_parents,
        }
    }
}

/// The views of a list of presets.
pub open spec fn presets_view(v: Seq<Preset>) -> Seq<PresetView> {
    v.map_values(|p: Preset| p@)
}

/// Whether `xs` holds a string equal to `s` ignoring ASCII case.
pub fn any_eq_ic(xs: &Vec<String>, s: &str) -> (r: bool)
    ensures
        r == any_ic(strs_view(xs@), s@),
{
    let cs = chars_of(s);
    let mut k: usize = 0;
    while k < xs.len()
        invariant
            k <= xs@.len(),
            cs@ == s@,
            forall|j: int| 0 <= j < k ==> !eq_ic(#[trigger] strs_view(xs@)[j], s@),
        decreases xs.len() - k,
    {
        let other = chars_of(xs[k].as_str());
        if chars_eq_ic(other.as_slice(), cs.as_slice()) {
            assert(strs_view(xs@)[k as int] == xs@[k as int]@);
            return true;
        }
        assert(strs_view(xs@)[k as int] == xs@[k as int]@);
        k += 1;
    }
    false
}

/// Whether some string of `want` matches some string of `have`, ignoring ASCII case.
pub fn overlap_eq_ic(want: &Vec<String>, have: &Vec<String>) -> (r: bool)
    ensures
        r == overlap_ic(strs_view(want@), strs_view(have@)),
{
    let mut k: usize = 0;
    while k < want.len()
        invariant
            k <= want@.len(),
            forall|j: int|
                0 <= j < k ==> !any_ic(strs_view(have@), #[trigger] strs_view(want@)[j]),
        decreases want.len() - k,
    {
        assert(strs_view(want@)[k as int] == want@[k as int]@);
        if any_eq_ic(have, want[k].as_str()) {
            return true;
        }
        k += 1;
    }
    false
}

impl Filter {
    pub fn is_empty(&self) -> (r: bool)
        ensures
            r == self@.is_empty(),
    {
        self.labels.len() == 0 && self.statuses.len() == 0 && self.assignees.len() == 0
    }

    /// Whether this filter keeps `item`.
    pub fn matches(&self, item: &Item) -> (r: bool)
        ensures
            r == self@.matches(item@),
    {
        let labels_ok = self.labels.len() == 0 || overlap_eq_ic(&self.labels, &item.labels);
        let status_ok = self.statuses.len() == 0 || match &item.status {
            Some(s) => any_eq_ic(&self.statuses, s.as_str()),
            None => false,
        };
        let assignees_ok = self.assignees.len() == 0 || overlap_eq_ic(
            &self.assignees,
            &item.assignees,
        );
        labels_ok && status_ok && assignees_ok
    }
}

impl Skill {
    pub fn is_empty(&self) -> (r: bool)
        ensures
            r == (self.start is None && self.create is None),
    {
        self.start.is_none() && self.create.is_none()
    }
}

impl Worktree {
    pub fn is_empty(&self) -> (r: bool)
        ensures
            r == (self.copy@.len() == 0 && self.setup@.len() == 0),
    {
        self.copy.len() == 0 && self.setup.len() == 0
    }
}

/// The first index of `xs` holding a string equal to `s` ignoring ASCII case.
pub open spec fn first_ic(xs: Seq<Seq<char>>, s: Seq<char>) -> int {
    choose|k: int| is_first_ic(xs, s, k)
}

/// `k` is the first index of `xs` holding `s`, ignoring ASCII case.
pub open spec fn is_first_ic(xs: Seq<Seq<char>>, s: Seq<char>, k: int) -> bool {
    0 <= k < xs.len() && eq_ic(xs[k], s) && forall|j: int|
        0 <= j < k ==> !eq_ic(#[trigger] xs[j], s)
}

/// Sort rank of a status: its position in `order`, `usize::MAX - 1` for a
/// status missing from `order`, `usize::MAX` for no status.
pub open spec fn rank(order: Seq<Seq<char>>, status: Option<Seq<char>>) -> int {
    match status {
        None => usize::MAX as int,
        Some(s) => if any_ic(order, s) {
            first_ic(order, s)
        } else {
            usize::MAX - 1
        },
    }
}

/// `status` is excluded by `exclude` and not named by the preset.
pub open spec fn hidden_status(
    exclude: Seq<Seq<char>>,
    preset: PresetView,
    status: Option<Seq<char>>,
) -> bool {
    status is Some && any_ic(exclude, status->0) && !any_ic(preset.includes.statuses, status->0)
}

impl ProjectConfig {
    pub open spec fn order_view(self) -> Seq<Seq<char>> {
        strs_view(self.status_order@)
    }

    pub open spec fn exclude_view(self) -> Seq<Seq<char>> {
        strs_view(self.exclude_statuses@)
    }

    /// The presets, as views.
    pub open spec fn presets_view(self) -> Seq<PresetView> {
        presets_view(self.presets@)
    }

    /// Whether a preset keeps `it`: its includes filter matches and the status
    /// isn't excluded (unless the preset names it).
    pub open spec fn keeps_spec(self, preset: PresetView, it: ItemView) -> bool {
        preset.includes.matches(it) && !hidden_status(self.exclude_view(), preset, it.status)
    }

    /// Whether a card may host rolled-up sub-issues under `preset`: it isn't
    /// hidden by `exclude_statuses` (unless the preset names its status).
    pub open spec fn keeps_parent_spec(self, preset: PresetView, it: ItemView) -> bool {
        !hidden_status(self.exclude_view(), preset, it.status)
    }

    /// Sort key for a status: its index in `status_order`, or a large value for
    /// unknown statuses (which sink to the bottom).
    pub fn status_rank(&self, status: Option<&str>) -> (r: usize)
        ensures
            r == rank(
                self.order_view(),
                match status {
                    Some(s) => Some(s@),
                    None => None,
                },
            ),
    {
        match status {
            None => usize::MAX,
            Some(s) => {
                let cs = chars_of(s);
                let ghost xs = self.order_view();
                let mut k: usize = 0;
                while k < self.status_order.len()
                    invariant
                        k <= xs.len(),
                        xs == self.order_view(),
                        status == Some(s),
                        xs.len() == self.status_order@.len(),
                        cs@ == s@,
                        forall|j: int| 0 <= j < k ==> !eq_ic(#[trigger] xs[j], s@),
                    decreases self.status_order.len() - k,
                {
                    let other = chars_of(self.status_order[k].as_str());
                    assert(xs[k as int] == self.status_order@[k as int]@);
                    if chars_eq_ic(other.as_slice(), cs.as_slice()) {
                        proof {
                            assert(any_ic(xs, s@));
                            assert(is_first_ic(xs, s@, k as int));
                            let c = first_ic(xs, s@);
                            assert(is_first_ic(xs, s@, c));
                            if c < k {
                                assert(eq_ic(xs[c], s@));
                            } else if c > k {
                                assert(!eq_ic(xs[k as int], s@));
                            }
                        }
                        return k;
                    }
                    k += 1;
                }
                usize::MAX - 1
            },
        }
    }

    /// Whether `status` is hidden for `preset`.
    fn status_hidden(&self, preset: &Preset, status: &Option<String>) -> (r: bool)
        ensures
            r == hidden_status(self.exclude_view(), preset@, opt_view(*status)),
    {
        match status {
            None => false,
            Some(s) => {
                let excluded = any_eq_ic(&self.exclude_statuses, s.as_str());
                let wanted = any_eq_ic(&preset.includes.statuses, s.as_str());
                excluded && !wanted
            },
        }
    }

    /// Whether a preset's includes filter should keep this item, honouring
    /// `exclude_statuses` unless the preset explicitly names that status.
    pub fn keeps(&self, preset: &Preset, item: &Item) -> (r: bool)
        ensures
            r == self.keeps_spec(preset@, item@),
    {
        if !preset.includes.matches(item) {
            return false;
        }
        !self.status_hidden(preset, &item.status)
    }

    /// Whether a card may host rolled-up sub-issues under `preset`: a card whose
    /// status `exclude_statuses` hides (and the preset doesn't name) doesn't.
    pub fn keeps_parent(&self, preset: &Preset, item: &Item) -> (r: bool)
        ensures
            r == self.keeps_parent_spec(preset@, item@),
    {
        !self.status_hidden(preset, &item.status)
    }
}


impl Clone for Filter {
    fn clone(&self) -> (r: Self)
        ensures
            r@ == self@,
    {
        Filter {
            labels: clone_strings(&self.labels),
            statuses: clone_strings(&self.statuses),
            assignees: clone_strings(&self.assignees),
        }
    }
}

impl Clone for Preset {
    fn clone(&self) -> (r: Self)
        ensures
            r@ == self@,
    {
        Preset {
            name: self.name.clone(),
            includes: self.includes.clone(),
            include_parents: self.include_parents,
        }
    }
}


/// The mathematical content of a project entry.
pub struct ProjectView {
    pub name: Seq<char>,
    pub repos: Seq<Seq<char>>,
    pub owner: Seq<char>,
    pub number: u32,
    pub target_session: Option<Seq<char>>,
    pub claude_subdir: Option<Seq<char>>,
    pub skill_start: Option<Seq<char>>,
    pub skill_create: Option<Seq<char>>,
    pub copy: Seq<Seq<char>>,
    pub setup: Seq<Seq<char>>,
    pub status_order: Seq<Seq<char>>,
    pub exclude_statuses: Seq<Seq<char>>,
    pub presets: Seq<PresetView>,
}

impl View for ProjectConfig {
    type V = ProjectView;

    open spec fn view(&self) -> ProjectView {
        ProjectView {
            name: self.name@,
            repos: strs_view(self.repos@),
            owner: self.board.owner@,
            number: self.board.number,
            target_session: opt_view(self.target_session),
            claude_subdir: opt_view(self.claude_subdir),
            skill_start: opt_view(self.skill.start),
            skill_create: opt_view(self.skill.create),
            copy: strs_view(self.worktree.copy@),
            setup: strs_view(self.worktree.setup@),
            status_order: strs_view(self.status_order@),
            exclude_statuses: strs_view(self.exclude_statuses@),
            presets: presets_view(self.presets@),
        }
    }
}

impl Default for Filter {
    fn default() -> (r: Self)
        ensures
            r@.is_empty(),
    {
        Filter { labels: Vec::new(), statuses: Vec::new(), assignees: Vec::new() }
    }
}

impl Default for Skill {
    fn default() -> (r: Self)
        ensures
            r.start is None && r.create is None,
    {
        Skill { start: None, create: None }
    }
}

impl Default for Worktree {
    fn default() -> (r: Self)
        ensures
            r.copy@.len() == 0 && r.setup@.len() == 0,
    {
        Worktree { copy: Vec::new(), setup: Vec::new() }
    }
}

impl Clone for Board {
    fn clone(&self) -> (r: Self)
        ensures
            r.owner@ == self.owner@ && r.number == self.number,
    {
        Board { owner: self.owner.clone(), number: self.number }
    }
}

impl Clone for Skill {
    fn clone(&self) -> (r: Self)
        ensures
            opt_view(r.start) == opt_view(self.start) && opt_view(r.create) == opt_view(self.create),
    {
        Skill {
            start: crate::model::clone_opt_string(&self.start),
            create: crate::model::clone_opt_string(&self.create),
        }
    }
}

impl Clone for Worktree {
    fn clone(&self) -> (r: Self)
        ensures
            r.copy@ == self.copy@ && r.setup@ == self.setup@,
    {
        Worktree { copy: clone_strings(&self.copy), setup: clone_strings(&self.setup) }
    }
}

/// A copy of every preset.
fn clone_presets(v: &Vec<Preset>) -> (r: Vec<Preset>)
    ensures
        presets_view(r@) == presets_view(v@),
{
    let mut out: Vec<Preset> = Vec::new();
    let mut k: usize = 0;
    while k < v.len()
        invariant
            k <= v@.len(),
            presets_view(out@) == presets_view(v@.take(k as int)),
        decreases v.len() - k,
    {
        let p = v[k].clone();
        let ghost before = out@;
        out.push(p);
        proof {
            assert(presets_view(out@) =~= presets_view(before).push(p@));
            assert(presets_view(v@.take(k + 1)) =~= presets_view(v@.take(k as int)).push(v@[k as int]@));
        }
        k += 1;
    }
    assert(v@.take(v@.len() as int) =~= v@);
    out
}

impl Clone for ProjectConfig {
    fn clone(&self) -> (r: Self)
        ensures
            r@ == self@,
    {
        ProjectConfig {
            name: self.name.clone(),
            repos: clone_strings(&self.repos),
            board: self.board.clone(),
            target_session: crate::model::clone_opt_string(&self.target_session),
            claude_subdir: crate::model::clone_opt_string(&self.claude_subdir),
            skill: self.skill.clone(),
            worktree: self.worktree.clone(),
            status_order: clone_strings(&self.status_order),
            exclude_statuses: clone_strings(&self.exclude_statuses),
            presets: clone_presets(&self.presets),
        }
    }
}

/// A one-string list.
fn one_string(s: &str) -> (r: Vec<String>)
    ensures
        strs_view(r@) == seq![s@],
{
    let mut v: Vec<String> = Vec::new();
    v.push(crate::text::to_owned_string(s));
    assert(strs_view(v@) =~= seq![s@]);
    v
}

/// A preset named `name` over the filter `f`, not rolling up parents.
fn preset_of(name: &str, f: Filter) -> (r: Preset)
    ensures
        r@ == (PresetView { name: name@, includes: f@, include_parents: false }),
{
    Preset { name: crate::text::to_owned_string(name), includes: f, include_parents: false }
}

impl ProjectConfig {
    /// The travel-smart board: a representative project entry with a full
    /// column order, `Done`/`Backlog` hidden, and four presets.
    pub fn travel_smart() -> (r: ProjectConfig)
        ensures
            r@.name == "travel-smart"@,
            r@.repos == seq!["WhiteWolfStudio/travel-smart"@],
            r@.owner == "WhiteWolfStudio"@,
            r@.number == 6,
            r@.target_session is None,
            r@.claude_subdir is None,
            r@.skill_start is None,
            r@.skill_create is None,
            r@.copy.len() == 0,
            r@.setup.len() == 0,
            r@.status_order == seq![
                "Refine"@,
                "Create Contract"@,
                "Ready To Implement"@,
                "In progress"@,
                "In review"@,
                "Backlog"@,
                "Done"@,
            ],
            r@.exclude_statuses == seq!["Done"@, "Backlog"@],
            r@.presets == seq![
                PresetView {
                    name: "all"@,
                    includes: FilterView { labels: seq![], statuses: seq![], assignees: seq![] },
                    include_parents: false,
                },
                PresetView {
                    name: "mine"@,
                    includes: FilterView {
                        labels: seq![],
                        statuses: seq![],
                        assignees: seq!["YasarMahomedAbbas"@],
                    },
                    include_parents: false,
                },
                PresetView {
                    name: "frontend"@,
                    includes: FilterView { labels: seq!["Frontend"@], statuses: seq![], assignees: seq![] },
                    include_parents: false,
                },
                PresetView {
                    name: "refine"@,
                    includes: FilterView { labels: seq![], statuses: seq!["Refine"@], assignees: seq![] },
                    include_parents: false,
                },
            ],
    {
        let mut order: Vec<String> = Vec::new();
        order.push(crate::text::to_owned_string("Refine"));
        order.push(crate::text::to_owned_string("Create Contract"));
        order.push(crate::text::to_owned_string("Ready To Implement"));
        order.push(crate::text::to_owned_string("In progress"));
        order.push(crate::text::to_owned_string("In review"));
        order.push(crate::text::to_owned_string("Backlog"));
        order.push(crate::text::to_owned_string("Done"));
        let mut exclude: Vec<String> = Vec::new();
        exclude.push(crate::text::to_owned_string("Done"));
        exclude.push(crate::text::to_owned_string("Backlog"));
        let mut presets: Vec<Preset> = Vec::new();
        presets.push(preset_of("all", Filter::default()));
        presets.push(
            preset_of(
                "mine",
                Filter {
                    labels: Vec::new(),
                    statuses: Vec::new(),
                    assignees: one_string("YasarMahomedAbbas"),
                },
            ),
        );
        presets.push(
            preset_of(
                "frontend",
                Filter { labels: one_string("Frontend"), statuses: Vec::new(), assignees: Vec::new() },
            ),
        );
        presets.push(
            preset_of(
                "refine",
                Filter { labels: Vec::new(), statuses: one_string("Refine"), assignees: Vec::new() },
            ),
        );
        let r = ProjectConfig {
            name: crate::text::to_owned_string("travel-smart"),
            repos: one_string("WhiteWolfStudio/travel-smart"),
            board: Board { owner: crate::text::to_owned_string("WhiteWolfStudio"), number: 6 },
            target_session: None,
            claude_subdir: None,
            skill: Skill::default(),
            worktree: Worktree::default(),
            status_order: order,
            exclude_statuses: exclude,
            presets,
        };
        assert(r@.status_order =~= seq![
            "Refine"@,
            "Create Contract"@,
            "Ready To Implement"@,
            "In progress"@,
            "In review"@,
            "Backlog"@,
            "Done"@,
        ]);
        assert(r@.exclude_statuses =~= seq!["Done"@, "Backlog"@]);
        assert(r@.copy =~= Seq::<Seq<char>>::empty());
        assert(r@.setup =~= Seq::<Seq<char>>::empty());
        assert(r@.presets =~~= seq![
            PresetView {
                name: "all"@,
                includes: FilterView { labels: seq![], statuses: seq![], assignees: seq![] },
                include_parents: false,
            },
            PresetView {
                name: "mine"@,
                includes: FilterView {
                    labels: seq![],
                    statuses: seq![],
                    assignees: seq!["YasarMahomedAbbas"@],
                },
                include_parents: false,
            },
            PresetView {
                name: "frontend"@,
                includes: FilterView { labels: seq!["Frontend"@], statuses: seq![], assignees: seq![] },
                include_parents: false,
            },
            PresetView {
                name: "refine"@,
                includes: FilterView { labels: seq![], statuses: seq!["Refine"@], assignees: seq![] },
                include_parents: false,
            },
        ]);
        r
    }
}

/// `ps` without the presets named `name`, ignoring ASCII case.
pub open spec fn drop_named(ps: Seq<PresetView>, name: Seq<char>) -> Seq<PresetView>
    decreases ps.len(),
{
    if ps.len() == 0 {
        ps
    } else {
        let p = drop_named(ps.drop_last(), name);
        if eq_ic(ps.last().name, name) {
            p
        } else {
            p.push(ps.last())
        }
    }
}

/// Preset `j` of `ps` is named `name`, ignoring ASCII case.
pub open spec fn named(ps: Seq<PresetView>, name: Seq<char>) -> spec_fn(int) -> bool {
    |j: int| eq_ic(ps[j].name, name)
}

/// The presets after saving `preset` (dropping the pre-edit name `replacing`
/// when it was renamed), and the index it lands at: a same-named preset is
/// overwritten in place, else it is appended.
pub open spec fn saved_presets(ps: Seq<PresetView>, preset: PresetView, replacing: Option<Seq<char>>) -> (
    Seq<PresetView>,
    int,
) {
    let kept = match replacing {
        Some(o) => if !eq_ic(o, preset.name) {
            drop_named(ps, o)
        } else {
            ps
        },
        None => ps,
    };
    match first_where(kept.len() as int, named(kept, preset.name)) {
        Some(j) => (kept.update(j, preset), j),
        None => (kept.push(preset), kept.len() as int),
    }
}

/// Which presets `drop_named` keeps.
pub proof fn lemma_drop_named(ps: Seq<PresetView>, name: Seq<char>)
    ensures
        drop_named(ps, name).len() <= ps.len(),
        forall|k: int|
            0 <= k < drop_named(ps, name).len() ==> !eq_ic(#[trigger] drop_named(ps, name)[k].name, name),
    decreases ps.len(),
{
    if ps.len() > 0 {
        lemma_drop_named(ps.drop_last(), name);
        let p = drop_named(ps.drop_last(), name);
        assert forall|k: int| 0 <= k < drop_named(ps, name).len() implies !eq_ic(
            #[trigger] drop_named(ps, name)[k].name,
            name,
        ) by {
            if k < p.len() {
                assert(drop_named(ps, name)[k] == p[k]);
            }
        }
    }
}

/// Saving under a name a preset already has (ignoring ASCII case) overwrites
/// it in place: the list keeps its length and the saved preset sits where the
/// old one was.
pub proof fn law_save_same_name_replaces(ps: Seq<PresetView>, preset: PresetView, j: int)
    requires
        0 <= j < ps.len(),
        eq_ic(ps[j].name, preset.name),
    ensures
        saved_presets(ps, preset, None).0.len() == ps.len(),
        saved_presets(ps, preset, None).1 <= j,
        saved_presets(ps, preset, None).0[saved_presets(ps, preset, None).1] == preset,
{
    lemma_first_where_some(ps.len() as int, named(ps, preset.name));
    assert(named(ps, preset.name)(j));
}

/// Saving under a new name appends the preset at the end.
pub proof fn law_save_new_name_appends(ps: Seq<PresetView>, preset: PresetView)
    requires
        forall|j: int| 0 <= j < ps.len() ==> !eq_ic(#[trigger] ps[j].name, preset.name),
    ensures
        saved_presets(ps, preset, None).0 == ps.push(preset),
        saved_presets(ps, preset, None).1 == ps.len(),
{
    lemma_first_where_none(ps.len() as int, named(ps, preset.name));
}

/// Saving a renamed preset leaves no preset under its old name.
pub proof fn law_save_rename_drops_old(ps: Seq<PresetView>, preset: PresetView, old_name: Seq<char>)
    requires
        !eq_ic(old_name, preset.name),
    ensures
        forall|k: int|
            0 <= k < saved_presets(ps, preset, Some(old_name)).0.len() ==> !eq_ic(
                #[trigger] saved_presets(ps, preset, Some(old_name)).0[k].name,
                old_name,
            ),
{
    lemma_drop_named(ps, old_name);
    let kept = drop_named(ps, old_name);
    let out = saved_presets(ps, preset, Some(old_name)).0;
    lemma_first_where_some(kept.len() as int, named(kept, preset.name));
    match first_where(kept.len() as int, named(kept, preset.name)) {
        Some(j) => {
            assert forall|k: int| 0 <= k < out.len() implies !eq_ic(#[trigger] out[k].name, old_name) by {
                if k != j {
                    assert(out[k] == kept[k]);
                }
            }
        },
        None => {
            assert forall|k: int| 0 <= k < out.len() implies !eq_ic(#[trigger] out[k].name, old_name) by {
                if k < kept.len() {
                    assert(out[k] == kept[k]);
                }
            }
        },
    }
}

/// The saved preset's index is in range and holds it.
pub proof fn lemma_saved_presets(ps: Seq<PresetView>, preset: PresetView, replacing: Option<Seq<char>>)
    ensures
        0 <= saved_presets(ps, preset, replacing).1 < saved_presets(ps, preset, replacing).0.len(),
        saved_presets(ps, preset, replacing).0[saved_presets(ps, preset, replacing).1] == preset,
{
    let kept = match replacing {
        Some(o) => if !eq_ic(o, preset.name) {
            drop_named(ps, o)
        } else {
            ps
        },
        None => ps,
    };
    lemma_first_where_some(kept.len() as int, named(kept, preset.name));
}


/// An optional borrowed string, as characters.
pub open spec fn opt_str(o: Option<&str>) -> Option<Seq<char>> {
    match o {
        Some(s) => Some(s@),
        None => None,
    }
}

/// Drop every preset named `name`, ignoring ASCII case.
pub fn remove_named(presets: &mut Vec<Preset>, name: &str)
    ensures
        presets_view(final(presets)@) == drop_named(presets_view(old(presets)@), name@),
{
    let ghost ps0 = presets_view(presets@);
    let mut out: Vec<Preset> = Vec::new();
    let mut k: usize = 0;
    while k < presets.len()
        invariant
            k <= presets@.len(),
            ps0 == presets_view(presets@),
            presets_view(out@) == drop_named(ps0.take(k as int), name@),
        decreases presets.len() - k,
    {
        proof {
            assert(ps0.take(k + 1).drop_last() =~= ps0.take(k as int));
            assert(ps0[k as int] == presets@[k as int]@);
        }
        if !eq_ignore_case(presets[k].name.as_str(), name) {
            let p = presets[k].clone();
            let ghost before = out@;
            out.push(p);
            assert(presets_view(out@) =~= presets_view(before).push(p@));
        }
        k += 1;
    }
    assert(ps0.take(ps0.len() as int) =~= ps0);
    *presets = out;
}

/// Save `preset` into `presets` as `saved_presets` describes; returns where
/// it landed.
pub fn save_into(presets: &mut Vec<Preset>, preset: Preset, replacing: Option<&str>) -> (r: usize)
    ensures
        presets_view(final(presets)@) == saved_presets(
            presets_view(old(presets)@),
            preset@,
            opt_str(replacing),
        ).0,
        r == saved_presets(presets_view(old(presets)@), preset@, opt_str(replacing)).1,
{
    if let Some(orig) = replacing {
        if !eq_ignore_case(orig, preset.name.as_str()) {
            remove_named(presets, orig);
        }
    }
    let ghost kept = presets_view(presets@);
    let ghost pred = named(kept, preset@.name);
    let mut j: usize = 0;
    while j < presets.len()
        invariant
            j <= presets@.len(),
            kept == presets_view(presets@),
            pred == named(kept, preset@.name),
            forall|x: int| 0 <= x < j ==> !#[trigger] pred(x),
        ensures
            j == presets@.len() || pred(j as int),
        decreases presets.len() - j,
    {
        assert(kept[j as int] == presets@[j as int]@);
        if eq_ignore_case(presets[j].name.as_str(), preset.name.as_str()) {
            break;
        }
        j += 1;
    }
    if j < presets.len() {
        proof {
            crate::board::lemma_first_where_found(kept.len() as int, j as int, pred);
        }
        let ghost pv = preset@;
        presets[j] = preset;
        assert(presets_view(presets@) =~= kept.update(j as int, pv));
        j
    } else {
        proof {
            crate::board::lemma_first_where_none(kept.len() as int, pred);
        }
        let ghost pv = preset@;
        presets.push(preset);
        assert(presets_view(presets@) =~= kept.push(pv));
        presets.len() - 1
    }
}

/// Statuses named in the column order sort first (by their position), then
/// statuses missing from it, then cards with no status.
pub proof fn law_rank_known_before_unknown(order: Seq<Seq<char>>, s: Seq<char>, t: Seq<char>)
    requires
        any_ic(order, s),
        !any_ic(order, t),
        order.len() < usize::MAX - 1,
    ensures
        rank(order, Some(s)) < rank(order, Some(t)) < rank(order, None),
{
    let k = choose|k: int| 0 <= k < order.len() && eq_ic(order[k], s);
    lemma_first_ic(order, s);
}

/// `first_ic` finds the first matching position.
pub proof fn lemma_first_ic(xs: Seq<Seq<char>>, s: Seq<char>)
    requires
        any_ic(xs, s),
    ensures
        is_first_ic(xs, s, first_ic(xs, s)),
{
    let k = choose|k: int| 0 <= k < xs.len() && eq_ic(xs[k], s);
    let pred = |j: int| eq_ic(xs[j], s);
    crate::board::lemma_first_where_some(xs.len() as int, pred);
    assert(pred(k));
    let m = crate::board::first_where(xs.len() as int, pred)->0;
    assert forall|j: int| 0 <= j < m implies !eq_ic(#[trigger] xs[j], s) by {
        assert(!pred(j));
    }
    assert(is_first_ic(xs, s, m));
}

/// A preset that names a status reveals cards in it even when the project
/// hides that status by default.
pub proof fn law_named_status_revealed(cfg: ProjectConfig, preset: PresetView, it: ItemView)
    requires
        preset.includes.matches(it),
        it.status is Some,
        any_ic(preset.includes.statuses, it.status->0),
    ensures
        cfg.keeps_spec(preset, it),
{
}

/// A filter keeps a card exactly when each of its non-empty fields has a hit:
/// some listed label equals, ignoring ASCII case, some label of the card (at
/// any position of either list), likewise for assignees, and some listed
/// status equals the card's status.
pub proof fn law_filter_hits_anywhere(f: FilterView, it: ItemView)
    ensures
        f.matches(it) <==> {
            &&& (f.labels.len() == 0 || exists|i: int, j: int|
                0 <= i < f.labels.len() && 0 <= j < it.labels.len() && #[trigger] eq_ic(
                    f.labels[i],
                    it.labels[j],
                ))
            &&& (f.statuses.len() == 0 || (it.status is Some && exists|i: int|
                0 <= i < f.statuses.len() && #[trigger] eq_ic(f.statuses[i], it.status->0)))
            &&& (f.assignees.len() == 0 || exists|i: int, j: int|
                0 <= i < f.assignees.len() && 0 <= j < it.assignees.len() && #[trigger] eq_ic(
                    f.assignees[i],
                    it.assignees[j],
                ))
        },
{
    lemma_overlap_pairs(f.labels, it.labels);
    lemma_overlap_pairs(f.assignees, it.assignees);
    if it.status is Some {
        let st = it.status->0;
        assert(any_ic(f.statuses, st) <==> exists|i: int|
            0 <= i < f.statuses.len() && #[trigger] eq_ic(f.statuses[i], st));
    }
}

/// `overlap_ic` holds exactly when some pair of entries matches.
proof fn lemma_overlap_pairs(want: Seq<Seq<char>>, have: Seq<Seq<char>>)
    ensures
        overlap_ic(want, have) <==> exists|i: int, j: int|
            0 <= i < want.len() && 0 <= j < have.len() && #[trigger] eq_ic(want[i], have[j]),
{
    if overlap_ic(want, have) {
        let i = choose|i: int| 0 <= i < want.len() && any_ic(have, #[trigger] want[i]);
        let j = choose|j: int| 0 <= j < have.len() && eq_ic(#[trigger] have[j], want[i]);
        assert(eq_ic(want[i], have[j]));
    }
    if exists|i: int, j: int| 0 <= i < want.len() && 0 <= j < have.len() && #[trigger] eq_ic(
        want[i],
        have[j],
    ) {
        let (i, j) = choose|i: int, j: int|
            0 <= i < want.len() && 0 <= j < have.len() && #[trigger] eq_ic(want[i], have[j]);
        assert(eq_ic(have[j], want[i]));
        assert(any_ic(have, want[i]));
    }
}

} // verus!
