//! Global config: every project plus path-keyed overrides, and the pure
//! operations on it (project lookup, repo resolution, preset persistence).
use vstd::prelude::*;
use crate::board::{first_where, lemma_first_where_found, lemma_first_where_none};
use crate::config::schema::{
    Preset, PresetView, ProjectConfig, ProjectView, drop_named, opt_str, presets_view,
    remove_named, save_into, saved_presets,
};
use crate::text::str_eq;

pub mod resolver;
pub mod schema;

verus! {

/// The whole config file: every project, plus repo-root path → project name
/// overrides (each path listed once).
#[derive(Debug)]
pub struct Config {
    pub projects: Vec<ProjectConfig>,
    /// Absolute repo-root path → project name. Wins over git-remote resolution.
    pub overrides: Vec<(String, String)>,
}

/// Why a config edit could not be made.
#[derive(Debug, Clone, Copy, PartialEq, Eq, Structural)]
pub enum ConfigError {
    /// No project of that name is configured.
    ProjectMissing,
}

/// The views of every project.
pub open spec fn projects_view(v: Seq<ProjectConfig>) -> Seq<ProjectView> {
    v.map_values(|p: ProjectConfig| p@)
}

/// Project `j` is named `name`.
pub open spec fn project_named(ps: Seq<ProjectView>, name: Seq<char>) -> spec_fn(int) -> bool {
    |j: int| ps[j].name == name
}

/// The first project named `name`.
pub open spec fn project_pos(ps: Seq<ProjectView>, name: Seq<char>) -> Option<int> {
    first_where(ps.len() as int, project_named(ps, name))
}

impl Default for Config {
    fn default() -> (r: Self)
        ensures
            r.projects@.len() == 0,
            r.overrides@.len() == 0,
    {
        Config { projects: Vec::new(), overrides: Vec::new() }
    }
}

impl Config {
    /// The index of the first project named `name`.
    pub fn project_index(&self, name: &str) -> (r: Option<usize>)
        ensures
            match r {
                Some(j) => project_pos(projects_view(self.projects@), name@) == Some(j as int),
                None => project_pos(projects_view(self.projects@), name@) is None,
            },
            r matches Some(j) ==> j < self.projects@.len(),
    {
        let ghost pv = projects_view(self.projects@);
        let ghost pred = project_named(pv, name@);
        let mut j: usize = 0;
        while j < self.projects.len()
            invariant
                j <= self.projects@.len(),
                pv == projects_view(self.projects@),
                pred == project_named(pv, name@),
                forall|x: int| 0 <= x < j ==> !#[trigger] pred(x),
            decreases self.projects.len() - j,
        {
            assert(pv[j as int] == self.projects@[j as int]@);
            if str_eq(self.projects[j].name.as_str(), name) {
                proof {
                    lemma_first_where_found(pv.len() as int, j as int, pred);
                }
                return Some(j);
            }
            j += 1;
        }
        proof {
            lemma_first_where_none(pv.len() as int, pred);
        }
        None
    }

    /// The first project named `name`.
    pub fn find_project(&self, name: &str) -> (r: Option<&ProjectConfig>)
        ensures
            match project_pos(projects_view(self.projects@), name@) {
                Some(j) => r == Some(&self.projects@[j]),
                None => r is None,
            },
    {
        match self.project_index(name) {
            Some(j) => Some(&self.projects[j]),
            None => None,
        }
    }
}

/// Write `preset` into project `project_name` of `cfg`: on a rename
/// (`replacing` differs from its name, ignoring ASCII case) the old entry is
/// dropped first; then a same-named preset is overwritten in place, else it is
/// appended. Fails, changing nothing, when no project has that name.
pub fn persist_preset(cfg: &mut Config, project_name: &str, preset: &Preset, replacing: Option<&str>) -> (r: Result<(), ConfigError>)
    ensures
        match project_pos(projects_view(old(cfg).projects@), project_name@) {
            None => r == Err::<(), ConfigError>(ConfigError::ProjectMissing) && *final(cfg) == *old(cfg),
            Some(j) => {
                &&& r is Ok
                &&& final(cfg).overrides == old(cfg).overrides
                &&& final(cfg).projects@.len() == old(cfg).projects@.len()
                &&& forall|k: int|
                    0 <= k < old(cfg).projects@.len() && k != j ==> #[trigger] final(cfg).projects@[k]
                        == old(cfg).projects@[k]
                &&& final(cfg).projects@[j]@ == (ProjectView {
                    presets: saved_presets(
                        old(cfg).projects@[j]@.presets,
                        preset@,
                        opt_str(replacing),
                    ).0,
                    ..old(cfg).projects@[j]@
                })
            },
        },
{
    let j = match cfg.project_index(project_name) {
        Some(j) => j,
        None => return Err(ConfigError::ProjectMissing),
    };
    let p = preset.clone();
    save_into(&mut cfg.projects[j].presets, p, replacing);
    Ok(())
}

/// Remove every preset named `preset_name` (ignoring ASCII case) from project
/// `project_name` of `cfg`. Fails, changing nothing, when no project has that
/// name.
pub fn persist_delete(cfg: &mut Config, project_name: &str, preset_name: &str) -> (r: Result<(), ConfigError>)
    ensures
        match project_pos(projects_view(old(cfg).projects@), project_name@) {
            None => r == Err::<(), ConfigError>(ConfigError::ProjectMissing) && *final(cfg) == *old(cfg),
            Some(j) => {
                &&& r is Ok
                &&& final(cfg).overrides == old(cfg).overrides
                &&& final(cfg).projects@.len() == old(cfg).projects@.len()
                &&& forall|k: int|
                    0 <= k < old(cfg).projects@.len() && k != j ==> #[trigger] final(cfg).projects@[k]
                        == old(cfg).projects@[k]
                &&& final(cfg).projects@[j]@ == (ProjectView {
                    presets: drop_named(old(cfg).projects@[j]@.presets, preset_name@),
                    ..old(cfg).projects@[j]@
                })
            },
        },
{
    let j = match cfg.project_index(project_name) {
        Some(j) => j,
        None => return Err(ConfigError::ProjectMissing),
    };
    remove_named(&mut cfg.projects[j].presets, preset_name);
    Ok(())
}

/// The owner part of `owner/name`: the text before the first `/` (all of it
/// when there is none).
pub fn repo_owner(repo: &str) -> (r: String)
    ensures
        r@ == crate::text::split_char(repo@, '/')[0],
{
    let cs = crate::text::chars_of(repo);
    let parts = crate::text::split_on(cs.as_slice(), '/');
    proof {
        crate::text::lemma_split_char_len(repo@, '/');
        assert(crate::model::strs_view(parts@)[0] == parts@[0]@);
    }
    parts[0].clone()
}

/// Of `Done` and `Backlog`, those the board's column order has (ignoring
/// ASCII case): the statuses a new project hides by default.
pub fn default_excludes(status_order: &Vec<String>) -> (r: Vec<String>)
    ensures
        crate::model::strs_view(r@) == {
            let a = if crate::config::schema::any_ic(crate::model::strs_view(status_order@), "Done"@) {
                seq!["Done"@]
            } else {
                Seq::empty()
            };
            if crate::config::schema::any_ic(crate::model::strs_view(status_order@), "Backlog"@) {
                a.push("Backlog"@)
            } else {
                a
            }
        },
{
    let mut out: Vec<String> = Vec::new();
    if crate::config::schema::any_eq_ic(status_order, "Done") {
        out.push(crate::text::to_owned_string("Done"));
    }
    if crate::config::schema::any_eq_ic(status_order, "Backlog") {
        let ghost before = crate::model::strs_view(out@);
        out.push(crate::text::to_owned_string("Backlog"));
        assert(crate::model::strs_view(out@) =~= before.push("Backlog"@));
    }
    proof {
        let a = if crate::config::schema::any_ic(crate::model::strs_view(status_order@), "Done"@) {
            seq!["Done"@]
        } else {
            Seq::<Seq<char>>::empty()
        };
        if !crate::config::schema::any_ic(crate::model::strs_view(status_order@), "Backlog"@) {
            assert(crate::model::strs_view(out@) =~= a);
        }
    }
    out
}

/// The name a new project gets: the board's trimmed title, or the repo's name
/// part for an untitled board; ` #<number>` is appended when a project already
/// has that name.
pub open spec fn project_name_spec(title: Seq<char>, repo: Seq<char>, number: u32, names: Seq<Seq<char>>) -> Seq<char> {
    let parts = crate::text::split_char(repo, '/');
    let base = if crate::text::trim(title).len() > 0 {
        crate::text::trim(title)
    } else if parts.len() > 1 {
        parts[1]
    } else {
        repo
    };
    if names.contains(base) {
        base + " #"@ + crate::text::decimal(number as nat)
    } else {
        base
    }
}

/// The name a new project gets in `cfg`.
pub fn project_name(board_title: &str, repo: &str, number: u32, cfg: &Config) -> (r: String)
    ensures
        r@ == project_name_spec(
            board_title@,
            repo@,
            number,
            projects_view(cfg.projects@).map_values(|p: ProjectView| p.name),
        ),
{
    let t = crate::text::trim_string(board_title);
    let cs = crate::text::chars_of(repo);
    let parts = crate::text::split_on(cs.as_slice(), '/');
    proof {
        crate::text::lemma_split_char_len(repo@, '/');
    }
    let base = if !t.as_str().is_empty() {
        t
    } else if parts.len() > 1 {
        assert(crate::model::strs_view(parts@)[1] == parts@[1]@);
        parts[1].clone()
    } else {
        crate::text::to_owned_string(repo)
    };
    let ghost names = projects_view(cfg.projects@).map_values(|p: ProjectView| p.name);
    let taken = match cfg.project_index(base.as_str()) {
        Some(j) => {
            proof {
                crate::board::lemma_first_where_some(
                    cfg.projects@.len() as int,
                    project_named(projects_view(cfg.projects@), base@),
                );
                assert(project_named(projects_view(cfg.projects@), base@)(j as int));
                assert(names[j as int] == base@);
            }
            true
        },
        None => {
            proof {
                crate::board::lemma_first_where_some(
                    cfg.projects@.len() as int,
                    project_named(projects_view(cfg.projects@), base@),
                );
                if names.contains(base@) {
                    let k = choose|k: int| 0 <= k < names.len() && names[k] == base@;
                    assert(project_named(projects_view(cfg.projects@), base@)(k));
                }
            }
            false
        },
    };
    if taken {
        let mut out = base;
        out.append(" #");
        crate::text::push_decimal(&mut out, number as u64);
        out
    } else {
        base
    }
}

/// A new project's presets: `all`, plus `mine` on the viewer's login when it
/// is known.
pub fn starter_presets(login: Option<String>) -> (r: Vec<Preset>)
    ensures
        presets_view(r@) == {
            let all = PresetView {
                name: "all"@,
                includes: crate::config::schema::FilterView {
                    labels: seq![],
                    statuses: seq![],
                    assignees: seq![],
                },
                include_parents: false,
            };
            match login {
                Some(l) => if l@.len() > 0 {
                    seq![
                        all,
                        PresetView {
                            name: "mine"@,
                            includes: crate::config::schema::FilterView {
                                labels: seq![],
                                statuses: seq![],
                                assignees: seq![l@],
                            },
                            include_parents: false,
                        },
                    ]
                } else {
                    seq![all]
                },
                None => seq![all],
            }
        },
{
    let mut out: Vec<Preset> = Vec::new();
    out.push(
        Preset {
            name: crate::text::to_owned_string("all"),
            includes: crate::config::schema::Filter {
                labels: Vec::new(),
                statuses: Vec::new(),
                assignees: Vec::new(),
            },
            include_parents: false,
        },
    );
    match login {
        Some(l) => {
            if !l.as_str().is_empty() {
                let mut who: Vec<String> = Vec::new();
                let ghost lv = l@;
                who.push(l);
                assert(crate::model::strs_view(who@) =~= seq![lv]);
                out.push(
                    Preset {
                        name: crate::text::to_owned_string("mine"),
                        includes: crate::config::schema::Filter {
                            labels: Vec::new(),
                            statuses: Vec::new(),
                            assignees: who,
                        },
                        include_parents: false,
                    },
                );
            }
        },
        None => {},
    }
    assert(presets_view(out@)[0].includes =~~= crate::config::schema::FilterView {
        labels: seq![],
        statuses: seq![],
        assignees: seq![],
    });
    if out.len() > 1 {
        assert(presets_view(out@)[1].includes.labels =~= Seq::<Seq<char>>::empty());
        assert(presets_view(out@)[1].includes.statuses =~= Seq::<Seq<char>>::empty());
    }
    assert(presets_view(out@) =~~= presets_view(out@));
    out
}

/// A new project is named after its board: the board's trimmed title when it
/// has one and no project has that name yet, the title with ` #<number>` when
/// one has; only an untitled board falls back to the repo's name part.
pub proof fn law_project_named_after_board(
    title: Seq<char>,
    owner: Seq<char>,
    name: Seq<char>,
    number: u32,
    names: Seq<Seq<char>>,
)
    requires
        forall|i: int| 0 <= i < owner.len() ==> owner[i] != '/',
        forall|i: int| 0 <= i < name.len() ==> name[i] != '/',
    ensures
        crate::text::trim(title).len() > 0 && !names.contains(crate::text::trim(title))
            ==> project_name_spec(title, owner + seq!['/'] + name, number, names)
            == crate::text::trim(title),
        crate::text::trim(title).len() > 0 && names.contains(crate::text::trim(title))
            ==> project_name_spec(title, owner + seq!['/'] + name, number, names)
            == crate::text::trim(title) + " #"@ + crate::text::decimal(number as nat),
        crate::text::trim(title).len() == 0 && !names.contains(name) ==> project_name_spec(
            title,
            owner + seq!['/'] + name,
            number,
            names,
        ) == name,
{
    crate::text::lemma_split_char_free(owner, '/');
    crate::text::lemma_split_char_after(owner, name, '/');
    assert(crate::text::split_char(owner + seq!['/'] + name, '/') =~= seq![owner, name]);
}

} // verus!
