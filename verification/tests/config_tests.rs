use lazytickets::config::resolver::{normalize_remote, repo_at, resolve, Resolution};
use lazytickets::config::schema::{Filter, Preset, ProjectConfig};
use lazytickets::config::{persist_delete, persist_preset, Config, ConfigError};
use lazytickets::model::Item;

fn item(status: &str, labels: &[&str], assignees: &[&str]) -> Item {
    Item {
        id: "x".into(),
        number: Some(1),
        title: "t".into(),
        repository: Some("o/r".into()),
        status: Some(status.into()),
        labels: labels.iter().map(|s| s.to_string()).collect(),
        assignees: assignees.iter().map(|s| s.to_string()).collect(),
        url: None,
        parent: None,
    }
}

#[test]
fn preset_filters_and_excludes() {
    let cfg = ProjectConfig::travel_smart();
    let frontend = &cfg.presets[2];
    assert_eq!(frontend.name, "frontend");

    // Frontend + Refine passes the frontend preset.
    assert!(cfg.keeps(frontend, &item("Refine", &["Frontend"], &[])));
    // Backend label fails it.
    assert!(!cfg.keeps(frontend, &item("Refine", &["Backend"], &[])));
    // Frontend but Done is excluded (preset doesn't name Done).
    assert!(!cfg.keeps(frontend, &item("Done", &["Frontend"], &[])));

    // A preset that names Done reveals it despite the exclude list.
    let done_preset = Preset {
        name: "done".into(),
        includes: Filter { statuses: vec!["Done".into()], ..Default::default() },
        include_parents: false,
    };
    assert!(cfg.keeps(&done_preset, &item("Done", &["Frontend"], &[])));

    // `mine` matches on assignee.
    let mine = &cfg.presets[1];
    assert!(cfg.keeps(mine, &item("Refine", &[], &["YasarMahomedAbbas"])));
    assert!(!cfg.keeps(mine, &item("Refine", &[], &["someone-else"])));
}

#[test]
fn status_rank_orders_known_before_unknown() {
    let cfg = ProjectConfig::travel_smart();
    assert!(cfg.status_rank(Some("Refine")) < cfg.status_rank(Some("Done")));
    assert!(cfg.status_rank(Some("Done")) < cfg.status_rank(Some("Nonsense")));
    assert!(cfg.status_rank(Some("Nonsense")) < cfg.status_rank(None));
}

#[test]
fn status_rank_exact_values() {
    let cfg = ProjectConfig::travel_smart();
    assert_eq!(cfg.status_rank(Some("refine")), 0);
    assert_eq!(cfg.status_rank(Some("IN PROGRESS")), 3);
    assert_eq!(cfg.status_rank(Some("Nonsense")), usize::MAX - 1);
    assert_eq!(cfg.status_rank(None), usize::MAX);
}

#[test]
fn filter_matching_is_case_insensitive_and_ands_fields() {
    let f = Filter {
        labels: vec!["frontend".into()],
        statuses: vec!["refine".into()],
        assignees: vec![],
    };
    assert!(f.matches(&item("REFINE", &["FrontEnd"], &[])));
    assert!(!f.matches(&item("Done", &["FrontEnd"], &[])));
    assert!(Filter::default().is_empty());
    assert!(Filter::default().matches(&item("Anything", &[], &[])));
}

#[test]
fn normalizes_remote_url_variants() {
    let cases = [
        ("git@github.com:WhiteWolfStudio/travel-smart.git", "WhiteWolfStudio/travel-smart"),
        ("git@github.com:WhiteWolfStudio/travel-smart", "WhiteWolfStudio/travel-smart"),
        ("https://github.com/WhiteWolfStudio/travel-smart.git", "WhiteWolfStudio/travel-smart"),
        ("https://github.com/WhiteWolfStudio/travel-smart", "WhiteWolfStudio/travel-smart"),
        ("ssh://git@github.com/WhiteWolfStudio/travel-smart.git", "WhiteWolfStudio/travel-smart"),
        ("https://github.com/YasarMahomedAbbas/lazytickets.git", "YasarMahomedAbbas/lazytickets"),
    ];
    for (input, expected) in cases {
        assert_eq!(normalize_remote(input).as_deref(), Some(expected), "input: {input}");
    }
}

#[test]
fn rejects_non_github_remotes() {
    assert_eq!(normalize_remote("git@gitlab.com:owner/repo.git"), None);
    assert_eq!(normalize_remote("https://example.com/owner/repo"), None);
    assert_eq!(normalize_remote(""), None);
    // github.com host but no repo segment.
    assert_eq!(normalize_remote("https://github.com/owner"), None);
}

#[test]
fn normalize_trims_and_rejects_bare_git_suffix() {
    assert_eq!(normalize_remote("  https://github.com//o//r/extra \n").as_deref(), Some("o/r"));
    assert_eq!(normalize_remote("https://github.com/o/.git"), None);
}

#[test]
fn resolves_via_override_then_git_remote() {
    // Empty config → Unknown, carrying the normalised repo.
    let empty = Config::default();
    match resolve(&empty, Some("/r"), Some("/r/sub"), Some("git@github.com:o/r.git")) {
        Resolution::Unknown { repo: Some(r) } => assert_eq!(r, "o/r"),
        _ => panic!("empty config should be Unknown with the repo"),
    }

    // A project listing this repo → matched by git-remote (ignoring case).
    let mut cfg = Config::default();
    cfg.projects.push(ProjectConfig::travel_smart());
    cfg.projects[0].repos = vec!["O/R".into()];
    cfg.projects[0].name = "under-test".into();
    match resolve(&cfg, Some("/r"), Some("/r"), Some("https://github.com/o/r")) {
        Resolution::Project(p) => assert_eq!(p.name, "under-test"),
        _ => panic!("git-remote match should resolve to the project"),
    }

    // A path override wins even without a repos entry.
    let mut cfg = Config::default();
    cfg.projects.push(ProjectConfig::travel_smart());
    cfg.projects[0].name = "override-target".into();
    cfg.projects[0].repos.clear();
    cfg.overrides.push(("/r".into(), "override-target".into()));
    match resolve(&cfg, Some("/r"), Some("/r/sub"), Some("https://github.com/o/r")) {
        Resolution::Project(p) => assert_eq!(p.name, "override-target"),
        _ => panic!("path override should resolve to the project"),
    }
    // An override naming an unknown project falls through.
    cfg.overrides[0].1 = "nobody".into();
    match resolve(&cfg, Some("/r"), None, None) {
        Resolution::Unknown { repo: None } => {}
        _ => panic!("a dangling override resolves to nothing"),
    }
    assert_eq!(repo_at(None), None);
    assert_eq!(repo_at(Some("git@github.com:a/b")).as_deref(), Some("a/b"));
}

#[test]
fn find_project_and_persistence() {
    let mut cfg = Config::default();
    cfg.projects.push(ProjectConfig::travel_smart());
    assert!(cfg.find_project("travel-smart").is_some());
    assert!(cfg.find_project("Travel-Smart").is_none());

    let p = Preset { name: "MINE".into(), includes: Filter::default(), include_parents: true };
    assert_eq!(persist_preset(&mut cfg, "travel-smart", &p, None), Ok(()));
    // Same name (ignoring case) replaces in place.
    assert_eq!(cfg.projects[0].presets.len(), 4);
    assert_eq!(cfg.projects[0].presets[1].name, "MINE");

    let renamed = Preset { name: "renamed".into(), includes: Filter::default(), include_parents: false };
    assert_eq!(persist_preset(&mut cfg, "travel-smart", &renamed, Some("mine")), Ok(()));
    assert_eq!(cfg.projects[0].presets.len(), 4);
    assert!(!cfg.projects[0].presets.iter().any(|p| p.name.eq_ignore_ascii_case("mine")));
    assert_eq!(cfg.projects[0].presets[3].name, "renamed");

    assert_eq!(persist_delete(&mut cfg, "travel-smart", "RENAMED"), Ok(()));
    assert_eq!(cfg.projects[0].presets.len(), 3);
    assert_eq!(persist_delete(&mut cfg, "elsewhere", "all"), Err(ConfigError::ProjectMissing));
    assert_eq!(persist_preset(&mut cfg, "elsewhere", &p, None), Err(ConfigError::ProjectMissing));
}

/// The original's three steps, with the repo facts `git` would report for a
/// checkout of `o/r` at `/work/r`.
#[test]
fn resolves_via_git_remote_and_override() {
    let root = Some("/work/r");
    let cwd = Some("/work/r/src");
    let origin = Some("git@github.com:o/r.git");
    let repo = "o/r".to_string();

    let empty = Config::default();
    match resolve(&empty, root, cwd, origin) {
        Resolution::Unknown { repo: Some(r) } => assert_eq!(r, repo),
        _ => panic!("empty config should be Unknown with the discovered repo"),
    }

    let mut cfg = Config::default();
    cfg.projects.push(ProjectConfig::travel_smart());
    cfg.projects[0].repos = vec![repo.clone()];
    cfg.projects[0].name = "under-test".into();
    match resolve(&cfg, root, cwd, origin) {
        Resolution::Project(p) => assert_eq!(p.name, "under-test"),
        _ => panic!("git-remote match should resolve to the project"),
    }

    let mut cfg = Config::default();
    cfg.projects.push(ProjectConfig::travel_smart());
    cfg.projects[0].name = "override-target".into();
    cfg.projects[0].repos.clear();
    cfg.overrides.push(("/work/r".into(), "override-target".into()));
    match resolve(&cfg, root, cwd, origin) {
        Resolution::Project(p) => assert_eq!(p.name, "override-target"),
        _ => panic!("path override should resolve to the project"),
    }
}

#[test]
fn only_github_com_itself_is_a_github_host() {
    assert_eq!(normalize_remote("git@notgithub.com:owner/repo.git"), None);
    assert_eq!(normalize_remote("https://github.com.evil.io/owner/repo"), None);
    assert_eq!(normalize_remote("https://evil.io/github.com/owner/repo"), None);
    assert_eq!(normalize_remote("github.com:owner/repo"), Some("owner/repo".to_string()));
    assert_eq!(normalize_remote("ssh://git@github.com/owner/repo.git"), Some("owner/repo".to_string()));
    assert_eq!(normalize_remote("https://user@github.com/owner/repo"), Some("owner/repo".to_string()));
}
