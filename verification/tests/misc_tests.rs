use lazytickets::cache::{board_or_fallback, board_path, detail_path, Cached, BOARD_TTL};
use lazytickets::app::App;
use lazytickets::config::schema::ProjectConfig;
use lazytickets::layout::{card_fit, hard_split, header_fit, image_rows, truncate, wrap};
use lazytickets::model::{Item, ParentRef};
use lazytickets::poll::{next_backoff, wait_secs, INTERVAL, MAX_BACKOFF};
use lazytickets::text::first_line;
use lazytickets::worktree::{branch_for, worktree_path};
use std::path::Path;

#[test]
fn freshness_gates_on_age() {
    // A just-now stamp reads as fresh; an epoch-old one as stale — this is the
    // check that decides launch-from-cache vs. refetch.
    let now = std::time::SystemTime::now()
        .duration_since(std::time::UNIX_EPOCH)
        .map(|d| d.as_secs())
        .unwrap_or(0);
    let fresh = Cached { fetched_at: now, value: 7u32 };
    assert_eq!(fresh.value, 7);
    assert!(fresh.age() < BOARD_TTL);

    let stale = Cached { fetched_at: 0, value: 7u32 };
    assert!(stale.age() > BOARD_TTL);
}

#[test]
fn age_at_saturates() {
    let c = Cached { fetched_at: 100, value: () };
    assert_eq!(c.age_at(160), 60);
    assert_eq!(c.age_at(50), 0);
}

#[test]
fn detail_path_is_filesystem_safe() {
    // `owner/name` must not introduce a directory separator into the filename.
    let p = detail_path("WhiteWolfStudio/travel-smart", 226);
    assert_eq!(
        Path::new(&p).file_name().unwrap(),
        "WhiteWolfStudio__travel-smart-226.json"
    );
}

#[test]
fn cache_paths_are_exact() {
    assert_eq!(board_path("acme", 7), "boards/acme-7.json");
    assert_eq!(detail_path("a/b/c", 0), "details/a__b__c-0.json");
}

#[test]
fn branch_name_from_issue() {
    assert_eq!(branch_for(123), "issue-123");
    assert_eq!(branch_for(1), "issue-1");
}

#[test]
fn worktree_is_a_sibling_of_the_repo() {
    let path = worktree_path("/home/dracul/projects/personal/lazyissues", &branch_for(42)).unwrap();
    assert_eq!(Path::new(&path), Path::new("/home/dracul/projects/personal/worktrees/issue-42"));
}

#[test]
fn worktree_path_needs_a_parent() {
    assert_eq!(worktree_path("/", "issue-1"), None);
}

#[test]
fn backoff_doubles_up_to_the_cap() {
    assert_eq!(next_backoff(None), 2 * INTERVAL);
    assert_eq!(next_backoff(Some(2 * INTERVAL)), MAX_BACKOFF);
    assert_eq!(next_backoff(Some(MAX_BACKOFF)), MAX_BACKOFF);
    assert_eq!(next_backoff(Some(100)), 200);
    assert_eq!(wait_secs(None), INTERVAL);
    assert_eq!(wait_secs(Some(5)), 5);
}

#[test]
fn wrap_breaks_on_width_and_keeps_blank_lines() {
    let out = wrap("the quick brown fox", 9);
    assert_eq!(out, vec!["the quick".to_string(), "brown fox".to_string()]);

    // Empty input still occupies one row (paragraph spacing).
    assert_eq!(wrap("", 10).len(), 1);
}

#[test]
fn wrap_hard_splits_overlong_words() {
    let out = wrap("supercalifragilistic", 5);
    assert!(out.len() >= 4, "a 20-char word wraps into 5-col chunks");
    for l in &out {
        assert!(l.chars().count() <= 5);
    }
}

#[test]
fn hard_split_and_truncate_exact() {
    assert_eq!(hard_split("abcdefg", 3), vec!["abc", "def", "g"]);
    assert_eq!(hard_split("", 3), Vec::<String>::new());
    assert_eq!(truncate("hello", 10), ("hello".to_string(), 5));
    assert_eq!(truncate("hello world", 5), ("hell…".to_string(), 5));
    assert_eq!(truncate("hello", 0), (String::new(), 0));
    // A double-width character that doesn't fit is dropped whole.
    assert_eq!(truncate("ab漢字", 4), ("ab…".to_string(), 3));
}

#[test]
fn image_rows_keep_aspect_and_cap() {
    assert_eq!(image_rows(None, 0, 10, 10, 5), 1);
    // 100x100 px at 40 cols with 1:2 cells → 20 rows, capped at 12.
    assert_eq!(image_rows(None, 100, 100, 40, 12), 12);
    assert_eq!(image_rows(Some((8, 16)), 100, 50, 40, 30), 10);
    assert_eq!(image_rows(Some((8, 16)), 1000, 1, 1, 30), 1);
}

/// The titles the live filter `query` keeps, out of `titles`.
fn kept(titles: &[&str], query: &str) -> Vec<String> {
    let items: Vec<Item> = titles
        .iter()
        .enumerate()
        .map(|(k, t)| Item {
            id: format!("id{k}"),
            number: Some(k as u64 + 1),
            title: t.to_string(),
            repository: Some("o/r".into()),
            status: Some("Refine".into()),
            labels: vec![],
            assignees: vec![],
            url: None,
            parent: None,
        })
        .collect();
    let mut app = App::new(items, ProjectConfig::travel_smart());
    app.enter_filter();
    for c in query.chars() {
        app.push_filter(c);
    }
    let mut out: Vec<String> = app.visible.iter().map(|&i| app.items[i].title.clone()).collect();
    out.sort();
    out
}

#[test]
fn fuzzy_accepts_subsequences_with_smart_case() {
    assert_eq!(kept(&["issue 1001", "other"], "1001"), vec!["issue 1001"]);
    assert_eq!(kept(&["Issue", "zzz"], "iss"), vec!["Issue"]);
    assert!(kept(&["issue"], "Iss").is_empty(), "an uppercase letter makes the match case-sensitive");
    assert_eq!(kept(&["abc", "xbd"], "abd"), Vec::<String>::new());
    assert_eq!(kept(&["a-b-d"], "abd"), vec!["a-b-d"], "characters need not be adjacent");
}

#[test]
fn first_line_strips_a_crlf() {
    assert_eq!(first_line("a\r\nb"), "a");
    assert_eq!(first_line("a\r"), "a\r");
}

#[test]
fn item_key_and_label() {
    let it = Item {
        id: "x".into(),
        number: Some(42),
        title: "t".into(),
        repository: Some("o/r".into()),
        status: None,
        labels: vec![],
        assignees: vec![],
        url: None,
        parent: None,
    };
    assert_eq!(it.key(), Some(ParentRef { repository: "o/r".into(), number: 42 }));
    assert_eq!(it.number_label(), "#42");
}

#[test]
fn card_rows_fit_the_title_between_the_clusters() {
    // 30 columns: 8 on the left, 10 on the right, one of gap → 11 for the title.
    let (t, gap) = card_fit(30, 8, 10, "a fairly long ticket title");
    assert_eq!(t, "a fairly l…");
    assert_eq!(gap, 1);
    let (t, gap) = card_fit(30, 8, 10, "short");
    assert_eq!(t, "short");
    assert_eq!(gap, 7);
    let (t, gap) = card_fit(5, 8, 10, "anything");
    assert_eq!(t, "");
    assert_eq!(gap, 1);
}

#[test]
fn group_headers_fit_the_name_and_rule() {
    let (name, rule) = header_fit(30, 1, "In progress");
    assert_eq!(name, "In progress");
    assert_eq!(rule, 30 - (2 + 2 + 11 + 1 + 1 + 1));
    let (name, rule) = header_fit(10, 2, "Ready To Implement");
    assert_eq!(name, "Rea…");
    assert_eq!(rule, 0);
}

#[test]
fn a_very_tall_image_is_capped_not_wrapped() {
    // 65536 rows before the cap: still capped to 40, never wrapped to 0.
    assert_eq!(image_rows(None, 1, 131072, 1, 40), 40);
}

#[test]
fn a_failed_fetch_falls_back_to_any_snapshot() {
    assert_eq!(board_or_fallback::<u32, &str>(Ok(1), Some(2)), Ok(1));
    assert_eq!(board_or_fallback::<u32, &str>(Err("down"), Some(2)), Ok(2));
    assert_eq!(board_or_fallback::<u32, &str>(Err("down"), None), Err("down"));
    let c = Cached { fetched_at: 100, value: () };
    assert!(c.fresh_at(100 + BOARD_TTL - 1, BOARD_TTL));
    assert!(!c.fresh_at(100 + BOARD_TTL, BOARD_TTL));
}
