use lazytickets::gh::issue::{author_or_ghost, issue_number_from_url};
use lazytickets::gh::project::{fold_nodes, next_cursor, stitch_parents, LinkNode};
use lazytickets::gh::scope::scopes;
use lazytickets::gh::write::{StatusField, StatusOption};
use lazytickets::gh::{is_rate_limit, one_line, rate_limit_message};
use lazytickets::model::{Item, ParentRef};

#[test]
fn classifies_rate_limit_errors() {
    // The shape a `gh` run produces on a limited board.
    let e = anyhow::Error::msg(
        "`gh project item-list 3` failed: GraphQL: API rate limit exceeded for user ID 11193066",
    );
    assert!(is_rate_limit(&e));
    assert!(is_rate_limit(&anyhow::Error::msg("You have exceeded a secondary rate limit")));
    assert!(is_rate_limit(&anyhow::Error::msg("triggered an abuse detection mechanism")));
    // Unrelated failures must not be mistaken for a limit (they retry normally).
    assert!(!is_rate_limit(&anyhow::Error::msg("could not resolve host github.com")));
}

#[test]
fn rate_limit_matching_ignores_case() {
    assert!(rate_limit_message("RATE LIMIT hit"));
    assert!(rate_limit_message("Abuse Detection"));
    assert!(!rate_limit_message("rate-limit"));
}

#[test]
fn one_line_keeps_the_first_line() {
    assert_eq!(one_line(&anyhow::Error::msg("first\r\nsecond")), "first");
    assert_eq!(one_line(&anyhow::Error::msg("only")), "only");
    assert_eq!(one_line(&anyhow::Error::msg("")), "");
}

#[test]
fn read_project_is_not_project() {
    // read:project must NOT be mistaken for the write scope.
    let text = "  - Token scopes: 'gist', 'read:org', 'read:project', 'repo', 'workflow'";
    let s = scopes(text);
    assert!(s.iter().any(|x| x == "read:project"));
    assert!(!s.iter().any(|x| x == "project"));
}

#[test]
fn detects_project_scope() {
    let text = "  - Token scopes: 'gist', 'project', 'read:project', 'repo'";
    assert!(scopes(text).iter().any(|x| x == "project"));
}

#[test]
fn no_scopes_line() {
    assert!(scopes("not logged in").is_empty());
}

#[test]
fn scopes_come_from_the_first_scopes_line_in_order() {
    let text = "github.com\n  ✓ Logged in\n  - Token scopes: 'a', 'b'\r\n  - Token scopes: 'c'\n";
    assert_eq!(scopes(text), vec!["a".to_string(), "b".to_string()]);
}

#[test]
fn parses_issue_number_from_created_url() {
    assert_eq!(issue_number_from_url("https://github.com/o/r/issues/365"), Some(365));
    assert_eq!(issue_number_from_url("https://github.com/o/r/issues/12/"), Some(12));
    assert_eq!(issue_number_from_url("https://github.com/o/r/pull/9"), Some(9));
    assert_eq!(issue_number_from_url("not-a-url"), None);
}

#[test]
fn issue_number_edge_cases() {
    assert_eq!(issue_number_from_url("7"), Some(7));
    assert_eq!(issue_number_from_url("https://x/issues/+8"), Some(8));
    assert_eq!(issue_number_from_url("https://x/issues/18446744073709551616"), None);
    assert_eq!(issue_number_from_url("///"), None);
}

#[test]
fn deleted_authors_read_as_ghost() {
    assert_eq!(author_or_ghost(String::new()), "ghost");
    assert_eq!(author_or_ghost("octocat".into()), "octocat");
}

fn card(number: u64, repo: &str) -> Item {
    Item {
        id: format!("#{number}"),
        number: Some(number),
        title: format!("issue {number}"),
        repository: Some(repo.into()),
        status: None,
        labels: vec![],
        assignees: vec![],
        url: None,
        parent: None,
    }
}

fn key(number: u64) -> ParentRef {
    ParentRef { repository: "o/r".into(), number }
}

#[test]
fn stitching_sets_parents_from_the_last_link() {
    let mut items = vec![card(1, "o/r"), card(2, "o/r"), card(3, "other/r")];
    items[0].parent = Some(key(99));
    let links = vec![(key(2), key(5)), (key(2), key(1)), (key(3), key(1))];
    stitch_parents(&mut items, &links);
    assert_eq!(items[0].parent, None, "no link: parent cleared");
    assert_eq!(items[1].parent, Some(key(1)), "a later link wins");
    assert_eq!(items[2].parent, None, "links are keyed by repo too");
}

#[test]
fn status_option_lookup_is_case_insensitive() {
    let f = StatusField {
        project_id: "P".into(),
        field_id: "F".into(),
        options: vec![
            StatusOption { id: "1".into(), name: "Todo".into() },
            StatusOption { id: "2".into(), name: "Done".into() },
            StatusOption { id: "3".into(), name: "done".into() },
        ],
    };
    assert_eq!(f.option_id("DONE"), Some("2"));
    assert_eq!(f.option_id("nope"), None);
    assert_eq!(f.names(), vec!["Todo".to_string(), "Done".to_string(), "done".to_string()]);
}

fn pref(number: u64) -> ParentRef {
    ParentRef { repository: "o/r".into(), number }
}

#[test]
fn sub_issue_pages_fold_complete_nodes_only() {
    let nodes = vec![
        LinkNode { number: Some(1004), repository: Some("o/r".into()), parent: Some(pref(1002)) },
        LinkNode { number: Some(423), repository: Some("o/r".into()), parent: None },
        LinkNode { number: None, repository: Some("o/r".into()), parent: Some(pref(1)) },
        LinkNode { number: Some(1001), repository: Some("o/r".into()), parent: Some(pref(999)) },
    ];
    let mut links = vec![(pref(7), pref(6))];
    fold_nodes(&nodes, &mut links);
    assert_eq!(links, vec![(pref(7), pref(6)), (pref(1004), pref(1002)), (pref(1001), pref(999))]);
    assert_eq!(next_cursor(true, Some("abc".into())).as_deref(), Some("abc"));
    assert_eq!(next_cursor(false, Some("abc".into())), None);
}
