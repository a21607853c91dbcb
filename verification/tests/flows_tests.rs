use lazytickets::app::{App, CreateDraft, FilterDraft, Modal};
use lazytickets::config::schema::ProjectConfig;
use lazytickets::flows::{
    bootstrap_summary, create_submission, join_strings, launch_line, name_position, needs_flip,
    prompt_to_send, same_items, shell_escaped, start_notes, start_target, status_pick_index,
    window_listed, DetailTarget, StartRefusal,
};
use lazytickets::gh::issue::{created_issue, CreateError, IssueDetail};
use lazytickets::app::InputMode;
use lazytickets::keys::{board_command, BoardCommand, Key, Outcome, PickerCommand};
use lazytickets::model::Item;

fn item(id: &str, number: Option<u64>, status: &str) -> Item {
    Item {
        id: id.into(),
        number,
        title: format!("title {id}"),
        repository: number.map(|_| "o/r".to_string()),
        status: Some(status.into()),
        labels: vec![],
        assignees: vec![],
        url: None,
        parent: None,
    }
}

fn detail(title: &str) -> IssueDetail {
    IssueDetail {
        title: title.into(),
        body: String::new(),
        state: "OPEN".into(),
        labels: vec![],
        url: String::new(),
        comments: vec![],
    }
}

/// A board whose cursor sits on its only card.
fn one_card(number: Option<u64>, skill: Option<&str>) -> App {
    let mut cfg = ProjectConfig::travel_smart();
    cfg.skill.start = skill.map(str::to_string);
    let mut app = App::new(vec![item("a", number, "Refine")], cfg);
    app.next();
    app
}

#[test]
fn start_target_refuses_headers_drafts_and_missing_skills() {
    let app = one_card(Some(7), Some("pickup"));
    assert_eq!(
        start_target(&app),
        Ok(("a".to_string(), 7, "pickup".to_string()))
    );
    assert_eq!(start_target(&one_card(None, Some("pickup"))), Err(StartRefusal::Draft));
    assert_eq!(start_target(&one_card(Some(7), None)), Err(StartRefusal::NoSkill));
    let mut on_header = one_card(Some(7), Some("pickup"));
    on_header.prev();
    assert_eq!(start_target(&on_header), Err(StartRefusal::NoSelection));
}

#[test]
fn bootstrap_preview_counts_seeds_and_joins_setup() {
    let copy = vec![".env".to_string(), "secrets.json".to_string()];
    let setup = vec!["npm ci".to_string(), "make db".to_string()];
    assert_eq!(
        bootstrap_summary(&copy, &setup).as_deref(),
        Some("seed 2 file(s)  ·  npm ci && make db")
    );
    assert_eq!(bootstrap_summary(&copy, &vec![]).as_deref(), Some("seed 2 file(s)"));
    assert_eq!(bootstrap_summary(&vec![], &setup).as_deref(), Some("npm ci && make db"));
    assert_eq!(bootstrap_summary(&vec![], &vec![]), None);
}

#[test]
fn start_notes_list_what_happened() {
    assert_eq!(
        start_notes(true, 3, true, true),
        " · fetched base · seeded 3 file(s) · running setup · moved to In progress"
    );
    assert_eq!(start_notes(false, 0, false, true), " · moved to In progress");
    assert_eq!(start_notes(false, 0, false, false), "");
}

#[test]
fn join_strings_puts_the_separator_between() {
    let parts = vec!["a".to_string(), "b".to_string(), "c".to_string()];
    assert_eq!(join_strings(&parts, ", "), "a, b, c");
    assert_eq!(join_strings(&vec![], ", "), "");
}

#[test]
fn the_prompt_sent_is_trimmed_and_never_blank() {
    let mut m = Modal::Confirm {
        item_id: "a".into(),
        issue: 7,
        skill: "s".into(),
        session: "x".into(),
        prompt: "  go  ".into(),
        editing: false,
    };
    assert_eq!(prompt_to_send(&m).as_deref(), Some("go"));
    if let Some(p) = m.prompt_mut() {
        p.clear();
        p.push_str("   ");
    }
    assert_eq!(prompt_to_send(&m), None);
    assert_eq!(prompt_to_send(&Modal::Help), None);
}

fn create_form(title: &str, label_idx: usize, status_idx: usize) -> Modal {
    Modal::Create(CreateDraft {
        repo: "o/r".into(),
        title: title.into(),
        body: "body".into(),
        labels: vec!["Frontend".into(), "Backend".into()],
        label_idx,
        statuses: vec!["Refine".into()],
        status_idx,
        focus: 4,
    })
}

#[test]
fn create_submission_needs_a_title() {
    let s = create_submission(&create_form("  Fix it ", 2, 1)).expect("titled form submits");
    assert_eq!(s.repo, "o/r");
    assert_eq!(s.title, "Fix it");
    assert_eq!(s.body, "body");
    assert_eq!(s.labels, vec!["Backend".to_string()]);
    assert_eq!(s.status.as_deref(), Some("Refine"));

    let s = create_submission(&create_form("x", 0, 0)).unwrap();
    assert!(s.labels.is_empty());
    assert_eq!(s.status, None);

    assert!(create_submission(&create_form("   ", 1, 1)).is_none());
    assert!(create_submission(&Modal::Closed).is_none());
}

#[test]
fn committing_the_filter_builder_saves_and_closes() {
    let mut app = one_card(Some(1), None);
    let before = app.preset_count();
    app.modal = Modal::FilterBuild(FilterDraft {
        name: "  ".into(),
        statuses: vec![("Refine".into(), true)],
        labels: vec![],
        assignees: vec![],
        grouping: FilterDraft::grouping_row(false),
        focus: 0,
        original: None,
    });
    assert!(app.commit_filter().is_none(), "a blank name keeps the builder open");
    assert!(matches!(app.modal, Modal::FilterBuild(_)));

    if let Modal::FilterBuild(d) = &mut app.modal {
        d.name = "refining".into();
    }
    let (preset, replacing) = app.commit_filter().expect("named draft commits");
    assert_eq!(preset.name, "refining");
    assert_eq!(replacing, None);
    assert!(matches!(app.modal, Modal::Closed));
    assert_eq!(app.preset_count(), before + 1);
    assert_eq!(app.preset_name(app.active_preset), "refining");
}

#[test]
fn deleting_a_preset_confirms_then_removes() {
    let mut app = one_card(Some(1), None);
    let count = app.preset_count();
    assert!(count > 1);
    let name = app.preset_name(app.active_preset).to_string();
    app.begin_delete_preset();
    match &app.modal {
        Modal::ConfirmDelete { index, name: n } => {
            assert_eq!(*index, app.active_preset);
            assert_eq!(n, &name);
        }
        _ => panic!("a confirm should open"),
    }
    assert_eq!(app.commit_delete(), Some(name));
    assert!(matches!(app.modal, Modal::Closed));
    assert_eq!(app.preset_count(), count - 1);
    assert_eq!(app.commit_delete(), None, "no confirm open");
}

#[test]
fn the_last_preset_cannot_be_deleted() {
    let mut app = one_card(Some(1), None);
    while app.preset_count() > 1 {
        app.begin_delete_preset();
        app.commit_delete();
    }
    app.begin_delete_preset();
    assert!(matches!(app.modal, Modal::Message(_)));
}

#[test]
fn snapshots_are_adopted_only_for_this_board_when_changed() {
    let mut app = one_card(Some(7), None);
    let owner = app.config.board.owner.clone();
    let number = app.config.board.number;
    let same = app.items.clone();
    assert!(!app.adopt_snapshot(&owner, number, same), "nothing new");
    let mut changed = app.items.clone();
    changed.push(item("b", Some(8), "Refine"));
    assert!(!app.adopt_snapshot("someone-else", number, changed.clone()));
    assert!(!app.adopt_snapshot(&owner, number + 1, changed.clone()));
    assert!(app.adopt_snapshot(&owner, number, changed));
    assert_eq!(app.items.len(), 2);
    assert_eq!(app.selected().map(|i| i.id.as_str()), Some("a"), "selection kept");
}

#[test]
fn same_items_compares_field_for_field() {
    let a = vec![item("a", Some(1), "Refine")];
    let mut b = a.clone();
    assert!(same_items(&a, &b));
    b[0].labels.push("x".into());
    assert!(!same_items(&a, &b));
    assert!(!same_items(&a, &vec![]));
}

#[test]
fn status_mover_starts_on_the_current_status() {
    let options = vec!["Refine".to_string(), "In progress".to_string(), "Done".to_string()];
    assert_eq!(status_pick_index(&options, &Some("in PROGRESS".into())), 1);
    assert_eq!(status_pick_index(&options, &Some("Gone".into())), 0);
    assert_eq!(status_pick_index(&options, &None), 0);
}

#[test]
fn project_switcher_starts_on_the_current_project() {
    let names = vec!["a".to_string(), "b".to_string(), "b".to_string()];
    assert_eq!(name_position(&names, "b"), 1);
    assert_eq!(name_position(&names, "B"), 0, "exact match only");
    assert_eq!(name_position(&names, "zzz"), 0);
}

#[test]
fn flip_is_skipped_when_already_in_progress() {
    assert!(!needs_flip(&Some("in progress".into())));
    assert!(needs_flip(&Some("Refine".into())));
    assert!(needs_flip(&None));
}

#[test]
fn detail_target_follows_the_selection() {
    let app = one_card(Some(7), None);
    match app.detail_target() {
        DetailTarget::Fetch { id, number, repo } => {
            assert_eq!(id, "a");
            assert_eq!(number, 7);
            assert_eq!(repo, "o/r");
        }
        other => panic!("expected a fetch, got {other:?}"),
    }
    assert!(matches!(one_card(None, None).detail_target(), DetailTarget::Draft));
    let mut header = one_card(Some(7), None);
    header.prev();
    assert!(matches!(header.detail_target(), DetailTarget::Nothing));
}

#[test]
fn the_detail_cache_replaces_by_card() {
    let mut app = one_card(Some(7), None);
    assert!(app.cached_detail("a").is_none());
    app.remember_detail("a".into(), detail("first"));
    app.remember_detail("b".into(), detail("other"));
    app.remember_detail("a".into(), detail("second"));
    assert_eq!(app.detail_cache.len(), 2);
    assert_eq!(app.cached_detail("a").map(|d| d.title.as_str()), Some("second"));
    assert_eq!(app.cached_detail("b").map(|d| d.title.as_str()), Some("other"));
}

#[test]
fn shell_escaping_guards_quotes_dollars_and_backslashes() {
    assert_eq!(shell_escaped(r#"echo "$HOME\x""#), r#"echo \"\$HOME\\x\""#);
    assert_eq!(shell_escaped("plain"), "plain");
}

#[test]
fn the_launch_line_runs_setup_first() {
    assert_eq!(launch_line(&vec![], "agent", "do it"), r#"agent "do it""#);
    let setup = vec!["npm ci".to_string(), "echo \"$X\"".to_string()];
    assert_eq!(
        launch_line(&setup, "agent", "go"),
        r#"sh -c "npm ci && echo \"\$X\"" ; agent "go""#
    );
}

#[test]
fn window_listing_matches_whole_lines() {
    assert!(window_listed("zsh\nagent\r\nlogs", "agent"));
    assert!(window_listed("zsh\nagent", "agent"));
    assert!(!window_listed("zsh\nagents\n", "agent"));
    assert!(!window_listed("", "agent"));
}

#[test]
fn created_issue_reads_the_last_issue_url() {
    let out = "Creating issue in o/r\n\nhttps://github.com/o/r/issues/365\n";
    let c = created_issue(out).expect("a URL line");
    assert_eq!(c.url, "https://github.com/o/r/issues/365");
    assert_eq!(c.number, 365);
    let two = "  https://github.com/o/r/issues/1 \r\nhttps://github.com/o/r/issues/2/\r\n";
    let c = created_issue(two).unwrap();
    assert_eq!(c.url, "https://github.com/o/r/issues/2/");
    assert_eq!(c.number, 2);
    assert_eq!(created_issue("no url here").err(), Some(CreateError::NoUrl));
    assert_eq!(
        created_issue("https://github.com/o/r/issues/abc").err(),
        Some(CreateError::NoNumber)
    );
}

#[test]
fn filter_builder_keys_edit_the_name_and_toggle_options() {
    let mut d = FilterDraft {
        name: String::new(),
        statuses: vec![("Refine".into(), false)],
        labels: vec![("Frontend".into(), false)],
        assignees: vec![],
        grouping: FilterDraft::grouping_row(false),
        focus: 0,
        original: None,
    };
    assert_eq!(d.on_key(Key::Char('j', false)), Outcome::Continue);
    assert_eq!(d.name, "j", "printable keys type on the name row");
    assert_eq!(d.on_key(Key::Backspace), Outcome::Continue);
    assert_eq!(d.name, "");
    d.on_key(Key::Down);
    assert_eq!(d.focus, 1);
    d.on_key(Key::Char(' ', false));
    assert!(d.statuses[0].1);
    d.on_key(Key::Char('j', false));
    assert_eq!(d.focus, 2);
    d.on_key(Key::Char('k', false));
    assert_eq!(d.focus, 1);
    assert_eq!(d.on_key(Key::Enter), Outcome::Submit);
    assert_eq!(d.on_key(Key::Esc), Outcome::Close);
}

#[test]
fn create_form_keys_type_cycle_and_submit() {
    let mut d = CreateDraft {
        repo: "o/r".into(),
        title: String::new(),
        body: String::new(),
        labels: vec!["Frontend".into()],
        label_idx: 0,
        statuses: vec!["Refine".into()],
        status_idx: 0,
        focus: 0,
    };
    d.on_key(Key::Char('h', false));
    d.on_key(Key::Char('i', false));
    assert_eq!(d.title, "hi");
    assert_eq!(d.on_key(Key::Enter), Outcome::Continue, "Enter advances from the title");
    assert_eq!(d.focus, 1);
    d.on_key(Key::Char('a', false));
    d.on_key(Key::Enter);
    assert_eq!(d.body, "a\n", "Enter is a newline in the description");
    d.on_key(Key::Tab);
    d.on_key(Key::Char('l', false));
    assert_eq!(d.chosen_label(), Some("Frontend"));
    d.on_key(Key::Tab);
    d.on_key(Key::Right);
    assert_eq!(d.chosen_status(), Some("Refine"));
    d.on_key(Key::Tab);
    assert_eq!(d.focus, CreateDraft::FOCUS_MAX);
    assert_eq!(d.on_key(Key::Enter), Outcome::Submit);
    assert_eq!(d.on_key(Key::Esc), Outcome::Close);
}

#[test]
fn confirm_keys_start_edit_and_close() {
    let mut m = Modal::Confirm {
        item_id: "a".into(),
        issue: 7,
        skill: "s".into(),
        session: "x".into(),
        prompt: "go".into(),
        editing: false,
    };
    assert_eq!(m.on_confirm_key(Key::Char('y', false)), Outcome::Submit);
    assert_eq!(m.on_confirm_key(Key::Char('e', false)), Outcome::Continue);
    assert!(m.is_editing_prompt());
    m.on_confirm_key(Key::Char('y', false));
    assert_eq!(prompt_to_send(&m).as_deref(), Some("goy"), "y types while editing");
    m.on_confirm_key(Key::Backspace);
    m.on_confirm_key(Key::Char('u', true));
    assert_eq!(prompt_to_send(&m), None, "Ctrl+U clears");
    assert_eq!(m.on_confirm_key(Key::Esc), Outcome::Continue);
    assert!(!m.is_editing_prompt());
    assert_eq!(m.on_confirm_key(Key::Char('q', false)), Outcome::Close);
    assert_eq!(m.on_confirm_key(Key::Enter), Outcome::Submit);
}

#[test]
fn the_board_keymap() {
    let n = InputMode::Normal;
    assert_eq!(board_command(n, Key::Char('q', false)), BoardCommand::Quit);
    assert_eq!(board_command(n, Key::Char('j', false)), BoardCommand::Next);
    assert_eq!(board_command(n, Key::Down), BoardCommand::Next);
    assert_eq!(board_command(n, Key::Up), BoardCommand::Prev);
    assert_eq!(board_command(n, Key::Char(']', false)), BoardCommand::GroupNext);
    assert_eq!(board_command(n, Key::Char('h', false)), BoardCommand::GroupPrev);
    assert_eq!(board_command(n, Key::Char('Z', false)), BoardCommand::FoldAll);
    assert_eq!(board_command(n, Key::Tab), BoardCommand::PresetNext);
    assert_eq!(board_command(n, Key::Char('H', false)), BoardCommand::PresetPrev);
    assert_eq!(board_command(n, Key::Char('1', false)), BoardCommand::Preset(0));
    assert_eq!(board_command(n, Key::Char('9', false)), BoardCommand::Preset(8));
    assert_eq!(board_command(n, Key::Char('0', false)), BoardCommand::Ignore);
    assert_eq!(board_command(n, Key::Char('d', true)), BoardCommand::HalfPage(1));
    assert_eq!(board_command(n, Key::Char('u', true)), BoardCommand::HalfPage(-1));
    assert_eq!(board_command(n, Key::Char('d', false)), BoardCommand::DeletePreset);
    assert_eq!(board_command(n, Key::Char('K', false)), BoardCommand::Scroll(-2));
    assert_eq!(board_command(n, Key::PageDown), BoardCommand::Scroll(12));
    assert_eq!(board_command(n, Key::Char('s', false)), BoardCommand::StartWork);
    assert_eq!(board_command(n, Key::Char('t', false)), BoardCommand::WorktreeStart);
    assert_eq!(board_command(n, Key::Char('?', false)), BoardCommand::Help);
    assert_eq!(board_command(n, Key::Esc), BoardCommand::Ignore);

    let f = InputMode::Filter;
    assert_eq!(board_command(f, Key::Char('q', false)), BoardCommand::PushFilter('q'));
    assert_eq!(board_command(f, Key::Esc), BoardCommand::CancelFilter);
    assert_eq!(board_command(f, Key::Enter), BoardCommand::ConfirmFilter);
    assert_eq!(board_command(f, Key::Backspace), BoardCommand::PopFilter);
    assert_eq!(board_command(f, Key::Down), BoardCommand::Ignore);
}

#[test]
fn picker_keys_move_choose_and_close() {
    let mover = Modal::StatusMove { item_id: "a".into(), options: vec!["x".into()], selected: 0 };
    assert_eq!(mover.picker_command(Key::Char('j', false)), PickerCommand::Move(1));
    assert_eq!(mover.picker_command(Key::Up), PickerCommand::Move(-1));
    assert_eq!(mover.picker_command(Key::Enter), PickerCommand::Choose);
    assert_eq!(mover.picker_command(Key::Char('y', false)), PickerCommand::Ignore);
    assert_eq!(mover.picker_command(Key::Char('n', false)), PickerCommand::Close);
    let delete = Modal::ConfirmDelete { index: 0, name: "p".into() };
    assert_eq!(delete.picker_command(Key::Char('y', false)), PickerCommand::Choose);
    assert_eq!(delete.picker_command(Key::Esc), PickerCommand::Close);
}

#[test]
fn cycling_a_choice_there_and_back_restores_it() {
    let mut d = CreateDraft {
        repo: "o/r".into(),
        title: String::new(),
        body: String::new(),
        labels: vec!["a".into(), "b".into(), "c".into()],
        label_idx: 1,
        statuses: vec![],
        status_idx: 0,
        focus: 2,
    };
    d.cycle_label(5);
    assert_eq!(d.label_idx, 2, "(1 + 5) mod 4");
    d.cycle_label(-5);
    assert_eq!(d.label_idx, 1);
    d.cycle_label(-3);
    assert_eq!(d.label_idx, 2, "(1 - 3) wraps Euclidean-style");
}
