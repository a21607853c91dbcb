use lazytickets::app::{App, CreateDraft, FilterDraft, Group, Modal, Row};
use lazytickets::config::schema::{Filter, Preset, ProjectConfig};
use lazytickets::gh::issue::IssueDetail;
use lazytickets::model::{Item, ParentRef};

/// A board card, with `#number` doubling as the id so assertions read as
/// issue numbers.
fn card(number: u64, status: &str, labels: &[&str], parent: Option<u64>) -> Item {
    Item {
        id: format!("#{number}"),
        number: Some(number),
        title: format!("issue {number}"),
        repository: Some("o/r".into()),
        status: Some(status.into()),
        labels: labels.iter().map(|s| s.to_string()).collect(),
        assignees: vec![],
        url: None,
        parent: parent.map(|n| ParentRef { repository: "o/r".into(), number: n }),
    }
}

/// The visible rows as `#number`, with nested rows prefixed `└`.
fn rows(app: &App) -> Vec<String> {
    app.visible
        .iter()
        .map(|&i| {
            let n = app.items[i].number.unwrap();
            if app.nested.contains(&i) {
                format!("└#{n}")
            } else {
                format!("#{n}")
            }
        })
        .collect()
}

/// A `documentation` parent whose Frontend/Backend work lives in sub-issues,
/// alongside a standalone Frontend ticket.
fn parent_board() -> App {
    let mut cfg = ProjectConfig::travel_smart();
    cfg.presets = vec![Preset {
        name: "frontend".into(),
        includes: Filter {
            labels: vec!["Frontend".into()],
            statuses: vec!["Ready To Implement".into(), "In progress".into()],
            ..Default::default()
        },
        include_parents: true,
    }];
    let items = vec![
        card(1002, "Ready To Implement", &["documentation"], None),
        card(1003, "Ready To Implement", &["Backend"], Some(1002)),
        card(1004, "In progress", &["Frontend"], Some(1002)),
        card(1010, "Ready To Implement", &["Frontend"], None),
        card(999, "In progress", &[], None),
        card(1001, "Ready To Implement", &["Frontend"], Some(999)),
    ];
    App::new(items, cfg)
}

#[test]
fn parents_of_matching_sub_issues_are_pulled_in_and_grouped() {
    let app = parent_board();
    assert_eq!(rows(&app), vec!["#1010", "#1002", "└#1004", "#999", "└#1001"]);
}

#[test]
fn roll_up_is_off_without_include_parents() {
    let mut app = parent_board();
    app.config.presets[0].include_parents = false;
    app.recompute(None);
    assert_eq!(rows(&app), vec!["#1010", "#1001", "#1004"]);
    assert!(app.nested.is_empty());
}

#[test]
fn an_excluded_parent_leaves_its_child_top_level() {
    let mut app = parent_board();
    app.items[0].status = Some("Done".into());
    app.recompute(None);
    assert_eq!(rows(&app), vec!["#1010", "#1004", "#999", "└#1001"]);
}

#[test]
fn a_child_whose_parent_is_off_the_board_stays_top_level() {
    let mut app = parent_board();
    app.items[3].parent = Some(ParentRef { repository: "o/r".into(), number: 772 });
    app.recompute(None);
    assert_eq!(rows(&app), vec!["#1010", "#1002", "└#1004", "#999", "└#1001"]);
}

#[test]
fn nesting_stops_at_one_level() {
    let mut app = parent_board();
    app.items[4].parent = Some(ParentRef { repository: "o/r".into(), number: 1002 });
    app.recompute(None);
    assert_eq!(rows(&app), vec!["#1010", "#1002", "└#1004", "#999", "└#1001"]);
}

#[test]
fn the_fuzzy_query_still_pulls_in_parents() {
    let mut app = parent_board();
    app.filter_query = "1001".into();
    app.recompute(None);
    assert_eq!(rows(&app), vec!["#999", "└#1001"]);
}

/// The rendered rows: `▾ Status` / `▸ Status` for headers, `#n` for cards.
fn layout(app: &App) -> Vec<String> {
    app.rows
        .iter()
        .map(|r| match *r {
            Row::Header(g) => {
                let g = &app.groups[g];
                let fold = if g.collapsed { "▸" } else { "▾" };
                format!("{fold} {} ({})", g.name, g.count)
            }
            Row::Item(i) => format!("#{}", app.items[i].number.unwrap()),
        })
        .collect()
}

#[test]
fn rows_are_cut_into_status_groups_with_headers() {
    let app = parent_board();
    assert_eq!(
        layout(&app),
        vec![
            "▾ Ready To Implement (3)",
            "#1010",
            "#1002",
            "#1004",
            "▾ In progress (2)",
            "#999",
            "#1001",
        ]
    );
    assert_eq!(app.selected().map(|i| i.number), Some(Some(1010)));
}

#[test]
fn folding_a_group_hides_its_cards_and_parks_the_cursor_on_the_header() {
    let mut app = parent_board();
    app.selected = Some(2); // #1002
    assert!(app.toggle_group(), "selection moved to the header");
    assert_eq!(
        layout(&app),
        vec!["▸ Ready To Implement (3)", "▾ In progress (2)", "#999", "#1001"]
    );
    assert_eq!(app.selected_row(), Some(Row::Header(0)));
    assert!(app.selected().is_none(), "a header is not a card");
    assert_eq!(app.selected_group().map(|g| g.name.as_str()), Some("Ready To Implement"));

    app.recompute(None);
    assert_eq!(app.rows.len(), 4);
    app.selected = Some(0);
    app.toggle_group();
    assert_eq!(app.rows.len(), 7);
}

#[test]
fn a_kept_card_inside_a_folded_group_selects_the_header() {
    let mut app = parent_board();
    app.collapsed.push(Group::key(Some("In progress")));
    app.recompute(Some("#1001".into()));
    assert_eq!(app.selected_row(), Some(Row::Header(1)));
}

#[test]
fn h_and_l_jump_between_group_headers() {
    let mut app = parent_board();
    app.selected = Some(3); // #1004
    assert!(app.jump_group(-1));
    assert_eq!(app.selected_row(), Some(Row::Header(0)));
    assert!(!app.jump_group(-1), "already at the first group");

    assert!(app.jump_group(1));
    assert_eq!(app.selected_row(), Some(Row::Header(1)));
    assert!(!app.jump_group(1), "no group after the last");

    app.selected = Some(1); // #1010
    assert!(app.jump_group(1));
    assert_eq!(app.selected_row(), Some(Row::Header(1)));
}

#[test]
fn toggle_all_folds_everything_then_unfolds() {
    let mut app = parent_board();
    app.toggle_all_groups();
    assert!(app.groups.iter().all(|g| g.collapsed));
    assert_eq!(app.rows.len(), 2);
    app.toggle_all_groups();
    assert!(app.groups.iter().all(|g| !g.collapsed));
}

#[test]
fn unknown_statuses_still_form_separate_groups() {
    let mut cfg = ProjectConfig::travel_smart();
    cfg.status_order.clear();
    cfg.exclude_statuses.clear();
    let items = vec![card(1, "Zeta", &[], None), card(2, "Alpha", &[], None), card(3, "Zeta", &[], None)];
    let app = App::new(items, cfg);
    assert_eq!(layout(&app), vec!["▾ Alpha (1)", "#2", "▾ Zeta (2)", "#1", "#3"]);
}

#[test]
fn children_map_covers_the_whole_board() {
    let app = parent_board();
    let kids: Vec<u64> = app.children_of(0).iter().map(|&k| app.items[k].number.unwrap()).collect();
    assert_eq!(kids, vec![1003, 1004]);
    assert_eq!(app.parent_of(&app.items[1]), Some(0));
    assert_eq!(app.parent_of(&app.items[3]), None);
}

fn item(id: &str, status: &str) -> Item {
    Item {
        id: id.into(),
        number: Some(1),
        title: format!("t{id}"),
        repository: Some("o/r".into()),
        status: Some(status.into()),
        labels: vec![],
        assignees: vec![],
        url: None,
        parent: None,
    }
}

#[test]
fn optimistic_status_update_and_revert() {
    let items = vec![item("a", "Refine"), item("b", "In progress")];
    let mut app = App::new(items, ProjectConfig::travel_smart());

    let old = app.set_item_status("a", Some("Done".into()));
    assert_eq!(old.as_deref(), Some("Refine"));
    assert_eq!(app.item_status("a").as_deref(), Some("Done"));

    app.set_item_status("a", old);
    assert_eq!(app.item_status("a").as_deref(), Some("Refine"));

    assert_eq!(app.set_item_status("missing", Some("x".into())), None);
}

#[test]
fn create_draft_cycles_optional_choices_and_clamps_focus() {
    let mut d = CreateDraft {
        repo: "o/r".into(),
        title: String::new(),
        body: String::new(),
        labels: vec!["Frontend".into(), "Backend".into()],
        label_idx: 0,
        statuses: vec!["Refine".into()],
        status_idx: 0,
        focus: 0,
    };
    assert_eq!(d.chosen_label(), None);
    assert_eq!(d.status_display(), "(none)");

    d.cycle_label(1);
    assert_eq!(d.chosen_label(), Some("Frontend"));
    d.cycle_label(1);
    assert_eq!(d.chosen_label(), Some("Backend"));
    d.cycle_label(1);
    assert_eq!(d.chosen_label(), None, "wraps back to none");
    d.cycle_label(-1);
    assert_eq!(d.chosen_label(), Some("Backend"));

    d.cycle_status(1);
    assert_eq!(d.chosen_status(), Some("Refine"));

    d.move_focus(-1);
    assert_eq!(d.focus, 0);
    d.move_focus(99);
    assert_eq!(d.focus, CreateDraft::FOCUS_MAX);
}

#[test]
fn open_create_seeds_repo_and_options() {
    let mut app = App::new(vec![item("a", "Refine")], ProjectConfig::travel_smart());
    assert!(app.open_create(), "a configured repo lets the form open");
    match &app.modal {
        Modal::Create(d) => {
            assert_eq!(d.repo, "WhiteWolfStudio/travel-smart");
            assert_eq!(d.statuses.first().map(String::as_str), Some("Refine"));
        }
        _ => panic!("create modal should be open"),
    }
}

#[test]
fn filter_draft_builds_preset_from_checked_options() {
    let mut draft = FilterDraft {
        name: "   ".into(),
        statuses: vec![("Refine".into(), true), ("Done".into(), false)],
        labels: vec![("Frontend".into(), true)],
        assignees: vec![("me".into(), false)],
        grouping: FilterDraft::grouping_row(false),
        focus: 0,
        original: None,
    };
    assert!(draft.to_preset().is_none());

    draft.name = "backend-mine".into();
    let p = draft.to_preset().expect("named draft builds a preset");
    assert_eq!(p.name, "backend-mine");
    assert_eq!(p.includes.statuses, vec!["Refine".to_string()]);
    assert_eq!(p.includes.labels, vec!["Frontend".to_string()]);
    assert!(p.includes.assignees.is_empty(), "unchecked group stays empty");
}

#[test]
fn filter_draft_toggle_and_focus_walk_groups() {
    let mut draft = FilterDraft {
        name: String::new(),
        statuses: vec![("s0".into(), false)],
        labels: vec![("l0".into(), false)],
        assignees: vec![("a0".into(), false)],
        grouping: FilterDraft::grouping_row(false),
        focus: 0,
        original: None,
    };
    draft.toggle_focused();
    assert!(!draft.statuses[0].1);

    draft.focus = 2;
    draft.toggle_focused();
    assert!(draft.labels[0].1);
    draft.focus = 3;
    draft.toggle_focused();
    assert!(draft.assignees[0].1);

    draft.focus = 0;
    draft.move_focus(-1);
    assert_eq!(draft.focus, 0);
    draft.move_focus(99);
    assert_eq!(draft.focus, draft.option_count());
}

#[test]
fn filter_draft_jump_section_skips_empty_groups() {
    let mut draft = FilterDraft {
        name: String::new(),
        statuses: vec![("s0".into(), false), ("s1".into(), false)],
        labels: vec![],
        assignees: vec![("a0".into(), false)],
        grouping: FilterDraft::grouping_row(false),
        focus: 0,
        original: None,
    };
    draft.jump_section(1);
    assert_eq!(draft.focus, 1, "name → first status");
    draft.jump_section(1);
    assert_eq!(draft.focus, 3, "status → assignees, skipping empty labels");
    draft.jump_section(1);
    assert_eq!(draft.focus, 4, "assignees → grouping");
    draft.jump_section(1);
    assert_eq!(draft.focus, 4, "clamps at the last section");

    draft.focus = 2;
    draft.jump_section(-1);
    assert_eq!(draft.focus, 0, "mid-status → name");
}

#[test]
fn save_preset_replaces_by_name_and_activates() {
    let mut app = App::new(vec![item("a", "Refine")], ProjectConfig::travel_smart());
    let before = app.preset_count();

    let idx = app.save_preset(
        Preset { name: "custom".into(), includes: Filter::default(), include_parents: false },
        None,
    );
    assert_eq!(idx, before);
    assert_eq!(app.active_preset, idx);
    assert_eq!(app.preset_count(), before + 1);

    let idx2 = app.save_preset(
        Preset {
            name: "CUSTOM".into(),
            includes: Filter { statuses: vec!["Refine".into()], ..Default::default() },
            include_parents: false,
        },
        None,
    );
    assert_eq!(idx2, idx, "same name replaces, not appends");
    assert_eq!(app.preset_count(), before + 1);
    assert_eq!(app.config.presets[idx].includes.statuses, vec!["Refine".to_string()]);
}

#[test]
fn save_preset_rename_drops_the_old_entry() {
    let mut app = App::new(vec![item("a", "Refine")], ProjectConfig::travel_smart());
    let start = app.preset_count();
    let idx = app.save_preset(
        Preset { name: "draft".into(), includes: Filter::default(), include_parents: false },
        None,
    );
    assert_eq!(app.preset_count(), start + 1);

    app.save_preset(
        Preset { name: "final".into(), includes: Filter::default(), include_parents: false },
        Some("draft".into()),
    );
    assert_eq!(app.preset_count(), start + 1, "rename doesn't add an entry");
    assert!(!app.config.presets.iter().any(|p| p.name == "draft"), "old name is gone");
    assert!(app.config.presets.iter().any(|p| p.name == "final"));
    let _ = idx;
}

#[test]
fn delete_preset_removes_and_guards_last() {
    let mut app = App::new(vec![item("a", "Refine")], ProjectConfig::travel_smart());
    let start = app.preset_count();
    assert!(start > 1, "fixture has several presets");

    for _ in 0..start {
        app.delete_preset(app.active_preset);
    }
    assert_eq!(app.preset_count(), 1, "can't delete the last preset");
    assert!(!app.delete_preset(0), "refusing returns false");
    assert!(app.active_preset < app.preset_count(), "selection stays valid");
}

#[test]
fn project_pick_navigation_includes_add_row() {
    let mut app = App::new(vec![item("a", "Refine")], ProjectConfig::travel_smart());
    app.modal = Modal::ProjectPick { names: vec!["p0".into(), "p1".into()], selected: 0 };

    app.modal_move(1);
    app.modal_move(1);
    app.modal_move(1);
    match &app.modal {
        Modal::ProjectPick { selected, names } => {
            assert_eq!(*selected, names.len(), "should rest on the add-board row");
        }
        _ => panic!("modal changed unexpectedly"),
    }

    app.modal_move(-5);
    assert!(matches!(&app.modal, Modal::ProjectPick { selected: 0, .. }));
}

#[test]
fn switch_board_resets_per_board_state() {
    let mut app = App::new(vec![item("a", "Refine")], ProjectConfig::travel_smart());
    app.filter_query = "x".into();
    app.active_preset = 1;
    app.detail_cache.push(("stale".into(), unreachable_detail()));

    let mut other = ProjectConfig::travel_smart();
    other.name = "other".into();
    app.switch_board(other, vec![item("b", "In progress"), item("c", "Refine")]);

    assert_eq!(app.config.name, "other");
    assert_eq!(app.items.len(), 2);
    assert_eq!(app.active_preset, 0);
    assert!(app.filter_query.is_empty());
    assert!(app.detail_cache.is_empty());
    assert!(app.status_field.is_none());
    assert!(matches!(app.modal, Modal::Closed));
    assert!(app.selected().is_some(), "a selection is restored on the new board");
}

/// A throwaway `IssueDetail` for the cache-clearing assertion above.
fn unreachable_detail() -> IssueDetail {
    IssueDetail {
        title: String::new(),
        body: String::new(),
        state: String::new(),
        labels: vec![],
        url: String::new(),
        comments: vec![],
    }
}

#[test]
fn status_moves_and_picks() {
    let mut app = App::new(vec![item("a", "Refine")], ProjectConfig::travel_smart());
    app.modal = Modal::StatusMove {
        item_id: "a".into(),
        options: vec!["Refine".into(), "Done".into()],
        selected: 0,
    };
    app.modal_move(5);
    assert_eq!(app.modal_status_pick(), Some(("a".to_string(), "Done".to_string())));
    app.modal = Modal::Help;
    assert_eq!(app.modal_status_pick(), None);
}

#[test]
fn prompt_editing_on_a_start_confirm() {
    let mut m = Modal::Confirm {
        item_id: "a".into(),
        issue: 7,
        skill: "s".into(),
        session: "x".into(),
        prompt: lazytickets::app::default_prompt("s", 7),
        editing: false,
    };
    assert!(m.is_open());
    assert!(!m.is_editing_prompt());
    m.set_editing_prompt(true);
    assert!(m.is_editing_prompt());
    if let Some(p) = m.prompt_mut() {
        p.push('!');
    }
    match &m {
        Modal::Confirm { prompt, .. } => assert_eq!(prompt, "Use the s skill for issue #7!"),
        _ => panic!("still a confirm"),
    }
    assert!(Modal::Help.prompt_mut().is_none());
    assert!(!Modal::Closed.is_open());
}

#[test]
fn live_filter_narrows_and_restores() {
    let items = vec![item("a", "Refine"), item("b", "Refine")];
    let mut app = App::new(items, ProjectConfig::travel_smart());
    assert_eq!(app.visible.len(), 2);
    app.enter_filter();
    app.push_filter('t');
    app.push_filter('b');
    assert_eq!(app.visible.len(), 1);
    app.pop_filter();
    assert_eq!(app.filter_query, "t");
    assert_eq!(app.visible.len(), 2);
    app.push_filter('z');
    assert!(app.visible.is_empty());
    app.cancel_filter();
    assert!(app.filter_query.is_empty());
    assert_eq!(app.visible.len(), 2);
}

#[test]
fn presets_cycle_and_scroll_clamps() {
    let mut app = App::new(vec![item("a", "Refine")], ProjectConfig::travel_smart());
    let n = app.preset_count();
    assert!(app.cycle_preset(-1));
    assert_eq!(app.active_preset, n - 1);
    assert!(!app.set_preset(n - 1), "already active");
    assert!(!app.set_preset(n), "out of range");
    assert_eq!(app.preset_name(0), "all");
    app.scroll_detail(-3);
    assert_eq!(app.detail_scroll, 0);
    app.scroll_detail(5);
    assert_eq!(app.detail_scroll, 5);
    app.scroll_detail_half(1);
    assert_eq!(app.detail_scroll, 6, "at least one row before a height is known");
    app.detail_view_height = 20;
    app.scroll_detail_half(-1);
    assert_eq!(app.detail_scroll, 0);
}

#[test]
fn filter_builder_seeds_from_the_board_and_editor_from_the_preset() {
    let mut a = item("a", "In progress");
    a.labels = vec!["Frontend".into(), "frontend".into()];
    a.assignees = vec!["me".into()];
    let b = item("b", "Refine");
    let mut app = App::new(vec![a, b], ProjectConfig::travel_smart());
    app.open_filter_builder();
    match &app.modal {
        Modal::FilterBuild(d) => {
            // Board statuses ordered by status_order; labels de-duplicated ignoring case.
            assert_eq!(d.statuses, vec![("Refine".to_string(), false), ("In progress".to_string(), false)]);
            assert_eq!(d.labels, vec![("Frontend".to_string(), false)]);
            assert_eq!(d.assignees, vec![("me".to_string(), false)]);
            assert!(d.original.is_none());
        }
        _ => panic!("builder open"),
    }
    app.set_preset(3); // "refine": statuses = [Refine]
    app.open_filter_editor();
    match &app.modal {
        Modal::FilterBuild(d) => {
            assert_eq!(d.name, "refine");
            assert_eq!(d.statuses, vec![("Refine".to_string(), true), ("In progress".to_string(), false)]);
            assert_eq!(d.original.as_deref(), Some("refine"));
        }
        _ => panic!("editor open"),
    }
}
