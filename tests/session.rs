use tidytui::cleaner::{clean_action, clean_item, CleanAction, DeleteError, PathKind};
use tidytui::discovery::OsType;
use tidytui::grouping::{category_totals, project, sorted_categories, text_less};
use tidytui::item::{CleanupItem, ItemStatus};
use tidytui::registry::{filter_rules, Definitions, Group, Rule};
use tidytui::scanner::{resolve_targets, scan_path, scan_targets, EntryMeta};
use tidytui::session::{Action, App, AppState, ResultRow, Tab};

fn item(name: &str, category: &str, size: u64) -> CleanupItem {
    CleanupItem {
        name: name.to_string(),
        category: category.to_string(),
        path: format!("/x/{}", name),
        size_bytes: size,
        selected: false,
        status: ItemStatus::Scanned,
    }
}

fn app_with(items: Vec<CleanupItem>) -> App {
    let mut app = App::new();
    app.set_items(items);
    app
}

fn failure(reason: &str) -> Result<(), DeleteError> {
    Err(DeleteError { reason: reason.to_string() })
}

#[test]
fn new_session_is_safe_and_empty() {
    let app = App::new();
    assert!(app.items.is_empty());
    assert!(app.rendered_rows.is_empty());
    assert!(app.dry_run);
    assert_eq!(app.active_tab, Tab::Dashboard);
    assert_eq!(app.app_state, AppState::Viewing);
    assert_eq!(app.total_size, 0);
}

#[test]
fn rows_group_by_sorted_distinct_category() {
    let items = vec![item("a", "zeta", 1), item("b", "alpha", 2), item("c", "zeta", 3)];
    let rows = project(&items);
    assert_eq!(
        rows,
        vec![
            ResultRow::CategoryHeader("alpha".to_string()),
            ResultRow::Item(1),
            ResultRow::EmptyLine,
            ResultRow::CategoryHeader("zeta".to_string()),
            ResultRow::Item(0),
            ResultRow::Item(2),
            ResultRow::EmptyLine,
        ]
    );
}

#[test]
fn categories_sort_like_strings() {
    let items = vec![item("a", "b", 1), item("b", "ab", 1), item("c", "a", 1), item("d", "b", 1)];
    assert_eq!(sorted_categories(&items), vec!["a".to_string(), "ab".to_string(), "b".to_string()]);
    assert!(text_less("Z", "a"));
    assert!(!text_less("abc", "abc"));
    assert!(text_less("ab", "abc"));
}

#[test]
fn set_items_totals_and_lands_on_first_item() {
    let app = app_with(vec![item("a", "c1", 10), item("b", "c2", 32)]);
    assert_eq!(app.total_size, 42);
    assert_eq!(app.cursor, Some(1));
}

#[test]
fn set_items_empty_keeps_cursor_at_zero() {
    let app = app_with(vec![]);
    assert_eq!(app.cursor, Some(0));
    assert!(app.rendered_rows.is_empty());
}

#[test]
fn navigation_wraps_over_item_rows() {
    // rows: header, item, separator, header, item, separator
    let mut app = app_with(vec![item("a", "c1", 1), item("b", "c2", 1)]);
    assert!(matches!(app.rendered_rows[1], ResultRow::Item(_)));
    assert!(matches!(app.rendered_rows[4], ResultRow::Item(_)));
    app.cursor = Some(4);
    app.next();
    assert_eq!(app.cursor, Some(1));
    app.previous();
    assert_eq!(app.cursor, Some(4));
    app.next();
    assert_eq!(app.cursor, Some(1));
    app.next();
    assert_eq!(app.cursor, Some(4));
}

#[test]
fn navigation_without_rows_does_not_move() {
    let mut app = App::new();
    app.next();
    assert_eq!(app.cursor, None);
    app.previous();
    assert_eq!(app.cursor, None);
}

#[test]
fn toggle_touches_only_the_item_under_cursor() {
    let mut app = app_with(vec![item("a", "c1", 1), item("b", "c2", 1), item("c", "c2", 1)]);
    // rows: H c1, item0, sep, H c2, item1, item2, sep
    app.cursor = Some(4);
    app.toggle_selection();
    assert!(!app.items[0].selected);
    assert!(app.items[1].selected);
    assert!(!app.items[2].selected);
    app.toggle_selection();
    assert!(!app.items[1].selected);
}

#[test]
fn toggle_on_header_does_nothing() {
    let mut app = app_with(vec![item("a", "c1", 1)]);
    app.cursor = Some(0);
    app.toggle_selection();
    assert!(!app.items[0].selected);
}

#[test]
fn tabs_cycle_both_ways() {
    let mut app = App::new();
    app.next_tab();
    assert_eq!(app.active_tab, Tab::Results);
    app.next_tab();
    assert_eq!(app.active_tab, Tab::Help);
    app.next_tab();
    assert_eq!(app.active_tab, Tab::Dashboard);
    app.previous_tab();
    assert_eq!(app.active_tab, Tab::Help);
}

#[test]
fn clean_request_needs_a_selection() {
    let mut app = app_with(vec![item("a", "c1", 1)]);
    assert!(!app.handle_action(Action::RequestClean));
    assert_eq!(app.app_state, AppState::Viewing);
    app.handle_action(Action::ToggleSelection);
    app.handle_action(Action::RequestClean);
    assert_eq!(app.app_state, AppState::Confirming);
    app.handle_action(Action::Cancel);
    assert_eq!(app.app_state, AppState::Viewing);
    assert!(app.items[0].selected);
}

#[test]
fn quit_only_while_viewing() {
    let mut app = app_with(vec![item("a", "c1", 1)]);
    app.handle_action(Action::ToggleSelection);
    app.handle_action(Action::RequestClean);
    assert!(!app.handle_action(Action::Quit));
    app.handle_action(Action::Confirm);
    assert!(!app.handle_action(Action::Quit));
    assert!(!app.handle_action(Action::ToggleDryRun));
    assert!(app.dry_run);
    app.app_state = AppState::Viewing;
    assert!(app.handle_action(Action::Quit));
}

#[test]
fn dry_run_toggles_while_confirming() {
    let mut app = app_with(vec![item("a", "c1", 1)]);
    app.handle_action(Action::ToggleSelection);
    app.handle_action(Action::RequestClean);
    app.handle_action(Action::ToggleDryRun);
    assert!(!app.dry_run);
    app.handle_action(Action::ShowTab(Tab::Help));
    assert_eq!(app.active_tab, Tab::Dashboard);
}

#[test]
fn confirm_counts_selected_not_deleted_in_display_order() {
    let mut app = app_with(vec![item("a", "z", 1), item("b", "a", 1), item("c", "z", 1)]);
    for i in 0..3 {
        app.items[i].selected = true;
    }
    app.items[2].status = ItemStatus::Deleted;
    assert_eq!(app.cleaning_queue(), vec![1, 0]);
    app.handle_action(Action::RequestClean);
    app.handle_action(Action::Confirm);
    assert_eq!(app.app_state, AppState::Cleaning { current: 0, total: 2, item_name: String::new() });
}

#[test]
fn clean_actions() {
    assert_eq!(clean_action(PathKind::Missing, false), CleanAction::Leave);
    assert_eq!(clean_action(PathKind::Missing, true), CleanAction::Leave);
    assert_eq!(clean_action(PathKind::File, false), CleanAction::RemoveFile);
    assert_eq!(clean_action(PathKind::Dir, false), CleanAction::RemoveDir);
    assert_eq!(clean_action(PathKind::Other, false), CleanAction::Leave);
    assert_eq!(clean_action(PathKind::Other, true), CleanAction::Leave);
    assert_eq!(clean_action(PathKind::File, true), CleanAction::Simulate);
}

#[test]
fn dry_run_never_removes() {
    for kind in [PathKind::Missing, PathKind::File, PathKind::Dir, PathKind::Other] {
        let a = clean_action(kind, true);
        assert!(a != CleanAction::RemoveFile && a != CleanAction::RemoveDir);
    }
    let mut it = item("a", "c", 1);
    for _ in 0..3 {
        let a = clean_action(PathKind::Dir, true);
        assert_eq!(clean_item(&mut it, a, Ok(())), Ok(()));
    }
    assert_eq!(it.status, ItemStatus::Scanned);
}

#[test]
fn clean_of_missing_path_is_silent_noop() {
    let mut it = item("a", "c", 1);
    assert_eq!(clean_item(&mut it, CleanAction::Leave, Ok(())), Ok(()));
    assert_eq!(it.status, ItemStatus::Scanned);
}

#[test]
fn clean_failure_is_returned_not_recorded() {
    let mut it = item("a", "c", 1);
    let r = clean_item(&mut it, CleanAction::RemoveDir, failure("busy"));
    assert_eq!(r, failure("busy"));
    assert_eq!(it.status, ItemStatus::Scanned);
    assert_eq!(clean_item(&mut it, CleanAction::RemoveFile, Ok(())), Ok(()));
    assert_eq!(it.status, ItemStatus::Deleted);
}

#[test]
fn status_never_returns_to_scanned() {
    let mut app = app_with(vec![item("a", "c", 1)]);
    app.apply_clean(0, CleanAction::RemoveDir, failure("denied"));
    assert_eq!(app.items[0].status, ItemStatus::Failed("denied".to_string()));
    app.apply_clean(0, CleanAction::Leave, Ok(()));
    assert_eq!(app.items[0].status, ItemStatus::Failed("denied".to_string()));
    app.apply_clean(0, CleanAction::RemoveDir, Ok(()));
    assert_eq!(app.items[0].status, ItemStatus::Deleted);
    app.apply_clean(0, CleanAction::Leave, Ok(()));
    assert_eq!(app.items[0].status, ItemStatus::Deleted);
}

#[test]
fn batch_continues_past_a_failure() {
    let mut app = app_with(vec![item("i1", "c", 1), item("i2", "c", 2), item("i3", "c", 4)]);
    for i in 0..3 {
        app.items[i].selected = true;
    }
    app.handle_action(Action::RequestClean);
    app.handle_action(Action::Confirm);
    let queue = app.cleaning_queue();
    assert_eq!(queue, vec![0, 1, 2]);
    let outcomes = [Ok(()), failure("permission denied"), Ok(())];
    for (step, &k) in queue.iter().enumerate() {
        app.begin_item(step, &queue);
        assert_eq!(
            app.app_state,
            AppState::Cleaning { current: step + 1, total: 3, item_name: app.items[k].name.clone() }
        );
        app.clean_step(step, &queue, CleanAction::RemoveDir, outcomes[step].clone());
    }
    assert_eq!(app.items[0].status, ItemStatus::Deleted);
    assert_eq!(app.items[1].status, ItemStatus::Failed("permission denied".to_string()));
    assert_eq!(app.items[2].status, ItemStatus::Deleted);
    app.finish_cleaning();
    assert_eq!(app.items.len(), 1);
    assert_eq!(app.items[0].name, "i2");
    assert!(app.items[0].selected);
    assert_eq!(app.total_size, 2);
    assert_eq!(app.app_state, AppState::Viewing);
    assert_eq!(app.active_tab, Tab::Dashboard);
}

fn demo_definitions() -> Definitions {
    Definitions {
        groups: vec![Group {
            id: "cache".to_string(),
            name: "cache".to_string(),
            description: None,
            rules: vec![Rule { os: "any".to_string(), path: "~/.cache/demo".to_string() }],
        }],
    }
}

fn demo_session() -> App {
    let targets = filter_rules(&demo_definitions(), &OsType::Debian);
    let resolved = resolve_targets(&targets, Some("/home/demo"));
    assert_eq!(resolved[0].2, "/home/demo/.cache/demo");
    let walk = vec![
        Some(EntryMeta { is_file: false, len: 4096 }),
        Some(EntryMeta { is_file: true, len: 2048 }),
    ];
    let items = scan_targets(resolved, &vec![Some(scan_path(&walk))]);
    assert_eq!(items.len(), 1);
    assert_eq!(items[0].category, "cache");
    assert_eq!(items[0].size_bytes, 2048);
    assert_eq!(items[0].status, ItemStatus::Scanned);
    app_with(items)
}

fn run_pass(app: &mut App, kind: PathKind) -> Vec<CleanAction> {
    app.handle_action(Action::ToggleSelection);
    app.handle_action(Action::RequestClean);
    app.handle_action(Action::Confirm);
    let dry_run = app.dry_run;
    let queue = app.cleaning_queue();
    let mut done = Vec::new();
    for (step, &k) in queue.iter().enumerate() {
        let action = clean_action(kind, dry_run);
        app.clean_step(step, &queue, action, Ok(()));
        assert_eq!(
            app.app_state,
            AppState::Cleaning { current: step + 1, total: queue.len(), item_name: app.items[k].name.clone() }
        );
        done.push(action);
    }
    done
}

#[test]
fn end_to_end_real_clean() {
    let mut app = demo_session();
    app.handle_action(Action::ToggleDryRun);
    assert!(!app.dry_run);
    let done = run_pass(&mut app, PathKind::Dir);
    assert_eq!(done, vec![CleanAction::RemoveDir]);
    assert_eq!(app.items[0].status, ItemStatus::Deleted);
    app.finish_cleaning();
    assert!(app.items.is_empty());
}

#[test]
fn end_to_end_dry_run_removes_nothing() {
    let mut app = demo_session();
    assert!(app.dry_run);
    let done = run_pass(&mut app, PathKind::Dir);
    assert_eq!(done, vec![CleanAction::Simulate]);
    assert_eq!(app.items[0].status, ItemStatus::Scanned);
}

#[test]
fn dry_run_pass_keeps_its_items() {
    let mut app = demo_session();
    let done = run_pass(&mut app, PathKind::Dir);
    assert_eq!(done, vec![CleanAction::Simulate]);
    app.finish_cleaning();
    assert_eq!(app.items.len(), 1);
    assert_eq!(app.items[0].status, ItemStatus::Scanned);
    assert!(app.items[0].selected);
    assert_eq!(app.total_size, 2048);
}

#[test]
fn selection_summary_counts_selected_only() {
    let mut app = app_with(vec![item("a", "c1", 10), item("b", "c2", 32), item("c", "c2", 5)]);
    assert_eq!(app.selection_summary(), (0, 0));
    app.items[1].selected = true;
    app.items[2].selected = true;
    assert_eq!(app.selection_summary(), (2, 37));
}

#[test]
fn category_totals_per_distinct_category() {
    let items = vec![item("a", "zeta", 10), item("b", "alpha", 2), item("c", "zeta", 5)];
    assert_eq!(
        category_totals(&items),
        vec![("alpha".to_string(), 2), ("zeta".to_string(), 15)]
    );
    assert!(category_totals(&vec![]).is_empty());
}

#[test]
fn odd_path_kind_is_left_not_marked() {
    let mut app = app_with(vec![item("fifo", "c", 1)]);
    app.handle_action(Action::ToggleDryRun);
    let done = run_pass(&mut app, PathKind::Other);
    assert_eq!(done, vec![CleanAction::Leave]);
    assert_eq!(app.items[0].status, ItemStatus::Scanned);
    app.finish_cleaning();
    assert_eq!(app.items.len(), 1);
}
