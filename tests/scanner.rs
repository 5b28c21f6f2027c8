use tidytui::item::ItemStatus;
use tidytui::scanner::{
    resolve_path, resolve_targets, scan_path, scan_targets, EntryMeta, SELECTED_BY_DEFAULT,
};

fn file(len: u64) -> Option<EntryMeta> {
    Some(EntryMeta { is_file: true, len })
}

fn dir() -> Option<EntryMeta> {
    Some(EntryMeta { is_file: false, len: 4096 })
}

fn triple(a: &str, b: &str, c: &str) -> (String, String, String) {
    (a.to_string(), b.to_string(), c.to_string())
}

#[test]
fn tilde_expands_to_home() {
    assert_eq!(resolve_path("~/.cache/demo", Some("/home/u")), "/home/u/.cache/demo");
    assert_eq!(resolve_path("~/.cache", Some("/home/u/")), "/home/u/.cache");
    assert_eq!(resolve_path("~", Some("/home/u")), "/home/u/");
    assert_eq!(resolve_path("~x", Some("/home/u")), "/home/u/x");
}

#[test]
fn literal_paths_stay() {
    assert_eq!(resolve_path("/var/cache/apt", Some("/home/u")), "/var/cache/apt");
    assert_eq!(resolve_path("~/.cache", None), "~/.cache");
    assert_eq!(resolve_path("", Some("/home/u")), "");
}

#[test]
fn absolute_rest_replaces_home() {
    assert_eq!(resolve_path("~//tmp/x", Some("/home/u")), "/tmp/x");
}

#[test]
fn resolve_targets_keeps_name_and_category() {
    let got = resolve_targets(
        &vec![triple("trash", "Trash", "~/.local/share/Trash"), triple("pkg", "Apt", "/var/cache/apt")],
        Some("/root"),
    );
    assert_eq!(
        got,
        vec![triple("trash", "Trash", "/root/.local/share/Trash"), triple("pkg", "Apt", "/var/cache/apt")]
    );
}

#[test]
fn size_is_exact_sum_of_regular_files() {
    let entries = vec![dir(), file(100), None, file(23), dir(), file(0), file(1000)];
    assert_eq!(scan_path(&entries), 1123);
}

#[test]
fn size_does_not_depend_on_walk_order() {
    let a = vec![file(5), dir(), file(7), None, file(11)];
    let b = vec![file(11), None, file(5), file(7), dir()];
    assert_eq!(scan_path(&a), scan_path(&b));
    assert_eq!(scan_path(&a), 23);
}

#[test]
fn size_of_empty_walk_is_zero() {
    assert_eq!(scan_path(&vec![]), 0);
    assert_eq!(scan_path(&vec![dir(), None]), 0);
}

#[test]
fn size_saturates_at_largest_u64() {
    assert_eq!(scan_path(&vec![file(u64::MAX), file(2)]), u64::MAX);
}

#[test]
fn missing_targets_yield_no_item() {
    let targets = vec![
        triple("a", "A", "/x/a"),
        triple("b", "B", "/x/b"),
        triple("c", "C", "/x/c"),
    ];
    let items = scan_targets(targets, &vec![Some(10), None, Some(0)]);
    assert_eq!(items.len(), 2);
    assert_eq!(items[0].path, "/x/a");
    assert_eq!(items[0].size_bytes, 10);
    assert_eq!(items[1].path, "/x/c");
    assert_eq!(items[1].size_bytes, 0);
    for it in &items {
        assert_eq!(it.status, ItemStatus::Scanned);
        assert_eq!(it.selected, SELECTED_BY_DEFAULT);
    }
}

#[test]
fn fresh_items_are_not_selected() {
    let items = scan_targets(vec![triple("a", "A", "/x/a")], &vec![Some(1)]);
    assert!(!items[0].selected);
    assert_eq!(items[0].name, "A");
    assert_eq!(items[0].category, "a");
}

#[test]
fn all_missing_gives_empty_scan() {
    let items = scan_targets(vec![triple("a", "A", "/x/a")], &vec![None]);
    assert!(items.is_empty());
}
