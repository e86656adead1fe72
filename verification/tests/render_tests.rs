use tree_scan::item::{FileType, RawItem, RawKind};
use tree_scan::render::{print_items, print_items_prefix};
use tree_scan::scan::scan;

fn file(path: &str, name: &str) -> RawItem {
    RawItem {
        path: path.to_string(),
        name: name.to_string(),
        kind: RawKind::File,
        children: Vec::new(),
    }
}

fn dir(path: &str, name: &str, children: Vec<RawItem>) -> RawItem {
    RawItem {
        path: path.to_string(),
        name: name.to_string(),
        kind: RawKind::Dir,
        children,
    }
}

#[test]
fn prefix_has_one_space_per_level() {
    assert_eq!(print_items_prefix(0), "↳ ");
    assert_eq!(print_items_prefix(1), " ↳ ");
    assert_eq!(print_items_prefix(3), "   ↳ ");
}

#[test]
fn prefix_for_negative_level_has_no_indent() {
    assert_eq!(print_items_prefix(-2), "↳ ");
}

#[test]
fn kind_labels() {
    assert_eq!(FileType::File.label(), "File");
    assert_eq!(FileType::Dir.label(), "Directory");
}

#[test]
fn renders_in_reverse_listing_order() {
    let raw = vec![file("/r/a", "a"), file("/r/b", "b")];
    let result = scan(&raw);
    let lines = print_items(&result.items, 1, false);
    assert_eq!(lines, vec![" ↳ File : b : ".to_string(), " ↳ File : a : ".to_string()]);
}

#[test]
fn nested_file_rendered_one_level_deeper() {
    let raw = vec![dir("/r/sub", "sub", vec![file("/r/sub/c.txt", "c.txt")])];
    let result = scan(&raw);
    let lines = print_items(&result.items, 1, false);
    assert_eq!(
        lines,
        vec![" ↳ Directory : sub : ".to_string(), "  ↳ File : c.txt : ".to_string()]
    );
}

#[test]
fn empty_forest_renders_no_lines() {
    let raw: Vec<RawItem> = Vec::new();
    let result = scan(&raw);
    let lines = print_items(&result.items, 1, false);
    assert!(lines.is_empty());
}

#[test]
fn non_verbose_lines_hold_no_path_text() {
    let raw = vec![file("/quite/unmistakable/location/a", "a")];
    let result = scan(&raw);
    let lines = print_items(&result.items, 1, false);
    assert_eq!(lines, vec![" ↳ File : a : ".to_string()]);
    assert!(!lines[0].contains("unmistakable"));
}

#[test]
fn verbose_lines_end_with_the_full_path() {
    let raw = vec![
        file("/r/a", "a"),
        dir("/r/sub", "sub", vec![file("/r/sub/c", "c")]),
    ];
    let result = scan(&raw);
    let lines = print_items(&result.items, 1, true);
    assert_eq!(
        lines,
        vec![
            " ↳ Directory : sub : /r/sub".to_string(),
            "  ↳ File : c : /r/sub/c".to_string(),
            " ↳ File : a : /r/a".to_string(),
        ]
    );
}

#[test]
fn deep_tree_rendered_depth_first_in_reverse() {
    let raw = vec![
        file("/r/x", "x"),
        dir(
            "/r/d",
            "d",
            vec![file("/r/d/y", "y"), dir("/r/d/e", "e", vec![file("/r/d/e/z", "z")])],
        ),
    ];
    let result = scan(&raw);
    let lines = print_items(&result.items, 1, false);
    assert_eq!(
        lines,
        vec![
            " ↳ Directory : d : ".to_string(),
            "  ↳ Directory : e : ".to_string(),
            "   ↳ File : z : ".to_string(),
            "  ↳ File : y : ".to_string(),
            " ↳ File : x : ".to_string(),
        ]
    );
}

#[test]
fn rendering_starts_at_the_given_level() {
    let raw = vec![file("/r/a", "a")];
    let result = scan(&raw);
    let lines = print_items(&result.items, 3, false);
    assert_eq!(lines, vec!["   ↳ File : a : ".to_string()]);
}
