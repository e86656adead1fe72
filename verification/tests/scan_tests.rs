use tree_scan::count::{count_dirs, count_files, count_of};
use tree_scan::item::{FileType, RawItem, RawKind};
use tree_scan::scan::scan;

fn file(path: &str, name: &str) -> RawItem {
    RawItem {
        path: path.to_string(),
        name: name.to_string(),
        kind: RawKind::File,
        children: Vec::new(),
    }
}

fn dir(path: &str, name: &str, children: Vec<RawItem>) -> RawItem {
    RawItem {
        path: path.to_string(),
        name: name.to_string(),
        kind: RawKind::Dir,
        children,
    }
}

fn unknown(path: &str, name: &str) -> RawItem {
    RawItem {
        path: path.to_string(),
        name: name.to_string(),
        kind: RawKind::Unknown,
        children: Vec::new(),
    }
}

#[test]
fn two_files_one_dir_counts() {
    let raw = vec![
        file("/root/a.txt", "a.txt"),
        file("/root/b.txt", "b.txt"),
        dir("/root/sub", "sub", Vec::new()),
    ];
    let result = scan(&raw);
    assert_eq!(count_files(&result.items), 2);
    assert_eq!(count_dirs(&result.items), 1);
    assert!(result.skipped.is_empty());
}

#[test]
fn nested_file_not_counted_at_top_level() {
    let raw = vec![dir("/root/sub", "sub", vec![file("/root/sub/c.txt", "c.txt")])];
    let result = scan(&raw);
    assert_eq!(count_files(&result.items), 0);
    assert_eq!(count_dirs(&result.items), 1);
}

#[test]
fn empty_root_counts() {
    let raw: Vec<RawItem> = Vec::new();
    let result = scan(&raw);
    assert_eq!(count_files(&result.items), 0);
    assert_eq!(count_dirs(&result.items), 0);
    assert!(result.items.is_empty());
    assert!(result.skipped.is_empty());
}

#[test]
fn counts_ignore_nested_entries() {
    let raw = vec![dir(
        "/root/sub",
        "sub",
        vec![
            file("/root/sub/x", "x"),
            file("/root/sub/y", "y"),
            dir("/root/sub/inner", "inner", vec![file("/root/sub/inner/z", "z")]),
        ],
    )];
    let result = scan(&raw);
    assert_eq!(count_files(&result.items), 0);
    assert_eq!(count_dirs(&result.items), 1);
    assert_eq!(count_of(&result.items, FileType::File), 0);
    assert_eq!(count_of(&result.items, FileType::Dir), 1);
}

#[test]
fn scan_mirrors_structure() {
    let raw = vec![
        file("/r/a", "a"),
        dir(
            "/r/d",
            "d",
            vec![file("/r/d/b", "b"), dir("/r/d/e", "e", vec![file("/r/d/e/c", "c")])],
        ),
    ];
    let result = scan(&raw);
    assert_eq!(result.items.len(), 2);
    assert_eq!(result.items[0].name, "a");
    assert_eq!(result.items[0].path, "/r/a");
    assert!(matches!(result.items[0].file_type, FileType::File));
    assert!(result.items[0].sub_items.is_empty());
    assert_eq!(result.items[1].name, "d");
    assert!(matches!(result.items[1].file_type, FileType::Dir));
    let d = &result.items[1];
    assert_eq!(d.sub_items.len(), 2);
    assert_eq!(d.sub_items[0].name, "b");
    assert_eq!(d.sub_items[1].name, "e");
    assert!(matches!(d.sub_items[1].file_type, FileType::Dir));
    assert_eq!(d.sub_items[1].sub_items.len(), 1);
    assert_eq!(d.sub_items[1].sub_items[0].name, "c");
    assert_eq!(d.sub_items[1].sub_items[0].path, "/r/d/e/c");
    assert!(matches!(
        d.sub_items[1].sub_items[0].file_type,
        FileType::File
    ));
}

#[test]
fn unknown_kind_entries_skipped_in_order() {
    let raw = vec![
        file("/r/ok.txt", "ok.txt"),
        unknown("/r/mystery", "mystery"),
        dir("/r/sub", "sub", vec![unknown("/r/sub/inner", "inner"), file("/r/sub/f", "f")]),
    ];
    let result = scan(&raw);
    assert_eq!(result.items.len(), 2);
    assert_eq!(result.items[0].name, "ok.txt");
    assert_eq!(result.items[1].name, "sub");
    assert_eq!(result.items[1].sub_items.len(), 1);
    assert_eq!(result.items[1].sub_items[0].name, "f");
    assert_eq!(result.skipped, vec!["/r/mystery".to_string(), "/r/sub/inner".to_string()]);
}

#[test]
fn scan_twice_gives_identical_forests() {
    let raw = vec![
        file("/r/a", "a"),
        dir("/r/d", "d", vec![file("/r/d/b", "b")]),
        unknown("/r/u", "u"),
    ];
    let first = scan(&raw);
    let second = scan(&raw);
    assert_eq!(first.items.len(), second.items.len());
    for (x, y) in first.items.iter().zip(second.items.iter()) {
        assert_eq!(x.name, y.name);
        assert_eq!(x.path, y.path);
        assert_eq!(x.file_type, y.file_type);
        assert_eq!(x.sub_items.len(), y.sub_items.len());
        for (xs, ys) in x.sub_items.iter().zip(y.sub_items.iter()) {
            assert_eq!(xs.name, ys.name);
            assert_eq!(xs.path, ys.path);
            assert_eq!(xs.file_type, ys.file_type);
        }
    }
    assert_eq!(first.skipped, second.skipped);
}
