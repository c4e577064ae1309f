use opendal_demo::entry::{EntryInfo, EntryKind};
use opendal_demo::listing::{dir_stats, paths_of, smallest_and_largest};
use opendal_demo::walk::{paths_named_with_prefix, relocations, render_tree_line, TreeStyle};

fn entry(path: &str, name: &str, kind: EntryKind, size: u64) -> EntryInfo {
    EntryInfo::new(path.to_string(), name.to_string(), kind, size)
}

// The listing of `stat-demo/` after the metadata walkthrough prepared it.
fn stat_demo() -> Vec<EntryInfo> {
    vec![
        entry("stat-demo/large.txt", "large.txt", EntryKind::File, 102400),
        entry("stat-demo/medium.txt", "medium.txt", EntryKind::File, 10240),
        entry("stat-demo/small.txt", "small.txt", EntryKind::File, 15),
        entry("stat-demo/subdir/", "subdir/", EntryKind::Dir, 0),
    ]
}

#[test]
fn stats_of_stat_demo() {
    let s = dir_stats(&stat_demo());
    assert_eq!(s.file_count, 3);
    assert_eq!(s.dir_count, 1);
    assert_eq!(s.total_size, 102400 + 10240 + 15);
}

#[test]
fn stats_of_empty_and_unknown() {
    let s = dir_stats(&vec![]);
    assert_eq!((s.file_count, s.dir_count, s.total_size), (0, 0, 0));
    let s = dir_stats(&vec![entry("a", "a", EntryKind::Unknown, 99)]);
    assert_eq!((s.file_count, s.dir_count, s.total_size), (0, 0, 0));
}

#[test]
fn smallest_and_largest_of_stat_demo() {
    let v = stat_demo();
    let (i, j) = smallest_and_largest(&v).unwrap();
    assert_eq!(v[i].name, "small.txt");
    assert_eq!(v[j].name, "large.txt");
}

#[test]
fn smallest_and_largest_follow_a_stable_sort() {
    let v = vec![
        entry("d/", "d/", EntryKind::Dir, 0),
        entry("a", "a", EntryKind::File, 5),
        entry("b", "b", EntryKind::File, 2),
        entry("c", "c", EntryKind::File, 9),
        entry("e", "e", EntryKind::File, 2),
        entry("f", "f", EntryKind::File, 9),
    ];
    let mut files: Vec<&EntryInfo> = v.iter().filter(|e| e.kind == EntryKind::File).collect();
    files.sort_by_key(|e| e.size);
    let (i, j) = smallest_and_largest(&v).unwrap();
    assert_eq!(v[i].path, files.first().unwrap().path);
    assert_eq!(v[j].path, files.last().unwrap().path);
    assert_eq!((i, j), (2, 5));
}

#[test]
fn no_extremes_without_files() {
    assert!(smallest_and_largest(&vec![entry("d/", "d/", EntryKind::Dir, 0)]).is_none());
    assert!(smallest_and_largest(&vec![]).is_none());
}

#[test]
fn filtered_paths() {
    let v = vec![
        entry("listing/another/", "another/", EntryKind::Dir, 0),
        entry("listing/file1.txt", "file1.txt", EntryKind::File, 7),
        entry("listing/file2.txt", "file2.txt", EntryKind::File, 7),
        entry("listing/subdir/", "subdir/", EntryKind::Dir, 0),
    ];
    assert_eq!(paths_of(&v, EntryKind::File), vec!["listing/file1.txt", "listing/file2.txt"]);
    assert_eq!(paths_of(&v, EntryKind::Dir), vec!["listing/another/", "listing/subdir/"]);
    assert!(paths_of(&v, EntryKind::Unknown).is_empty());
}

#[test]
fn relocations_move_files_only() {
    let v = vec![
        entry("rename-demo/source/file1.txt", "file1.txt", EntryKind::File, 5),
        entry("rename-demo/source/sub/", "sub/", EntryKind::Dir, 0),
        entry("rename-demo/source/file2.txt", "file2.txt", EntryKind::File, 5),
    ];
    let r: Vec<(String, String, String)> = relocations(&v, "rename-demo/moved/")
        .into_iter()
        .map(|r| (r.from, r.name, r.to))
        .collect();
    assert_eq!(
        r,
        vec![
            ("rename-demo/source/file1.txt".to_string(), "file1.txt".to_string(), "rename-demo/moved/file1.txt".to_string()),
            ("rename-demo/source/file2.txt".to_string(), "file2.txt".to_string(), "rename-demo/moved/file2.txt".to_string()),
        ]
    );
}

#[test]
fn pattern_selection() {
    let v = vec![
        entry("deletions/pattern/test_1.txt", "test_1.txt", EntryKind::File, 4),
        entry("deletions/pattern/keep.txt", "keep.txt", EntryKind::File, 4),
        entry("deletions/pattern/test_", "test_", EntryKind::File, 4),
        entry("deletions/pattern/tes", "tes", EntryKind::File, 4),
        entry("deletions/pattern/test_dir/", "test_dir/", EntryKind::Dir, 0),
    ];
    assert_eq!(
        paths_named_with_prefix(&v, "test_"),
        vec!["deletions/pattern/test_1.txt", "deletions/pattern/test_", "deletions/pattern/test_dir/"]
    );
    assert_eq!(paths_named_with_prefix(&v, "").len(), 5);
    assert!(paths_named_with_prefix(&v, "测试").is_empty());
}

#[test]
fn tree_lines() {
    let f = entry("listing/file1.txt", "file1.txt", EntryKind::File, 7);
    let d = entry("listing/subdir/", "subdir/", EntryKind::Dir, 0);
    let u = entry("listing/odd", "odd", EntryKind::Unknown, 3);
    assert_eq!(render_tree_line(&f, 1, TreeStyle::Names), "  📄 file1.txt");
    assert_eq!(render_tree_line(&d, 1, TreeStyle::Names), "  📁 subdir/");
    assert_eq!(render_tree_line(&f, 0, TreeStyle::NamesAndSizes), "📄 file1.txt (7 bytes)");
    assert_eq!(render_tree_line(&d, 0, TreeStyle::NamesAndSizes), "📁 subdir/");
    assert_eq!(render_tree_line(&u, 0, TreeStyle::NamesAndSizes), "📄 odd (3 bytes)");
    assert_eq!(render_tree_line(&f, 3, TreeStyle::NamesAndSizes), format!("{}📄 file1.txt (7 bytes)", "  ".repeat(3)));
}
