use std::collections::HashMap;

use opendal_demo::entry::{EntryInfo, EntryKind};
use opendal_demo::tree_walk::{Walk, WalkStep};
use opendal_demo::walk::{render_tree_line, TreeStyle};

fn file(path: &str, size: u64) -> EntryInfo {
    let name = path.rsplit('/').next().unwrap().to_string();
    EntryInfo::new(path.to_string(), name, EntryKind::File, size)
}

fn dir(path: &str) -> EntryInfo {
    let trimmed = path.trim_end_matches('/');
    let name = format!("{}/", trimmed.rsplit('/').next().unwrap());
    EntryInfo::new(path.to_string(), name, EntryKind::Dir, 0)
}

// The listings of `listing/` after the list walkthrough prepared it.
fn drive() -> HashMap<String, Vec<EntryInfo>> {
    let mut m = HashMap::new();
    m.insert(
        "listing/".to_string(),
        vec![dir("listing/another/"), file("listing/file1.txt", 7), file("listing/file2.txt", 7), dir("listing/subdir/")],
    );
    m.insert("listing/another/".to_string(), vec![file("listing/another/file5.txt", 7)]);
    m.insert(
        "listing/subdir/".to_string(),
        vec![file("listing/subdir/file3.txt", 7), dir("listing/subdir/empty/"), file("listing/subdir/file4.txt", 7)],
    );
    m.insert("listing/subdir/empty/".to_string(), vec![]);
    m
}

fn copy(v: &Vec<EntryInfo>) -> Vec<EntryInfo> {
    v.iter().map(|e| e.duplicate()).collect()
}

enum Seen {
    Enter(String, usize),
    Leave(String),
}

fn run(root: &str, indent: usize) -> (Vec<Seen>, u64) {
    let d = drive();
    let mut w = Walk::start(copy(&d[root]), indent);
    let mut seen = Vec::new();
    loop {
        match w.next() {
            WalkStep::Enter { entry, depth } => {
                seen.push(Seen::Enter(entry.path.clone(), depth));
                if entry.kind.is_dir() {
                    assert!(w.awaiting_listing());
                    w.descend(copy(&d[&entry.path]));
                }
            }
            WalkStep::Leave { path } => seen.push(Seen::Leave(path)),
            WalkStep::Finished => break,
        }
    }
    assert!(w.is_finished());
    (seen, w.files_entered())
}

#[test]
fn walk_is_depth_first_pre_order() {
    let (seen, files) = run("listing/", 1);
    let enters: Vec<(String, usize)> = seen
        .iter()
        .filter_map(|s| match s {
            Seen::Enter(p, d) => Some((p.clone(), *d)),
            _ => None,
        })
        .collect();
    let expected: Vec<(String, usize)> = vec![
        ("listing/another/", 1),
        ("listing/another/file5.txt", 2),
        ("listing/file1.txt", 1),
        ("listing/file2.txt", 1),
        ("listing/subdir/", 1),
        ("listing/subdir/file3.txt", 2),
        ("listing/subdir/empty/", 2),
        ("listing/subdir/file4.txt", 2),
    ]
    .into_iter()
    .map(|(p, d)| (p.to_string(), d))
    .collect();
    assert_eq!(enters, expected);
    assert_eq!(files, 5);
}

#[test]
fn directories_are_left_after_their_contents() {
    let (seen, _) = run("listing/", 0);
    let removals: Vec<String> = seen
        .iter()
        .filter_map(|s| match s {
            Seen::Enter(p, _) if !p.ends_with('/') => Some(p.clone()),
            Seen::Leave(p) => Some(p.clone()),
            _ => None,
        })
        .collect();
    assert_eq!(
        removals,
        vec![
            "listing/another/file5.txt",
            "listing/another/",
            "listing/file1.txt",
            "listing/file2.txt",
            "listing/subdir/file3.txt",
            "listing/subdir/empty/",
            "listing/subdir/file4.txt",
            "listing/subdir/",
        ]
    );
}

#[test]
fn tree_printout() {
    let d = drive();
    let mut w = Walk::start(copy(&d["listing/"]), 0);
    let mut lines = Vec::new();
    loop {
        match w.next() {
            WalkStep::Enter { entry, depth } => {
                lines.push(render_tree_line(&entry, depth, TreeStyle::NamesAndSizes));
                if entry.kind.is_dir() {
                    w.descend(copy(&d[&entry.path]));
                }
            }
            WalkStep::Leave { .. } => {}
            WalkStep::Finished => break,
        }
    }
    assert_eq!(
        lines,
        vec![
            "📁 another/",
            "  📄 file5.txt (7 bytes)",
            "📄 file1.txt (7 bytes)",
            "📄 file2.txt (7 bytes)",
            "📁 subdir/",
            "  📄 file3.txt (7 bytes)",
            "  📁 empty/",
            "  📄 file4.txt (7 bytes)",
        ]
    );
}

#[test]
fn empty_walk_finishes_at_once() {
    let mut w = Walk::start(vec![], 0);
    assert!(matches!(w.next(), WalkStep::Finished));
    assert_eq!(w.files_entered(), 0);
}

#[test]
fn walk_takes_one_step_per_entry_and_one_per_listing() {
    let d = drive();
    let mut w = Walk::start(copy(&d["listing/"]), 0);
    let mut steps = 0;
    let mut listings = 0;
    loop {
        match w.next() {
            WalkStep::Enter { entry, .. } => {
                steps += 1;
                if entry.kind.is_dir() {
                    listings += 1;
                    w.descend(copy(&d[&entry.path]));
                }
            }
            WalkStep::Leave { .. } => steps += 1,
            WalkStep::Finished => break,
        }
    }
    // 4 top entries, then listings of 1, 3 and 0 entries, each with its leave.
    assert_eq!(steps, 4 + (1 + 1) + (3 + 1) + (0 + 1));
    assert_eq!(listings, 3);
    assert!(w.is_finished());
}
