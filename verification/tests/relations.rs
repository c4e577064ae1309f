use opendal_demo::clock::stamped_path;
use opendal_demo::entry::{EntryInfo, EntryKind};
use opendal_demo::listing::{dir_stats, paths_of, smallest_and_largest};
use opendal_demo::size_text::{format_kb, format_kb_or_bytes, format_size};
use opendal_demo::walk::relocations;

fn sample() -> Vec<EntryInfo> {
    let mk = |p: &str, n: &str, k: EntryKind, s: u64| EntryInfo::new(p.to_string(), n.to_string(), k, s);
    vec![
        mk("d/a.txt", "a.txt", EntryKind::File, 40),
        mk("d/sub/", "sub/", EntryKind::Dir, 0),
        mk("d/b.txt", "b.txt", EntryKind::File, 7),
        mk("d/weird", "weird", EntryKind::Unknown, 0),
        mk("d/c.txt", "c.txt", EntryKind::File, 40),
        mk("d/other/", "other/", EntryKind::Dir, 0),
    ]
}

#[test]
fn counts_fit_the_listing() {
    let v = sample();
    let s = dir_stats(&v);
    assert!(s.file_count + s.dir_count <= v.len());
    assert_eq!(s.file_count, paths_of(&v, EntryKind::File).len());
    assert_eq!(s.dir_count, paths_of(&v, EntryKind::Dir).len());
}

#[test]
fn relocations_are_the_files() {
    let v = sample();
    let r = relocations(&v, "backup/");
    assert_eq!(r.len(), dir_stats(&v).file_count);
    for x in r {
        assert_eq!(x.to, format!("backup/{}", x.name));
    }
}

#[test]
fn extremes_are_ordered() {
    let v = sample();
    let (i, j) = smallest_and_largest(&v).unwrap();
    assert!(v[i].size <= v[j].size);
    assert_eq!((v[i].name.as_str(), v[j].name.as_str()), ("b.txt", "c.txt"));
    assert!(dir_stats(&v).total_size >= v[j].size);
}

#[test]
fn size_texts_agree_below_a_mebibyte() {
    for b in [0u64, 1, 1023, 1024, 1500, 65535, 1048575] {
        assert_eq!(format_size(b), format_kb_or_bytes(b));
    }
    assert_ne!(format_size(1048576), format_kb_or_bytes(1048576));
}

#[test]
fn exact_sizes_round_exactly() {
    // 1029 bytes are 1.0048828125 KB, 1030 bytes 1.005859375 KB
    assert_eq!(format_kb(1029), "1.00 KB");
    assert_eq!(format_kb(1030), "1.01 KB");
    // 1.125 KB and 1.375 KB are ties: they go to the even hundredth
    assert_eq!(format_kb(1152), "1.12 KB");
    assert_eq!(format_kb(1408), "1.38 KB");
}

#[test]
fn stamps_have_fixed_width() {
    for secs in [0i64, 1, 999999999, 1725029869, 253402300799] {
        assert_eq!(stamped_path("", secs, 0, "").unwrap().chars().count(), 15);
    }
}
