//! Rules applied to one directory listing: counts and sizes, selections,
//! the smallest and largest file, and what to do with each entry.

use vstd::prelude::*;
use crate::entry::{EntryInfo, EntryKind};

verus! {

/// Number of files in `s`.
pub open spec fn file_count(s: Seq<EntryInfo>) -> nat
    decreases s.len(),
{
    if s.len() == 0 {
        0
    } else {
        file_count(s.drop_last()) + if s.last().kind is File { 1nat } else { 0nat }
    }
}

/// Number of directories in `s`.
pub open spec fn dir_count(s: Seq<EntryInfo>) -> nat
    decreases s.len(),
{
    if s.len() == 0 {
        0
    } else {
        dir_count(s.drop_last()) + if s.last().kind is Dir { 1nat } else { 0nat }
    }
}

/// Sum of the sizes of the files in `s`.
pub open spec fn file_bytes(s: Seq<EntryInfo>) -> nat
    decreases s.len(),
{
    if s.len() == 0 {
        0
    } else {
        file_bytes(s.drop_last()) + if s.last().kind is File { s.last().size as nat } else { 0nat }
    }
}

/// The counts of a listing.
pub struct DirStats {
    pub file_count: usize,
    pub dir_count: usize,
    pub total_size: u64,
}

/// The file sizes of a prefix add up to no more than those of the whole.
proof fn lemma_file_bytes_prefix(s: Seq<EntryInfo>, i: int)
    requires
        0 <= i <= s.len(),
    ensures
        file_bytes(s.take(i)) <= file_bytes(s),
    decreases s.len() - i,
{
    if i < s.len() {
        lemma_file_bytes_prefix(s, i + 1);
        assert(s.take(i + 1).drop_last() =~= s.take(i));
    } else {
        assert(s.take(i) =~= s);
    }
}

/// Counts the files and directories of a listing and adds up the file sizes.
pub fn dir_stats(entries: &Vec<EntryInfo>) -> (r: DirStats)
    requires
        file_bytes(entries@) <= u64::MAX,
    ensures
        r.file_count == file_count(entries@),
        r.dir_count == dir_count(entries@),
        r.total_size == file_bytes(entries@),
{
    let mut files: usize = 0;
    let mut dirs: usize = 0;
    let mut total: u64 = 0;
    let mut i: usize = 0;
    while i < entries.len()
        invariant
            i <= entries.len(),
            files == file_count(entries@.take(i as int)),
            dirs == dir_count(entries@.take(i as int)),
            total == file_bytes(entries@.take(i as int)),
            file_bytes(entries@) <= u64::MAX,
        decreases entries.len() - i,
    {
        proof {
            assert(entries@.take(i + 1).drop_last() =~= entries@.take(i as int));
            crate::laws::counts_within_listing(entries@.take(i + 1));
            lemma_file_bytes_prefix(entries@, i + 1);
        }
        let e = &entries[i];
        if e.kind.is_file() {
            files = files + 1;
            total = total + e.size;
        } else if e.kind.is_dir() {
            dirs = dirs + 1;
        }
        i = i + 1;
    }
    assert(entries@.take(i as int) =~= entries@);
    DirStats { file_count: files, dir_count: dirs, total_size: total }
}

/// The paths of the entries of `s` of kind `k`, in listing order.
pub open spec fn paths_of_kind(s: Seq<EntryInfo>, k: EntryKind) -> Seq<Seq<char>>
    decreases s.len(),
{
    if s.len() == 0 {
        Seq::empty()
    } else if s.last().kind == k {
        paths_of_kind(s.drop_last(), k).push(s.last().path@)
    } else {
        paths_of_kind(s.drop_last(), k)
    }
}

/// The views of a list of strings.
pub open spec fn texts(v: Seq<String>) -> Seq<Seq<char>> {
    v.map_values(|t: String| t@)
}

/// The paths of the entries of kind `k`, in listing order (the filtered
/// listings of the walkthrough: files only, directories only).
pub fn paths_of(entries: &Vec<EntryInfo>, k: EntryKind) -> (r: Vec<String>)
    ensures
        texts(r@) == paths_of_kind(entries@, k),
{
    let mut r: Vec<String> = Vec::new();
    let mut i: usize = 0;
    while i < entries.len()
        invariant
            i <= entries.len(),
            texts(r@) == paths_of_kind(entries@.take(i as int), k),
        decreases entries.len() - i,
    {
        proof {
            assert(entries@.take(i + 1).drop_last() =~= entries@.take(i as int));
        }
        if entries[i].kind == k {
            let p = entries[i].path.clone();
            r.push(p);
            assert(texts(r@) =~= paths_of_kind(entries@.take(i + 1), k));
        } else {
            assert(texts(r@) =~= paths_of_kind(entries@.take(i + 1), k));
        }
        i = i + 1;
    }
    assert(entries@.take(i as int) =~= entries@);
    r
}

/// `i` is the first file of `s` with the least size among its files.
pub open spec fn is_smallest_file(s: Seq<EntryInfo>, i: int) -> bool {
    &&& 0 <= i < s.len()
    &&& s[i].kind is File
    &&& forall|k: int| 0 <= k < s.len() && s[k].kind is File ==> s[i].size <= #[trigger] s[k].size
    &&& forall|k: int| 0 <= k < i && s[k].kind is File ==> s[i].size < #[trigger] s[k].size
}

/// `j` is the last file of `s` with the greatest size among its files.
pub open spec fn is_largest_file(s: Seq<EntryInfo>, j: int) -> bool {
    &&& 0 <= j < s.len()
    &&& s[j].kind is File
    &&& forall|k: int| 0 <= k < s.len() && s[k].kind is File ==> #[trigger] s[k].size <= s[j].size
    &&& forall|k: int| j < k < s.len() && s[k].kind is File ==> #[trigger] s[k].size < s[j].size
}

/// Whether `s` holds a file.
pub open spec fn has_file(s: Seq<EntryInfo>) -> bool {
    exists|k: int| 0 <= k < s.len() && (#[trigger] s[k]).kind is File
}

/// The positions of the smallest and of the largest file: the first and the
/// last file once the files are sorted by size with a stable sort.
pub fn smallest_and_largest(entries: &Vec<EntryInfo>) -> (r: Option<(usize, usize)>)
    ensures
        r is None <==> !has_file(entries@),
        r matches Some((i, j)) ==> is_smallest_file(entries@, i as int) && is_largest_file(entries@, j as int),
{
    let mut best: Option<(usize, usize)> = None;
    let mut k: usize = 0;
    while k < entries.len()
        invariant
            k <= entries.len(),
            best is None <==> !has_file(entries@.take(k as int)),
            best matches Some((i, j)) ==> is_smallest_file(entries@.take(k as int), i as int)
                && is_largest_file(entries@.take(k as int), j as int),
        decreases entries.len() - k,
    {
        let ghost prefix = entries@.take(k as int);
        let ghost next = entries@.take(k + 1);
        proof {
            assert forall|m: int| 0 <= m < k implies next[m] == prefix[m] by {}
            assert(next[k as int] == entries@[k as int]);
        }
        if entries[k].kind.is_file() {
            let size = entries[k].size;
            match best {
                None => {
                    best = Some((k, k));
                    assert(has_file(next)) by { assert(next[k as int].kind is File); }
                }
                Some((i, j)) => {
                    let ni = if size < entries[i].size { k } else { i };
                    let nj = if size >= entries[j].size { k } else { j };
                    best = Some((ni, nj));
                    assert(has_file(next)) by { assert(next[k as int].kind is File); }
                }
            }
        } else {
            proof {
                if has_file(next) {
                    let m = choose|m: int| 0 <= m < next.len() && (#[trigger] next[m]).kind is File;
                    assert(prefix[m].kind is File);
                    assert(has_file(prefix));
                }
            }
        }
        proof {
            if has_file(prefix) {
                let m = choose|m: int| 0 <= m < prefix.len() && (#[trigger] prefix[m]).kind is File;
                assert(next[m].kind is File);
            }
        }
        k = k + 1;
    }
    assert(entries@.take(k as int) =~= entries@);
    best
}

} // verus!
