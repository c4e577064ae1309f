//! Properties that relate the functions of the library to one another.

use vstd::prelude::*;
use crate::clock::{compact_stamp, digits, elapsed_text};
use crate::entry::{EntryInfo, EntryKind};
use crate::listing::{dir_count, file_bytes, file_count, is_largest_file, is_smallest_file, paths_of_kind};
use crate::size_text::{
    excess_bits, f64_nearest, kb_or_bytes_text, scaled_text, lemma_nearest_monotone, lemma_round_monotone, rank_bytes, rank_unit,
    round_half_even, size_figure, size_rank, size_text, two_decimals, two_pow, MB,
};
use crate::text::{decimal, padded_left, padded_right, repeated};
use crate::report::{file_size_lines_of, icon, summary_line_text, table_row_text};
use crate::walk::{paths_with_name_prefix, relocations_of};

verus! {

/// Sizes below 2^53 bytes reach `f64` exactly, so the printed sizes of all
/// such files are the exact quotient rounded to hundredths.
pub proof fn exact_below_two_pow_53(bytes: nat)
    requires
        bytes < 9007199254740992,
    ensures
        f64_nearest(bytes) == bytes,
{
    assert(excess_bits(bytes) == 0);
    assert(two_pow(0) == 1);
    assert(bytes / 1 == bytes && bytes % 1 == 0);
    assert(round_half_even(bytes, 1) == bytes);
}

/// Below one mebibyte the readable size and the metadata analysis agree:
/// both give KB with two decimals from 1024 bytes on, else the byte count.
pub proof fn size_texts_agree_below_mb(bytes: nat)
    requires
        bytes < MB,
    ensures
        size_text(bytes) == kb_or_bytes_text(bytes),
{
}

/// The readable size is the size's figure in hundredths of its unit, written
/// with two decimals and the unit's name, or for less than a kibibyte the
/// whole count of bytes.
pub proof fn size_text_shows_figure(bytes: nat)
    ensures
        size_rank(bytes) == 0 ==> size_text(bytes) == decimal(size_figure(bytes) / 100) + " bytes"@,
        size_rank(bytes) > 0 ==> size_text(bytes) == two_decimals(size_figure(bytes)) + seq![' ']
            + rank_unit(size_rank(bytes)),
{
    assert((bytes * 100) / 100 == bytes);
}

/// A larger size never reads smaller: its unit is at least as large and, in
/// the same unit, its figure is at least as large.
pub proof fn larger_sizes_read_larger(a: nat, b: nat)
    requires
        a <= b,
    ensures
        size_rank(a) <= size_rank(b),
        size_rank(a) == size_rank(b) ==> size_figure(a) <= size_figure(b),
{
    if size_rank(a) == size_rank(b) && size_rank(a) > 0 {
        lemma_nearest_monotone(a, b);
        lemma_round_monotone(f64_nearest(a) * 100, f64_nearest(b) * 100, rank_bytes(size_rank(a)));
    }
}

/// A listing has no more files and directories together than entries.
pub proof fn counts_within_listing(s: Seq<EntryInfo>)
    ensures
        file_count(s) + dir_count(s) <= s.len(),
    decreases s.len(),
{
    if s.len() > 0 {
        counts_within_listing(s.drop_last());
    }
}

/// The files-only and directories-only listings have as many paths as the
/// statistics count files and directories.
pub proof fn filtered_listings_match_counts(s: Seq<EntryInfo>)
    ensures
        paths_of_kind(s, EntryKind::File).len() == file_count(s),
        paths_of_kind(s, EntryKind::Dir).len() == dir_count(s),
    decreases s.len(),
{
    if s.len() > 0 {
        filtered_listings_match_counts(s.drop_last());
    }
}

/// Moving or backing up the files of a listing relocates exactly its files,
/// each to the destination directory under its own name.
pub proof fn relocations_are_the_files(s: Seq<EntryInfo>, dest: Seq<char>)
    ensures
        relocations_of(s, dest).len() == file_count(s),
        forall|i: int| 0 <= i < relocations_of(s, dest).len() ==>
            (#[trigger] relocations_of(s, dest)[i]).2 == dest + relocations_of(s, dest)[i].1,
    decreases s.len(),
{
    if s.len() > 0 {
        relocations_are_the_files(s.drop_last(), dest);
        let prev = relocations_of(s.drop_last(), dest);
        assert forall|i: int| 0 <= i < relocations_of(s, dest).len() implies
            (#[trigger] relocations_of(s, dest)[i]).2 == dest + relocations_of(s, dest)[i].1 by {
            if i < prev.len() {
                assert(relocations_of(s, dest)[i] == prev[i]);
            }
        }
    }
}

/// The smallest file is no larger than the largest, and where they are of
/// equal size (all files the same size) the smallest comes first.
pub proof fn smallest_not_above_largest(s: Seq<EntryInfo>, i: int, j: int)
    requires
        is_smallest_file(s, i),
        is_largest_file(s, j),
    ensures
        s[i].size <= s[j].size,
        s[i].size == s[j].size ==> i <= j,
{
    assert(s[i].size <= s[j].size);
    if s[i].size == s[j].size && j < i {
        assert(s[j].size > s[i].size);
    }
}

/// The total file size is at least the size of each file.
pub proof fn total_covers_each_file(s: Seq<EntryInfo>, k: int)
    requires
        0 <= k < s.len(),
        s[k].kind is File,
    ensures
        s[k].size <= file_bytes(s),
    decreases s.len(),
{
    if k < s.len() - 1 {
        total_covers_each_file(s.drop_last(), k);
    }
}

proof fn digits_len(n: nat, w: nat)
    ensures
        digits(n, w).len() == w,
    decreases w,
{
    if w > 0 {
        digits_len(n / 10, (w - 1) as nat);
    }
}

/// Every timestamp of years 0 to 9999 in a backup or version name has the
/// same width: eight date digits, `_`, six time digits.
pub proof fn stamp_width(secs: int)
    requires
        -62167219200 <= secs <= 253402300799,
    ensures
        compact_stamp(secs).len() == 15,
{
    let t = secs % 86400;
    let (y, m, d) = crate::clock::civil_from_days(secs / 86400);
    digits_len(y as nat, 4);
    digits_len(m as nat, 2);
    digits_len(d as nat, 2);
    digits_len((t / 3600) as nat, 2);
    digits_len((t % 3600 / 60) as nat, 2);
    digits_len((t % 60) as nat, 2);
}

/// The prefix test of the pattern delete: `prefix` is an initial segment of
/// `name`.
pub open spec fn begins_with(name: Seq<char>, prefix: Seq<char>) -> bool {
    prefix.len() <= name.len() && name.subrange(0, prefix.len() as int) == prefix
}

/// The pattern delete selects, in listing order, the path of exactly those
/// entries whose name begins with the prefix; a name that holds the prefix
/// only further in is not selected.
pub proof fn pattern_selects_initial_segments(s: Seq<EntryInfo>, prefix: Seq<char>)
    ensures
        paths_with_name_prefix(s, prefix)
            == s.filter(|e: EntryInfo| begins_with(e.name@, prefix)).map_values(|e: EntryInfo| e.path@),
    decreases s.len(),
{
    reveal(Seq::filter);
    if s.len() > 0 {
        pattern_selects_initial_segments(s.drop_last(), prefix);
        let f = s.drop_last().filter(|e: EntryInfo| begins_with(e.name@, prefix));
        assert(f.push(s.last()).map_values(|e: EntryInfo| e.path@)
            =~= f.map_values(|e: EntryInfo| e.path@).push(s.last().path@));
    } else {
        assert(s.filter(|e: EntryInfo| begins_with(e.name@, prefix)).map_values(|e: EntryInfo| e.path@)
            =~= Seq::empty());
    }
}

/// The time since a change is written in the largest unit it reaches, as the
/// count of whole units: `n` seconds below a minute, `n` minutes below an
/// hour, `n` hours below a day, else `n` days, where `n` units fit in the
/// time and `n + 1` do not. So more time never reads as less.
pub proof fn elapsed_counts_whole_units(secs: nat, n: nat)
    ensures
        secs < 60 && n == secs ==> elapsed_text(secs) == decimal(n) + " 秒前"@,
        60 <= secs < 3600 && n * 60 <= secs < (n + 1) * 60 ==> elapsed_text(secs) == decimal(n) + " 分钟前"@,
        3600 <= secs < 86400 && n * 3600 <= secs < (n + 1) * 3600
            ==> elapsed_text(secs) == decimal(n) + " 小时前"@,
        86400 <= secs && n * 86400 <= secs < (n + 1) * 86400 ==> elapsed_text(secs) == decimal(n) + " 天前"@,
{
    if 60 <= secs && n * 60 <= secs < (n + 1) * 60 {
        vstd::arithmetic::div_mod::lemma_fundamental_div_mod_converse(secs as int, 60, n as int, secs - n * 60);
    }
    if 3600 <= secs && n * 3600 <= secs < (n + 1) * 3600 {
        vstd::arithmetic::div_mod::lemma_fundamental_div_mod_converse(secs as int, 3600, n as int, secs - n * 3600);
    }
    if 86400 <= secs && n * 86400 <= secs < (n + 1) * 86400 {
        vstd::arithmetic::div_mod::lemma_fundamental_div_mod_converse(
            secs as int, 86400, n as int, secs - n * 86400);
    }
}

/// The width a text takes in a field of `w` characters: the field, or the
/// whole text where it is longer.
pub open spec fn field_width(t: Seq<char>, w: nat) -> nat {
    if t.len() < w { w } else { t.len() }
}

proof fn lemma_spaces(n: nat)
    ensures
        repeated(seq![' '], n).len() == n,
        forall|i: int| 0 <= i < n ==> #[trigger] repeated(seq![' '], n)[i] == ' ',
    decreases n,
{
    if n > 0 {
        lemma_spaces((n - 1) as nat);
    }
}

/// Left alignment keeps the whole text and only adds spaces after it.
proof fn lemma_left_aligned(t: Seq<char>, w: nat)
    ensures
        padded_right(t, w).len() == field_width(t, w),
        padded_right(t, w).subrange(0, t.len() as int) == t,
        forall|i: int| t.len() <= i < field_width(t, w) ==> #[trigger] padded_right(t, w)[i] == ' ',
{
    if t.len() < w {
        lemma_spaces((w - t.len()) as nat);
    }
    assert(padded_right(t, w).subrange(0, t.len() as int) =~= t);
}

/// Right alignment keeps the whole text and only adds spaces before it.
proof fn lemma_right_aligned(t: Seq<char>, w: nat)
    ensures
        padded_left(t, w).len() == field_width(t, w),
        padded_left(t, w).subrange(field_width(t, w) - t.len(), field_width(t, w) as int) == t,
        forall|i: int| 0 <= i < field_width(t, w) - t.len() ==> #[trigger] padded_left(t, w)[i] == ' ',
{
    if t.len() < w {
        lemma_spaces((w - t.len()) as nat);
    }
    assert(padded_left(t, w).subrange(field_width(t, w) - t.len(), field_width(t, w) as int) =~= t);
}

/// A row of the size comparison table holds its three texts whole: three
/// spaces, the first text and spaces up to 30 characters, a space, spaces up
/// to 15 characters ending with the second text, a space, spaces up to 10
/// characters ending with the third text. A text longer than its column is
/// written in full and widens the row.
pub proof fn table_row_keeps_columns_whole(name: Seq<char>, size: Seq<char>, kind: Seq<char>)
    ensures
        table_row_text(name, size, kind).len()
            == 5 + field_width(name, 30) + field_width(size, 15) + field_width(kind, 10),
        table_row_text(name, size, kind).subrange(0, 3 + name.len() as int) == "   "@ + name,
        forall|i: int| 3 + name.len() <= i < 4 + field_width(name, 30) + field_width(size, 15) - size.len()
            ==> #[trigger] table_row_text(name, size, kind)[i] == ' ',
        table_row_text(name, size, kind).subrange(
            4 + field_width(name, 30) + field_width(size, 15) - size.len(),
            4 + field_width(name, 30) + field_width(size, 15) as int,
        ) == size,
        forall|i: int|
            4 + field_width(name, 30) + field_width(size, 15) <= i < 5 + field_width(name, 30)
                + field_width(size, 15) + field_width(kind, 10) - kind.len()
            ==> #[trigger] table_row_text(name, size, kind)[i] == ' ',
        table_row_text(name, size, kind).subrange(
            5 + field_width(name, 30) + field_width(size, 15) + field_width(kind, 10) - kind.len(),
            5 + field_width(name, 30) + field_width(size, 15) + field_width(kind, 10) as int,
        ) == kind,
{
    reveal_strlit("   ");
    reveal_strlit(" ");
    lemma_left_aligned(name, 30);
    lemma_right_aligned(size, 15);
    lemma_right_aligned(kind, 10);
    let a = padded_right(name, 30);
    let b = padded_left(size, 15);
    let c = padded_left(kind, 10);
    let w1 = field_width(name, 30);
    let w2 = field_width(size, 15);
    let w3 = field_width(kind, 10);
    let row = table_row_text(name, size, kind);
    assert(row == "   "@ + a + " "@ + b + " "@ + c);
    assert(row.subrange(0, 3 + name.len() as int) =~= "   "@ + name) by {
        assert forall|i: int| 0 <= i < name.len() implies a[i] == name[i] by {
            assert(a.subrange(0, name.len() as int)[i] == a[i]);
        }
    }
    assert forall|i: int| 3 + name.len() <= i < 4 + w1 + w2 - size.len() implies #[trigger] row[i] == ' ' by {
        if i < 3 + w1 {
            assert(row[i] == a[i - 3]);
        } else if i > 3 + w1 {
            assert(row[i] == b[i - 4 - w1]);
        }
    }
    assert(row.subrange(4 + w1 + w2 - size.len(), 4 + w1 + w2 as int) =~= size) by {
        assert forall|i: int| 0 <= i < size.len() implies row[4 + w1 + w2 - size.len() + i] == size[i] by {
            assert(b.subrange(w2 - size.len(), w2 as int)[i] == b[w2 - size.len() + i]);
        }
    }
    assert forall|i: int| 4 + w1 + w2 <= i < 5 + w1 + w2 + w3 - kind.len() implies #[trigger] row[i] == ' ' by {
        if i > 4 + w1 + w2 {
            assert(row[i] == c[i - 5 - w1 - w2]);
        }
    }
    assert(row.subrange(5 + w1 + w2 + w3 - kind.len(), 5 + w1 + w2 + w3 as int) =~= kind) by {
        assert forall|i: int| 0 <= i < kind.len() implies row[5 + w1 + w2 + w3 - kind.len() + i] == kind[i] by {
            assert(c.subrange(w3 - kind.len(), w3 as int)[i] == c[w3 - kind.len() + i]);
        }
    }
}

/// A line of the entry summary holds the entry's whole name: three spaces,
/// the icon and a space, the full name, spaces only where the name is
/// shorter than 25 characters, then a space and the readable size of a file
/// or `-` for a directory.
pub proof fn summary_line_keeps_name_whole(e: EntryInfo)
    ensures
        summary_line_text(e).subrange(0, 4 + icon(e).len() as int) == "   "@ + icon(e) + " "@,
        summary_line_text(e).subrange(4 + icon(e).len() as int, 4 + icon(e).len() + e.name@.len() as int) == e.name@,
        forall|i: int| 4 + icon(e).len() + e.name@.len() <= i < 4 + icon(e).len() + field_width(e.name@, 25)
            ==> #[trigger] summary_line_text(e)[i] == ' ',
        summary_line_text(e).subrange(
            4 + icon(e).len() + field_width(e.name@, 25) as int,
            summary_line_text(e).len() as int,
        )
            == " "@ + (if e.kind is File { size_text(e.size as nat) } else { "-"@ }),
{
    reveal_strlit("   ");
    reveal_strlit(" ");
    let name = e.name@;
    lemma_left_aligned(name, 25);
    let a = padded_right(name, 25);
    let k: int = 4 + icon(e).len() as int;
    let w: int = field_width(name, 25) as int;
    let tail = " "@ + (if e.kind is File { size_text(e.size as nat) } else { "-"@ });
    let line = summary_line_text(e);
    assert(line =~= ("   "@ + icon(e) + " "@) + a + tail);
    assert(line.subrange(0, k) =~= "   "@ + icon(e) + " "@);
    assert(line.subrange(k, k + name.len()) =~= name) by {
        assert forall|i: int| 0 <= i < name.len() implies a[i] == name[i] by {
            assert(a.subrange(0, name.len() as int)[i] == a[i]);
        }
    }
    assert forall|i: int| k + name.len() <= i < k + w implies #[trigger] line[i] == ' ' by {
        assert(line[i] == a[i - k]);
    }
    assert(line.subrange(k + w, line.len() as int) =~= tail);
}

/// The files of a listing, in listing order.
pub open spec fn files_of(s: Seq<EntryInfo>) -> Seq<EntryInfo> {
    s.filter(|e: EntryInfo| e.kind is File)
}

/// `text` gives `bytes` as the metadata analysis lists a file's size: below
/// 1024 the count of bytes, else a count of hundredths with two decimals and
/// ` KB` whose KB value lies within half a hundredth of the size (as `f64`)
/// divided by 1024.
pub open spec fn shows_size_in_kb(text: Seq<char>, bytes: nat) -> bool {
    if bytes < 1024 {
        text == decimal(bytes) + " bytes"@
    } else {
        exists|h: nat|
            #[trigger] two_decimals(h) + " KB"@ == text && 100 * f64_nearest(bytes) <= 1024 * h + 512
                && 1024 * h <= 100 * f64_nearest(bytes) + 512
    }
}

/// `line` lists the file `e`: the icon, its name, ` - ` and its size.
pub open spec fn lists_file(line: Seq<char>, e: EntryInfo) -> bool {
    let head = "  📄 "@ + e.name@ + " - "@;
    &&& head.len() <= line.len()
    &&& line.subrange(0, head.len() as int) == head
    &&& shows_size_in_kb(line.skip(head.len() as int), e.size as nat)
}

proof fn lemma_file_line(e: EntryInfo)
    ensures
        lists_file("  📄 "@ + e.name@ + " - "@ + kb_or_bytes_text(e.size as nat), e),
{
    let head = "  📄 "@ + e.name@ + " - "@;
    let t = kb_or_bytes_text(e.size as nat);
    let line = head + t;
    assert(line.subrange(0, head.len() as int) =~= head);
    assert(line.skip(head.len() as int) =~= t);
    if e.size >= 1024 {
        reveal_strlit(" KB");
        reveal_strlit("KB");
        let n = f64_nearest(e.size as nat) * 100;
        let h = round_half_even(n, 1024);
        assert(t == scaled_text(e.size as nat, 1024, "KB"@));
        assert(two_decimals(h) + " KB"@ =~= t);
        assert(n <= 1024 * h + 512 && 1024 * h <= n + 512);
    }
}

/// The file list of the metadata analysis has one line per file, in listing
/// order, and each gives the file's name and its size: the byte count below
/// 1024 bytes, else the size divided by 1024 to the nearest hundredth.
pub proof fn file_lines_give_kb_to_hundredths(s: Seq<EntryInfo>)
    ensures
        file_size_lines_of(s).len() == files_of(s).len(),
        forall|j: int| 0 <= j < files_of(s).len() ==> lists_file(#[trigger] file_size_lines_of(s)[j], files_of(s)[j]),
    decreases s.len(),
{
    reveal(Seq::filter);
    if s.len() > 0 {
        let r = s.drop_last();
        file_lines_give_kb_to_hundredths(r);
        assert(files_of(s) == if s.last().kind is File { files_of(r).push(s.last()) } else { files_of(r) });
        let e = s.last();
        lemma_file_line(e);
        assert forall|j: int| 0 <= j < files_of(s).len() implies lists_file(
            #[trigger] file_size_lines_of(s)[j],
            files_of(s)[j],
        ) by {
            if j < files_of(r).len() {
                assert(lists_file(file_size_lines_of(r)[j], files_of(r)[j]));
            }
        }
    } else {
        assert(files_of(s) =~= Seq::empty());
    }
}

} // verus!
