//! The lines the walkthroughs print about listed entries, and the numbered
//! names and contents of their batch files.

use vstd::prelude::*;
use crate::entry::EntryInfo;
use crate::listing::texts;
use crate::size_text::{format_kb_or_bytes, format_size, kb_or_bytes_text, size_text};
use crate::text::{decimal, pad_left, pad_right, padded_left, padded_right, push_decimal};

verus! {

/// `prefix`, the decimal `n`, `suffix`: `file_{n}.txt` names and numbered contents.
pub open spec fn numbered(prefix: Seq<char>, n: nat, suffix: Seq<char>) -> Seq<char> {
    prefix + decimal(n) + suffix
}

/// The numbered name or content of the `n`-th batch item.
pub fn numbered_text(prefix: &str, n: u64, suffix: &str) -> (s: String)
    ensures
        s@ == numbered(prefix@, n as nat, suffix@),
{
    let mut s = String::from_str(prefix);
    push_decimal(&mut s, n as u128);
    s.append(suffix);
    s
}

/// A row of the size comparison table: three spaces, the first column
/// left-aligned in 30 characters, the second right-aligned in 15 and the
/// third right-aligned in 10, separated by single spaces.
pub open spec fn table_row_text(name: Seq<char>, size: Seq<char>, kind: Seq<char>) -> Seq<char> {
    "   "@ + padded_right(name, 30) + " "@ + padded_left(size, 15) + " "@ + padded_left(kind, 10)
}

/// A row of the size comparison table (`   {:<30} {:>15} {:>10}`).
pub fn table_row(name: &str, size: &str, kind: &str) -> (s: String)
    ensures
        s@ == table_row_text(name@, size@, kind@),
{
    let mut s = String::from_str("   ");
    let a = pad_right(name, 30);
    s.append(a.as_str());
    s.append(" ");
    let b = pad_left(size, 15);
    s.append(b.as_str());
    s.append(" ");
    let c = pad_left(kind, 10);
    s.append(c.as_str());
    assert(s@ =~= table_row_text(name@, size@, kind@));
    s
}

/// The folder icon for a directory, the document icon otherwise.
pub open spec fn icon(e: EntryInfo) -> Seq<char> {
    if e.kind is Dir { "📁"@ } else { "📄"@ }
}

/// A line of the entry summary: icon, name left-aligned in 25 characters,
/// and the readable size of a file or `-`.
pub open spec fn summary_line_text(e: EntryInfo) -> Seq<char> {
    "   "@ + icon(e) + " "@ + padded_right(e.name@, 25) + " "@
        + if e.kind is File { size_text(e.size as nat) } else { "-"@ }
}

fn push_icon(s: &mut String, e: &EntryInfo)
    ensures
        final(s)@ == old(s)@ + icon(*e),
{
    if e.kind.is_dir() {
        s.append("📁");
    } else {
        s.append("📄");
    }
}

/// A line of the entry summary (`   {icon} {name:<25} {size}`).
pub fn summary_line(e: &EntryInfo) -> (s: String)
    ensures
        s@ == summary_line_text(*e),
{
    let mut s = String::from_str("   ");
    push_icon(&mut s, e);
    s.append(" ");
    let name = pad_right(e.name.as_str(), 25);
    s.append(name.as_str());
    s.append(" ");
    if e.kind.is_file() {
        let size = format_size(e.size);
        s.append(size.as_str());
    } else {
        s.append("-");
    }
    assert(s@ =~= summary_line_text(*e));
    s
}

/// A line of the detailed listing: icon, path, and in brackets the byte
/// count of a file or `-`.
pub open spec fn detail_line_text(e: EntryInfo) -> Seq<char> {
    "   "@ + icon(e) + " "@ + e.path@ + " ("@
        + (if e.kind is File { decimal(e.size as nat) + " bytes"@ } else { "-"@ }) + ")"@
}

/// A line of the detailed listing (`   {icon} {path} ({size})`).
pub fn detail_line(e: &EntryInfo) -> (s: String)
    ensures
        s@ == detail_line_text(*e),
{
    let mut s = String::from_str("   ");
    push_icon(&mut s, e);
    s.append(" ");
    s.append(e.path.as_str());
    s.append(" (");
    if e.kind.is_file() {
        push_decimal(&mut s, e.size as u128);
        s.append(" bytes");
    } else {
        s.append("-");
    }
    s.append(")");
    assert(s@ =~= detail_line_text(*e));
    s
}

/// A line of the root listing: `📁 DIR ` for a directory, `📄 FILE`
/// otherwise, then the path.
pub open spec fn root_line_text(e: EntryInfo) -> Seq<char> {
    "   "@ + (if e.kind is Dir { "📁 DIR "@ } else { "📄 FILE"@ }) + " "@ + e.path@
}

/// A line of the root listing (`   {mode} {path}`).
pub fn root_line(e: &EntryInfo) -> (s: String)
    ensures
        s@ == root_line_text(*e),
{
    let mut s = String::from_str("   ");
    if e.kind.is_dir() {
        s.append("📁 DIR ");
    } else {
        s.append("📄 FILE");
    }
    s.append(" ");
    s.append(e.path.as_str());
    assert(s@ =~= root_line_text(*e));
    s
}

/// The file list of the metadata analysis: for each file of `s`, in
/// listing order, `  📄 {name} - {size}` with the size in KB from 1024 bytes
/// on, else in bytes.
pub open spec fn file_size_lines_of(s: Seq<EntryInfo>) -> Seq<Seq<char>>
    decreases s.len(),
{
    if s.len() == 0 {
        Seq::empty()
    } else if s.last().kind is File {
        file_size_lines_of(s.drop_last()).push("  📄 "@ + s.last().name@ + " - "@ + kb_or_bytes_text(s.last().size as nat))
    } else {
        file_size_lines_of(s.drop_last())
    }
}

/// The file list of the metadata analysis.
pub fn file_size_lines(entries: &Vec<EntryInfo>) -> (r: Vec<String>)
    ensures
        texts(r@) == file_size_lines_of(entries@),
{
    let mut r: Vec<String> = Vec::new();
    let mut i: usize = 0;
    while i < entries.len()
        invariant
            i <= entries.len(),
            texts(r@) == file_size_lines_of(entries@.take(i as int)),
        decreases entries.len() - i,
    {
        proof {
            assert(entries@.take(i + 1).drop_last() =~= entries@.take(i as int));
        }
        let e = &entries[i];
        if e.kind.is_file() {
            let mut line = String::from_str("  📄 ");
            line.append(e.name.as_str());
            line.append(" - ");
            let size = format_kb_or_bytes(e.size);
            line.append(size.as_str());
            r.push(line);
        }
        assert(texts(r@) =~= file_size_lines_of(entries@.take(i + 1)));
        i = i + 1;
    }
    assert(entries@.take(i as int) =~= entries@);
    r
}

/// The 256 bytes 0, 1, ..., 255 of the binary upload.
pub fn byte_ramp() -> (v: Vec<u8>)
    ensures
        v.len() == 256,
        forall|i: int| 0 <= i < 256 ==> v@[i] == i,
{
    let mut v: Vec<u8> = Vec::new();
    let mut b: u32 = 0;
    while b < 256
        invariant
            b <= 256,
            v.len() == b,
            forall|i: int| 0 <= i < b ==> v@[i] == i,
        decreases 256 - b,
    {
        v.push(b as u8);
        b = b + 1;
    }
    v
}

} // verus!
