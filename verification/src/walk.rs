//! What the walkthroughs do with the entries of one directory: tree lines,
//! moving or copying files into another directory, and selecting entries by
//! name.

use vstd::prelude::*;
use crate::entry::EntryInfo;
use crate::listing::texts;
use crate::text::{decimal, push_decimal, push_repeated, repeated};

verus! {

/// The two shapes of tree printout.
#[derive(PartialEq, Eq, Structural, Clone, Copy, Debug)]
pub enum TreeStyle {
    /// Icon and name.
    Names,
    /// Icon and name, and for a file its size: `name (N bytes)`.
    NamesAndSizes,
}

/// The tree line of an entry at depth `indent`: two spaces per level, the
/// folder icon for a directory and the document icon otherwise, a space and
/// the name.
pub open spec fn tree_line(e: EntryInfo, indent: nat, style: TreeStyle) -> Seq<char> {
    repeated("  "@, indent) + (if e.kind is Dir { "📁"@ } else { "📄"@ }) + " "@ + e.name@
        + if style is NamesAndSizes && !(e.kind is Dir) {
            " ("@ + decimal(e.size as nat) + " bytes)"@
        } else {
            Seq::empty()
        }
}

/// The tree line of one entry.
pub fn render_tree_line(e: &EntryInfo, indent: usize, style: TreeStyle) -> (line: String)
    ensures
        line@ == tree_line(*e, indent as nat, style),
{
    let mut line = String::new();
    push_repeated(&mut line, "  ", indent);
    if e.kind.is_dir() {
        line.append("📁");
    } else {
        line.append("📄");
    }
    line.append(" ");
    line.append(e.name.as_str());
    if style == TreeStyle::NamesAndSizes && !e.kind.is_dir() {
        line.append(" (");
        push_decimal(&mut line, e.size as u128);
        line.append(" bytes)");
    }
    assert(line@ =~= tree_line(*e, indent as nat, style));
    line
}

/// The (source, name, destination) of each file of `s` when the files are
/// moved or copied into the directory `dest` under their own names, in
/// listing order.
pub open spec fn relocations_of(s: Seq<EntryInfo>, dest: Seq<char>) -> Seq<(Seq<char>, Seq<char>, Seq<char>)>
    decreases s.len(),
{
    if s.len() == 0 {
        Seq::empty()
    } else if s.last().kind is File {
        relocations_of(s.drop_last(), dest).push((s.last().path@, s.last().name@, dest + s.last().name@))
    } else {
        relocations_of(s.drop_last(), dest)
    }
}

/// One file to move or copy: where it is, its name, where it goes.
pub struct Relocation {
    pub from: String,
    pub name: String,
    pub to: String,
}

/// The plain values of a list of relocations.
pub open spec fn relocation_texts(v: Seq<Relocation>) -> Seq<(Seq<char>, Seq<char>, Seq<char>)> {
    v.map_values(|r: Relocation| (r.from@, r.name@, r.to@))
}

/// Where each file of a listing goes when the files are moved or backed up
/// into `dest` (a directory path ending in `/`).
pub fn relocations(entries: &Vec<EntryInfo>, dest: &str) -> (r: Vec<Relocation>)
    ensures
        relocation_texts(r@) == relocations_of(entries@, dest@),
{
    let mut r: Vec<Relocation> = Vec::new();
    let mut i: usize = 0;
    while i < entries.len()
        invariant
            i <= entries.len(),
            relocation_texts(r@) == relocations_of(entries@.take(i as int), dest@),
        decreases entries.len() - i,
    {
        proof {
            assert(entries@.take(i + 1).drop_last() =~= entries@.take(i as int));
        }
        let e = &entries[i];
        if e.kind.is_file() {
            let mut to = String::from_str(dest);
            to.append(e.name.as_str());
            r.push(Relocation { from: e.path.clone(), name: e.name.clone(), to });
        }
        assert(relocation_texts(r@) =~= relocations_of(entries@.take(i + 1), dest@));
        i = i + 1;
    }
    assert(entries@.take(i as int) =~= entries@);
    r
}

/// The paths of the entries of `s` whose name begins with `prefix`.
pub open spec fn paths_with_name_prefix(s: Seq<EntryInfo>, prefix: Seq<char>) -> Seq<Seq<char>>
    decreases s.len(),
{
    if s.len() == 0 {
        Seq::empty()
    } else if prefix.is_prefix_of(s.last().name@) {
        paths_with_name_prefix(s.drop_last(), prefix).push(s.last().path@)
    } else {
        paths_with_name_prefix(s.drop_last(), prefix)
    }
}

/// Whether `text` begins with `prefix`.
pub fn starts_with(text: &str, prefix: &str) -> (b: bool)
    ensures
        b == prefix@.is_prefix_of(text@),
{
    let n = text.unicode_len();
    let m = prefix.unicode_len();
    if m > n {
        return false;
    }
    let mut i: usize = 0;
    while i < m
        invariant
            i <= m <= n,
            n == text@.len(),
            m == prefix@.len(),
            forall|j: int| 0 <= j < i ==> prefix@[j] == text@[j],
        decreases m - i,
    {
        if text.get_char(i) != prefix.get_char(i) {
            return false;
        }
        i = i + 1;
    }
    assert(prefix@ =~= text@.subrange(0, m as int));
    true
}

/// The entries of a listing whose name begins with `prefix` (the pattern
/// delete of the walkthrough), by path in listing order.
pub fn paths_named_with_prefix(entries: &Vec<EntryInfo>, prefix: &str) -> (r: Vec<String>)
    ensures
        texts(r@) == paths_with_name_prefix(entries@, prefix@),
{
    let mut r: Vec<String> = Vec::new();
    let mut i: usize = 0;
    while i < entries.len()
        invariant
            i <= entries.len(),
            texts(r@) == paths_with_name_prefix(entries@.take(i as int), prefix@),
        decreases entries.len() - i,
    {
        proof {
            assert(entries@.take(i + 1).drop_last() =~= entries@.take(i as int));
        }
        if starts_with(entries[i].name.as_str(), prefix) {
            r.push(entries[i].path.clone());
        }
        assert(texts(r@) =~= paths_with_name_prefix(entries@.take(i + 1), prefix@));
        i = i + 1;
    }
    assert(entries@.take(i as int) =~= entries@);
    r
}

} // verus!
