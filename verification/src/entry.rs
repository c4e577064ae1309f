//! What the demos read of a listed storage entry, as plain values.

use vstd::prelude::*;

verus! {

/// The kind of a listed entry.
#[derive(PartialEq, Eq, Structural, Clone, Copy, Debug)]
pub enum EntryKind {
    File,
    Dir,
    Unknown,
}

/// One entry of a directory listing: its full path, its own name, its kind
/// and its size in bytes (0 where the service reports none).
pub struct EntryInfo {
    pub path: String,
    pub name: String,
    pub kind: EntryKind,
    pub size: u64,
}

impl EntryKind {
    /// Whether the entry is a file.
    pub fn is_file(&self) -> (b: bool)
        ensures
            b == (*self is File),
    {
        match self {
            EntryKind::File => true,
            _ => false,
        }
    }

    /// Whether the entry is a directory.
    pub fn is_dir(&self) -> (b: bool)
        ensures
            b == (*self is Dir),
    {
        match self {
            EntryKind::Dir => true,
            _ => false,
        }
    }
}

impl EntryInfo {
    /// An entry with the given parts.
    pub fn new(path: String, name: String, kind: EntryKind, size: u64) -> (e: EntryInfo)
        ensures
            e.path == path,
            e.name == name,
            e.kind == kind,
            e.size == size,
    {
        EntryInfo { path, name, kind, size }
    }

    /// A copy of the entry.
    pub fn duplicate(&self) -> (e: EntryInfo)
        ensures
            e == *self,
    {
        EntryInfo { path: self.path.clone(), name: self.name.clone(), kind: self.kind, size: self.size }
    }
}

} // verus!
