//! What hooks get to see of a changeset: the files it changed.

use vstd::prelude::*;
use crate::manifest::{ChangedEntry, Entry, EntryStatus};
use crate::path::MPath;
use crate::text::{join, string_from_utf8_lossy, utf8_lossy};

verus! {

/// How a changeset changed a file.
#[derive(Clone, Copy, Debug, PartialEq, Eq, Structural)]
pub enum ChangedFileType {
    Added,
    Deleted,
    Modified,
}

impl ChangedFileType {
    /// How a changeset changed a file, from how its entry differs.
    pub fn from_status(status: &EntryStatus) -> (t: ChangedFileType)
        ensures
            t == (match *status {
                EntryStatus::Added(e) => ChangedFileType::Added,
                EntryStatus::Deleted(e) => ChangedFileType::Deleted,
                EntryStatus::Modified { to_entry, from_entry } => ChangedFileType::Modified,
            }),
    {
        match status {
            EntryStatus::Added(_) => ChangedFileType::Added,
            EntryStatus::Deleted(_) => ChangedFileType::Deleted,
            EntryStatus::Modified { .. } => ChangedFileType::Modified,
        }
    }
}

/// The entry that a difference is about: the new one where there is one.
pub open spec fn subject(status: EntryStatus) -> Entry {
    match status {
        EntryStatus::Added(e) => e,
        EntryStatus::Deleted(e) => e,
        EntryStatus::Modified { to_entry, from_entry } => to_entry,
    }
}

/// Where a difference is: the directory and the name of the entry.
pub open spec fn full_path(entry: ChangedEntry) -> Seq<Seq<u8>> {
    let base = match entry.dirname {
        Some(d) => d@,
        None => Seq::empty(),
    };
    match subject(entry.status).name {
        Some(n) => base.push(n@),
        None => base,
    }
}

/// Whether a difference is anywhere: it has a directory or a name.
pub open spec fn has_path(entry: ChangedEntry) -> bool {
    entry.dirname is Some || subject(entry.status).name is Some
}

impl ChangedEntry {
    /// Where the difference is; nothing for a difference with neither a
    /// directory nor a name.
    pub fn get_full_path(&self) -> (p: Option<MPath>)
        ensures
            p is Some <==> has_path(*self),
            p matches Some(path) ==> path@ == full_path(*self),
    {
        let name = match &self.status {
            EntryStatus::Added(e) => e.name.as_ref(),
            EntryStatus::Deleted(e) => e.name.as_ref(),
            EntryStatus::Modified { to_entry, from_entry } => to_entry.name.as_ref(),
        };
        MPath::join_element_opt(self.dirname.as_ref(), name)
    }
}

/// The files that a changeset changed, as hooks see them: the path of
/// each as text, read leniently, and how it changed. Each difference has
/// a path.
pub fn get_changed_files(changed: &Vec<ChangedEntry>) -> (files: Vec<(String, ChangedFileType)>)
    requires
        forall|i: int| 0 <= i < changed@.len() ==> has_path(#[trigger] changed@[i]),
    ensures
        files@.len() == changed@.len(),
        forall|i: int|
            0 <= i < files@.len() ==> (#[trigger] files@[i]).0@ == utf8_lossy(
                join(full_path(changed@[i]), seq![47u8]),
            ) && files@[i].1 == (match changed@[i].status {
                EntryStatus::Added(e) => ChangedFileType::Added,
                EntryStatus::Deleted(e) => ChangedFileType::Deleted,
                EntryStatus::Modified { to_entry, from_entry } => ChangedFileType::Modified,
            }),
{
    let mut files: Vec<(String, ChangedFileType)> = Vec::new();
    let mut i: usize = 0;
    while i < changed.len()
        invariant
            i <= changed.len(),
            forall|j: int| 0 <= j < changed@.len() ==> has_path(#[trigger] changed@[j]),
            files@.len() == i,
            forall|j: int|
                0 <= j < i ==> (#[trigger] files@[j]).0@ == utf8_lossy(
                    join(full_path(changed@[j]), seq![47u8]),
                ) && files@[j].1 == (match changed@[j].status {
                    EntryStatus::Added(e) => ChangedFileType::Added,
                    EntryStatus::Deleted(e) => ChangedFileType::Deleted,
                    EntryStatus::Modified { to_entry, from_entry } => ChangedFileType::Modified,
                }),
        decreases changed.len() - i,
    {
        let text = match changed[i].get_full_path() {
            Some(path) => string_from_utf8_lossy(path.to_vec().as_slice()),
            None => String::new(),
        };
        let kind = ChangedFileType::from_status(&changed[i].status);
        files.push((text, kind));
        i += 1;
    }
    files
}

} // verus!
