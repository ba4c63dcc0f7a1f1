//! The rows of a directory listing page: for each entry of a directory, its
//! name, whether it is a directory, its type tag and its size.

use vstd::prelude::*;

use crate::vfs::{VfsEntry, VfsEntryData};

verus! {

/// One row of a directory listing.
#[derive(Debug, Clone)]
pub struct DirectoryListingEntry {
    pub is_directory: bool,
    pub file_type: String,
    pub file_name: String,
    pub file_size_bytes: u64,
}

/// Whether `row` lists the entry `entry` under the name `name`: a regular
/// file is tagged `REG` with its length, a directory `DIR` with size zero.
pub open spec fn lists(row: DirectoryListingEntry, name: Seq<char>, entry: VfsEntry) -> bool {
    &&& row.file_name@ == name
    &&& match entry.data {
        VfsEntryData::Regular(reg) => {
            &&& !row.is_directory
            &&& row.file_type@ == "REG"@
            &&& row.file_size_bytes == reg.file_length as u64
        },
        VfsEntryData::Directory(_) => {
            &&& row.is_directory
            &&& row.file_type@ == "DIR"@
            &&& row.file_size_bytes == 0
        },
    }
}

/// The listing rows of the directory entries `dir`, in their order.
pub fn listing_entries(dir: &Vec<(String, VfsEntry)>) -> (r: Vec<DirectoryListingEntry>)
    ensures
        r.len() == dir.len(),
        forall|i: int| 0 <= i < dir.len() ==> lists(#[trigger] r[i], dir[i].0@, dir[i].1),
{
    let mut entries: Vec<DirectoryListingEntry> = Vec::new();
    let mut i: usize = 0;
    while i < dir.len()
        invariant
            0 <= i <= dir.len(),
            entries.len() == i,
            forall|k: int| 0 <= k < i ==> lists(#[trigger] entries[k], dir[k].0@, dir[k].1),
        decreases dir.len() - i,
    {
        let (name, entry) = &dir[i];
        let row = match &entry.data {
            VfsEntryData::Regular(reg) => DirectoryListingEntry {
                is_directory: false,
                file_type: String::from_str("REG"),
                file_name: name.clone(),
                file_size_bytes: reg.file_length as u64,
            },
            VfsEntryData::Directory(_) => DirectoryListingEntry {
                is_directory: true,
                file_type: String::from_str("DIR"),
                file_name: name.clone(),
                file_size_bytes: 0,
            },
        };
        entries.push(row);
        i = i + 1;
    }
    entries
}

} // verus!
