//! The rows that loading a torrent into the inode store writes: the root
//! directory, the torrent's record, and for each file of a multi-file
//! torrent the directories along its path (each made once) and the file.
//! The store assigns inode numbers; the caller writes each row and reports
//! the number back.

use vstd::prelude::*;

use crate::boot::str_equals;
use crate::torrent::{TorrentMetaInfo, TorrentMetaInfoFile};
use crate::vfs::{CreateInode, CreateTorrentMeta, InodeType};

verus! {

/// The row of the root directory of a torrent.
pub fn root_inode_row() -> (r: CreateInode)
    ensures
        r.parent is None,
        r.file_name@ == Seq::<char>::empty(),
        r.file_type == InodeType::Root,
        r.global_offset == 0,
        r.file_length == 0,
{
    CreateInode {
        parent: None,
        file_name: String::new(),
        file_type: InodeType::Root,
        global_offset: 0,
        file_length: 0,
    }
}

/// The record of a torrent whose info hash is written `content_key`, whose
/// root directory is `root_inode`.
pub fn torrent_meta_row(content_key: String, info: &TorrentMetaInfo, root_inode: i64) -> (r:
    CreateTorrentMeta)
    ensures
        r.content_key == content_key,
        r.piece_length_shift == info.piece_length_shift as i32,
        r.root_inode == root_inode,
        r.total_length == info.length as i64,
{
    CreateTorrentMeta {
        content_key,
        piece_length_shift: info.piece_length_shift as i32,
        root_inode,
        total_length: info.length as i64,
    }
}

/// The directories made so far, by parent inode and name.
pub struct DirectoryCache {
    entries: Vec<(i64, String, i64)>,
}

/// The inode of the directory `name` in `parent` among `entries`, the first
/// of a pair.
pub open spec fn cache_lookup(entries: Seq<(i64, String, i64)>, parent: i64, name: Seq<char>) -> Option<
    i64,
>
    decreases entries.len(),
{
    if entries.len() == 0 {
        None
    } else if entries[0].0 == parent && entries[0].1@ == name {
        Some(entries[0].2)
    } else {
        cache_lookup(entries.drop_first(), parent, name)
    }
}

/// Where a file's walk stands: the directory reached, and the index of the
/// path component to take next.
#[derive(Debug, Clone, Copy)]
pub struct FileWalk {
    pub current: i64,
    pub index: usize,
}

/// The characters of each component.
pub open spec fn path_chars(p: Seq<String>) -> Seq<Seq<char>> {
    p.map_values(|c: String| c@)
}

impl DirectoryCache {
    /// The inode of the directory `name` in `parent`, if it was made.
    pub closed spec fn lookup(&self, parent: i64, name: Seq<char>) -> Option<i64> {
        cache_lookup(self.entries@, parent, name)
    }

    /// Where the walk of `path` from `current` at `index` stops once it has
    /// gone through the directories already made: at the last component,
    /// or at one not made yet.
    pub open spec fn walk_stop(&self, path: Seq<Seq<char>>, current: i64, index: int) -> (i64, int)
        decreases path.len() - index,
    {
        if index < 0 || index >= path.len() - 1 {
            (current, index)
        } else {
            match self.lookup(current, path[index]) {
                Some(next) => self.walk_stop(path, next, index + 1),
                None => (current, index),
            }
        }
    }

    /// No directory made yet.
    pub fn new() -> (r: DirectoryCache)
        ensures
            forall|p: i64, n: Seq<char>| r.lookup(p, n) is None,
    {
        DirectoryCache { entries: Vec::new() }
    }

    /// The inode of the directory `name` in `parent`, if it was made.
    pub fn get(&self, parent: i64, name: &str) -> (r: Option<i64>)
        ensures
            r == self.lookup(parent, name@),
    {
        let mut i: usize = 0;
        assert(self.entries@.skip(0) =~= self.entries@);
        while i < self.entries.len()
            invariant
                0 <= i <= self.entries@.len(),
                cache_lookup(self.entries@, parent, name@) == cache_lookup(
                    self.entries@.skip(i as int),
                    parent,
                    name@,
                ),
            decreases self.entries@.len() - i,
        {
            assert(self.entries@.skip(i as int).drop_first() =~= self.entries@.skip(i + 1));
            if self.entries[i].0 == parent && str_equals(self.entries[i].1.as_str(), name) {
                return Some(self.entries[i].2);
            }
            i = i + 1;
        }
        None
    }

    /// The row that takes the walk `walk` of `file` one step further, after
    /// it has gone through the directories already made: the file itself
    /// at the last component, else the next directory to make.
    pub fn next_row(&self, walk: &mut FileWalk, file: &TorrentMetaInfoFile) -> (r: CreateInode)
        requires
            file.path@.len() > 0,
            old(walk).index < file.path@.len(),
        ensures
            ({
                let stop = self.walk_stop(
                    path_chars(file.path@),
                    old(walk).current,
                    old(walk).index as int,
                );
                &&& final(walk).current == stop.0
                &&& final(walk).index == stop.1
                &&& r.parent == Some(stop.0)
                &&& r.file_name@ == file.path@[stop.1]@
                &&& if stop.1 == file.path@.len() - 1 {
                    &&& r.file_type == InodeType::Regular
                    &&& r.global_offset == file.global_offset as i64
                    &&& r.file_length == file.length as i64
                } else {
                    &&& r.file_type == InodeType::Directory
                    &&& r.global_offset == 0
                    &&& r.file_length == 0
                }
            }),
            final(walk).index < file.path@.len(),
    {
        let ghost path = path_chars(file.path@);
        let ghost target = self.walk_stop(path, walk.current, walk.index as int);
        let last = file.path.len() - 1;
        while walk.index < last
            invariant
                file.path@.len() > 0,
                last == file.path@.len() - 1,
                walk.index <= last,
                path == path_chars(file.path@),
                target == self.walk_stop(path, walk.current, walk.index as int),
                target == self.walk_stop(path, old(walk).current, old(walk).index as int),
            decreases last - walk.index,
        {
            let name = file.path[walk.index].as_str();
            assert(path[walk.index as int] == name@);
            match self.get(walk.current, name) {
                Some(next) => {
                    walk.current = next;
                    walk.index = walk.index + 1;
                },
                None => {
                    assert(self.walk_stop(path, walk.current, walk.index as int) == (
                        walk.current,
                        walk.index as int,
                    ));
                    return CreateInode {
                        parent: Some(walk.current),
                        file_name: file.path[walk.index].clone(),
                        file_type: InodeType::Directory,
                        global_offset: 0,
                        file_length: 0,
                    };
                },
            }
        }
        CreateInode {
            parent: Some(walk.current),
            file_name: file.path[last].clone(),
            file_type: InodeType::Regular,
            global_offset: file.global_offset as i64,
            file_length: file.length as i64,
        }
    }

    /// Records that the directory `name` was made in the walk's current
    /// directory with the inode `inode`, in place of what was recorded for
    /// it, and goes into it.
    pub fn directory_created(&mut self, walk: &mut FileWalk, name: String, inode: i64)
        requires
            old(walk).index < usize::MAX,
        ensures
            final(self).lookup(old(walk).current, name@) == Some(inode),
            forall|p: i64, n: Seq<char>|
                !(p == old(walk).current && n == name@) ==> #[trigger] final(self).lookup(p, n)
                    == old(self).lookup(p, n),
            final(walk).current == inode,
            final(walk).index == old(walk).index + 1,
    {
        let ghost before = self.entries@;
        let parent = walk.current;
        let mut i: usize = 0;
        let mut found = false;
        while i < self.entries.len() && !found
            invariant
                0 <= i <= self.entries@.len(),
                self.entries@ == before,
                forall|j: int| 0 <= j < i ==> !((#[trigger] before[j]).0 == parent && before[j].1@ == name@),
                found ==> i < before.len() && before[i as int].0 == parent && before[i as int].1@ == name@,
            decreases self.entries@.len() - i + (if found { 0int } else { 1int }),
        {
            if self.entries[i].0 == parent && str_equals(self.entries[i].1.as_str(), name.as_str()) {
                found = true;
            } else {
                i = i + 1;
            }
        }
        let ghost key = name@;
        if found {
            proof {
                lemma_lookup_update(before, i as int, parent, key, (parent, name, inode));
            }
            self.entries.set(i, (parent, name, inode));
        } else {
            proof {
                lemma_lookup_push(before, parent, key, (parent, name, inode));
            }
            self.entries.push((parent, name, inode));
        }
        walk.current = inode;
        walk.index = walk.index + 1;
    }
}

/// Setting the first pair of `(parent, key)` to `e` finds `e`'s inode for
/// it and leaves the others.
proof fn lemma_lookup_update(s: Seq<(i64, String, i64)>, i: int, parent: i64, key: Seq<char>, e: (i64, String, i64))
    requires
        0 <= i < s.len(),
        s[i].0 == parent && s[i].1@ == key,
        e.0 == parent && e.1@ == key,
        forall|j: int| 0 <= j < i ==> !((#[trigger] s[j]).0 == parent && s[j].1@ == key),
    ensures
        cache_lookup(s.update(i, e), parent, key) == Some(e.2),
        forall|p: i64, n: Seq<char>|
            !(p == parent && n == key) ==> #[trigger] cache_lookup(s.update(i, e), p, n) == cache_lookup(s, p, n),
    decreases s.len(),
{
    let t = s.update(i, e);
    if i == 0 {
        assert(t.drop_first() =~= s.drop_first());
        assert forall|p: i64, n: Seq<char>| !(p == parent && n == key) implies #[trigger] cache_lookup(t, p, n)
            == cache_lookup(s, p, n) by {
            assert(cache_lookup(t.drop_first(), p, n) == cache_lookup(s.drop_first(), p, n));
        }
    } else {
        assert(t.drop_first() =~= s.drop_first().update(i - 1, e));
        lemma_lookup_update(s.drop_first(), i - 1, parent, key, e);
        assert(t[0] == s[0]);
        assert forall|p: i64, n: Seq<char>| !(p == parent && n == key) implies #[trigger] cache_lookup(t, p, n)
            == cache_lookup(s, p, n) by {
            if !(s[0].0 == p && s[0].1@ == n) {
                assert(cache_lookup(t.drop_first(), p, n) == cache_lookup(s.drop_first(), p, n));
            }
        }
    }
}

/// Adding `e` for a `(parent, key)` not recorded finds `e`'s inode for it
/// and leaves the others.
proof fn lemma_lookup_push(s: Seq<(i64, String, i64)>, parent: i64, key: Seq<char>, e: (i64, String, i64))
    requires
        e.0 == parent && e.1@ == key,
        forall|j: int| 0 <= j < s.len() ==> !((#[trigger] s[j]).0 == parent && s[j].1@ == key),
    ensures
        cache_lookup(s.push(e), parent, key) == Some(e.2),
        forall|p: i64, n: Seq<char>|
            !(p == parent && n == key) ==> #[trigger] cache_lookup(s.push(e), p, n) == cache_lookup(s, p, n),
    decreases s.len(),
{
    let t = s.push(e);
    if s.len() == 0 {
        assert(t.drop_first() =~= Seq::<(i64, String, i64)>::empty());
        assert forall|p: i64, n: Seq<char>| !(p == parent && n == key) implies #[trigger] cache_lookup(t, p, n)
            == cache_lookup(s, p, n) by {
            assert(cache_lookup(t.drop_first(), p, n) is None);
        }
    } else {
        assert(t.drop_first() =~= s.drop_first().push(e));
        lemma_lookup_push(s.drop_first(), parent, key, e);
        assert(t[0] == s[0]);
        assert forall|p: i64, n: Seq<char>| !(p == parent && n == key) implies #[trigger] cache_lookup(t, p, n)
            == cache_lookup(s, p, n) by {
            if !(s[0].0 == p && s[0].1@ == n) {
                assert(cache_lookup(t.drop_first(), p, n) == cache_lookup(s.drop_first(), p, n));
            }
        }
    }
}

} // verus!
