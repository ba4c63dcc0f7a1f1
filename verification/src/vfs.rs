//! The content file system of the piece store: inodes of regular files and
//! directories, built from the file records that a directory query returns,
//! and the rows that create and find them.

use std::collections::BTreeMap;

use vstd::prelude::*;

use crate::boot::str_equals;
use crate::names::DirContents;

verus! {

/// No inode, directory entry or content root of that name exists.
#[derive(Debug, Clone, Copy)]
pub struct NoEntityExists;

/// The kinds of inode that can be created.
#[derive(Debug, Clone, Copy, PartialEq, Eq)]
pub enum InodeType {
    Root,
    Regular,
    Directory,
}

/// The name under which an inode kind is stored.
pub open spec fn spec_inode_type_name(t: InodeType) -> Seq<char> {
    match t {
        InodeType::Regular => "regular"@,
        InodeType::Directory => "directory"@,
        InodeType::Root => "root"@,
    }
}

impl InodeType {
    /// The name under which this kind is stored.
    pub fn as_db_str(&self) -> (r: &'static str)
        ensures
            r@ == spec_inode_type_name(*self),
    {
        match *self {
            InodeType::Regular => "regular",
            InodeType::Directory => "directory",
            InodeType::Root => "root",
        }
    }
}

/// A regular file: where its bytes start in the torrent, and how many there are.
#[derive(Debug, Clone, Copy)]
pub struct VfsEntryRegular {
    pub global_offset: i64,
    pub file_length: i64,
}

/// A directory: its entries, and whether they are all known.
#[derive(Debug, Clone)]
pub struct VfsEntryDirectory {
    pub contents: DirContents,
    pub is_complete: bool,
}

/// What an inode is.
#[derive(Debug, Clone)]
pub enum VfsEntryData {
    Regular(VfsEntryRegular),
    Directory(VfsEntryDirectory),
}

/// An inode and what it is.
#[derive(Debug, Clone)]
pub struct VfsEntry {
    pub inode: i64,
    pub data: VfsEntryData,
}

/// What an inode is, as plain values.
pub enum EntryKind {
    Regular { global_offset: i64, file_length: i64 },
    Directory { contents: Map<Seq<char>, i64>, is_complete: bool },
}

/// An inode as plain values.
pub struct EntryView {
    pub inode: i64,
    pub kind: EntryKind,
}

/// Whether the directory tables in `e` are well formed.
pub open spec fn entry_wf(e: VfsEntry) -> bool {
    match e.data {
        VfsEntryData::Directory(d) => d.contents.wf(),
        VfsEntryData::Regular(_) => true,
    }
}

/// `e` as plain values.
pub open spec fn entry_view(e: VfsEntry) -> EntryView {
    EntryView {
        inode: e.inode,
        kind: match e.data {
            VfsEntryData::Regular(r) => EntryKind::Regular {
                global_offset: r.global_offset,
                file_length: r.file_length,
            },
            VfsEntryData::Directory(d) => EntryKind::Directory {
                contents: d.contents.map(),
                is_complete: d.is_complete,
            },
        },
    }
}

/// The request for the directories along `path` from `root_inode`.
#[derive(Debug, Clone)]
pub struct FetchDirectoriesRequest {
    pub root_inode: i64,
    pub path: Vec<String>,
}

/// The inodes that a directory query found, by number.
#[derive(Debug)]
pub struct FetchDirectoriesResponse {
    pub inodes: BTreeMap<i64, VfsEntry>,
}

/// The kind of a file record.
#[derive(Debug, Clone, Copy, PartialEq, Eq)]
pub enum FileType {
    Directory,
    Regular,
}

/// The kind that the stored name `s` gives.
pub open spec fn spec_parse_file_type(s: Seq<char>) -> Option<FileType> {
    if s == "directory"@ {
        Some(FileType::Directory)
    } else if s == "regular"@ {
        Some(FileType::Regular)
    } else {
        None
    }
}

/// The kind that the stored name `s` gives, if any.
pub fn parse_file_type(s: &str) -> (r: Option<FileType>)
    ensures
        r == spec_parse_file_type(s@),
{
    if str_equals(s, "directory") {
        Some(FileType::Directory)
    } else if str_equals(s, "regular") {
        Some(FileType::Regular)
    } else {
        None
    }
}

/// One row of a directory query: an inode, its parent, its name in the
/// parent, its kind, and where its bytes lie.
#[derive(Debug, Clone)]
pub struct FileRecord {
    pub inode: i64,
    pub parent_inode: i64,
    pub file_name: String,
    pub file_type: FileType,
    pub global_offset: i64,
    pub file_length: i64,
}

/// The entries that the records `rs` list under `parent`, later records winning.
pub open spec fn dir_map(rs: Seq<FileRecord>, parent: i64) -> Map<Seq<char>, i64>
    decreases rs.len(),
{
    if rs.len() == 0 {
        Map::empty()
    } else {
        let m = dir_map(rs.drop_last(), parent);
        let r = rs.last();
        if r.parent_inode == parent {
            m.insert(r.file_name@, r.inode)
        } else {
            m
        }
    }
}

/// Whether some record of `rs` has `k` as its parent.
pub open spec fn is_parent(rs: Seq<FileRecord>, k: i64) -> bool {
    exists|i: int| 0 <= i < rs.len() && rs[i].parent_inode == k
}

/// The inode that a record describes: its file, or a directory whose entries
/// are not known.
pub open spec fn record_entry(r: FileRecord) -> EntryView {
    EntryView {
        inode: r.inode,
        kind: match r.file_type {
            FileType::Regular => EntryKind::Regular {
                global_offset: r.global_offset,
                file_length: r.file_length,
            },
            FileType::Directory => EntryKind::Directory {
                contents: Map::empty(),
                is_complete: false,
            },
        },
    }
}

/// The inodes that the records describe, later records winning.
pub open spec fn record_map(rs: Seq<FileRecord>) -> Map<i64, EntryView>
    decreases rs.len(),
{
    if rs.len() == 0 {
        Map::empty()
    } else {
        record_map(rs.drop_last()).insert(rs.last().inode, record_entry(rs.last()))
    }
}

/// The inodes of a query's answer: each parent of a record is a complete
/// directory of the records under it; every other inode is as its last
/// record describes it.
pub open spec fn spec_build_inodes(rs: Seq<FileRecord>) -> Map<i64, EntryView> {
    Map::new(
        |k: i64| is_parent(rs, k) || record_map(rs).contains_key(k),
        |k: i64|
            if is_parent(rs, k) {
                EntryView {
                    inode: k,
                    kind: EntryKind::Directory { contents: dir_map(rs, k), is_complete: true },
                }
            } else {
                record_map(rs)[k]
            },
    )
}

/// The inodes of `m`, as plain values.
pub open spec fn inodes_view(m: Map<i64, VfsEntry>) -> Map<i64, EntryView> {
    m.map_values(|e: VfsEntry| entry_view(e))
}

/// The inode that the record `r` describes.
fn entry_of_record(r: &FileRecord) -> (e: VfsEntry)
    ensures
        entry_view(e) == record_entry(*r),
        entry_wf(e),
{
    match r.file_type {
        FileType::Regular => VfsEntry {
            inode: r.inode,
            data: VfsEntryData::Regular(
                VfsEntryRegular { global_offset: r.global_offset, file_length: r.file_length },
            ),
        },
        FileType::Directory => {
            let contents = DirContents::new();
            VfsEntry {
                inode: r.inode,
                data: VfsEntryData::Directory(VfsEntryDirectory { contents, is_complete: false }),
            }
        },
    }
}

/// Whether `dirs` holds, once each, exactly the parents of `rs`, each with
/// the entries that `rs` lists under it.
pub open spec fn dirs_match(dirs: Seq<(i64, DirContents)>, rs: Seq<FileRecord>) -> bool {
    &&& forall|a: int, b: int| 0 <= a < b < dirs.len() ==> #[trigger] dirs[a].0 != #[trigger] dirs[b].0
    &&& forall|j: int| 0 <= j < dirs.len() ==> (#[trigger] dirs[j]).1.wf()
    &&& forall|j: int| 0 <= j < dirs.len() ==> (#[trigger] dirs[j]).1.map() == dir_map(rs, dirs[j].0)
    &&& forall|k: i64| is_parent(rs, k) <==> exists|j: int| 0 <= j < dirs.len() && #[trigger] dirs[j].0 == k
}

/// A record under another parent leaves a directory's entries as they were.
proof fn lemma_dir_map_other(rs: Seq<FileRecord>, r: FileRecord, k: i64)
    requires
        r.parent_inode != k,
    ensures
        dir_map(rs.push(r), k) == dir_map(rs, k),
{
    assert(rs.push(r).drop_last() =~= rs);
}

/// A parent with no record under it has no entries.
proof fn lemma_dir_map_empty(rs: Seq<FileRecord>, p: i64)
    requires
        !is_parent(rs, p),
    ensures
        dir_map(rs, p) == Map::<Seq<char>, i64>::empty(),
    decreases rs.len(),
{
    if rs.len() > 0 {
        let t = rs.drop_last();
        assert(!is_parent(t, p)) by {
            if is_parent(t, p) {
                let i = choose|i: int| 0 <= i < t.len() && t[i].parent_inode == p;
                assert(rs[i].parent_inode == p);
            }
        }
        lemma_dir_map_empty(t, p);
        assert(rs[rs.len() - 1].parent_inode != p);
    }
}

/// The inodes described by the file records `records`: every parent of a
/// record is a complete directory listing the records under it, later
/// records winning a name; every other inode is as its last record says.
pub fn build_inodes(records: &Vec<FileRecord>) -> (r: FetchDirectoriesResponse)
    ensures
        inodes_view(r.inodes@) == spec_build_inodes(records@),
        forall|k: i64| #[trigger] r.inodes@.contains_key(k) ==> entry_wf(r.inodes@[k]),
{
    let mut inodes: BTreeMap<i64, VfsEntry> = BTreeMap::new();
    let mut dirs: Vec<(i64, DirContents)> = Vec::new();
    let mut i: usize = 0;
    while i < records.len()
        invariant
            0 <= i <= records@.len(),
            dirs_match(dirs@, records@.take(i as int)),
            inodes_view(inodes@) == record_map(records@.take(i as int)),
            forall|k: i64| #[trigger] inodes@.contains_key(k) ==> entry_wf(inodes@[k]),
        decreases records@.len() - i,
    {
        let fr = &records[i];
        let ghost pre = records@.take(i as int);
        let ghost post = records@.take(i + 1);
        assert(post =~= pre.push(*fr));
        assert(post.drop_last() =~= pre);
        let mut j: usize = 0;
        while j < dirs.len()
            invariant
                0 <= j <= dirs@.len(),
                forall|a: int| 0 <= a < j ==> dirs@[a].0 != fr.parent_inode,
            ensures
                0 <= j <= dirs@.len(),
                forall|a: int| 0 <= a < j ==> dirs@[a].0 != fr.parent_inode,
                j < dirs@.len() ==> dirs@[j as int].0 == fr.parent_inode,
            decreases dirs@.len() - j,
        {
            if dirs[j].0 == fr.parent_inode {
                break;
            }
            j = j + 1;
        }
        let ghost old_dirs = dirs@;
        if j == dirs.len() {
            let mut c = DirContents::new();
            c.insert(fr.file_name.clone(), fr.inode);
            dirs.push((fr.parent_inode, c));
            proof {
                let d = dirs@;
                assert(!is_parent(pre, fr.parent_inode)) by {
                    if is_parent(pre, fr.parent_inode) {
                        let a = choose|a: int| 0 <= a < old_dirs.len() && #[trigger] old_dirs[a].0
                            == fr.parent_inode;
                    }
                }
                assert(dir_map(pre, fr.parent_inode) =~= Map::empty()) by {
                    lemma_dir_map_empty(pre, fr.parent_inode);
                }
                assert forall|a: int| 0 <= a < d.len() implies (#[trigger] d[a]).1.map() == dir_map(
                    post,
                    d[a].0,
                ) by {
                    if a < old_dirs.len() {
                        assert(d[a] == old_dirs[a]);
                        lemma_dir_map_other(pre, *fr, d[a].0);
                    } else {
                        assert(dir_map(post, fr.parent_inode) == dir_map(pre, fr.parent_inode).insert(
                            fr.file_name@,
                            fr.inode,
                        ));
                    }
                }
                assert forall|k: i64| is_parent(post, k) <==> exists|a: int|
                    0 <= a < d.len() && #[trigger] d[a].0 == k by {
                    if is_parent(post, k) {
                        let b = choose|b: int| 0 <= b < post.len() && post[b].parent_inode == k;
                        if b < pre.len() {
                            assert(pre[b].parent_inode == k);
                            assert(is_parent(pre, k));
                            let a = choose|a: int| 0 <= a < old_dirs.len() && #[trigger] old_dirs[a].0
                                == k;
                            assert(d[a] == old_dirs[a]);
                            assert(d[a].0 == k);
                        } else {
                            assert(d[d.len() - 1].0 == k);
                        }
                    }
                    if exists|a: int| 0 <= a < d.len() && #[trigger] d[a].0 == k {
                        let a = choose|a: int| 0 <= a < d.len() && #[trigger] d[a].0 == k;
                        if a < old_dirs.len() {
                            assert(old_dirs[a].0 == k);
                            assert(is_parent(pre, k));
                            let b = choose|b: int| 0 <= b < pre.len() && pre[b].parent_inode == k;
                            assert(post[b].parent_inode == k);
                        } else {
                            assert(post[pre.len() as int].parent_inode == k);
                        }
                    }
                }
                assert forall|a: int, b: int| 0 <= a < b < d.len() implies #[trigger] d[a].0
                    != #[trigger] d[b].0 by {
                    if b < old_dirs.len() {
                        assert(d[a] == old_dirs[a] && d[b] == old_dirs[b]);
                    } else {
                        assert(d[a] == old_dirs[a]);
                    }
                }
            }
        } else {
            let (p, mut c) = dirs.remove(j);
            c.insert(fr.file_name.clone(), fr.inode);
            dirs.insert(j, (p, c));
            proof {
                let d = dirs@;
                assert(d =~= old_dirs.update(j as int, (p, c)));
                assert forall|a: int| 0 <= a < d.len() implies (#[trigger] d[a]).1.map() == dir_map(
                    post,
                    d[a].0,
                ) by {
                    if a != j {
                        assert(d[a] == old_dirs[a]);
                        assert(old_dirs[a].0 != old_dirs[j as int].0);
                        lemma_dir_map_other(pre, *fr, d[a].0);
                    }
                }
                assert forall|k: i64| is_parent(post, k) <==> exists|a: int|
                    0 <= a < d.len() && #[trigger] d[a].0 == k by {
                    if is_parent(post, k) {
                        let b = choose|b: int| 0 <= b < post.len() && post[b].parent_inode == k;
                        if b < pre.len() {
                            assert(pre[b].parent_inode == k);
                            assert(is_parent(pre, k));
                            let a = choose|a: int| 0 <= a < old_dirs.len() && #[trigger] old_dirs[a].0
                                == k;
                            assert(d[a].0 == k);
                        } else {
                            assert(d[j as int].0 == k);
                        }
                    }
                    if exists|a: int| 0 <= a < d.len() && #[trigger] d[a].0 == k {
                        let a = choose|a: int| 0 <= a < d.len() && #[trigger] d[a].0 == k;
                        assert(old_dirs[a].0 == k);
                        assert(is_parent(pre, k));
                        let b = choose|b: int| 0 <= b < pre.len() && pre[b].parent_inode == k;
                        assert(post[b].parent_inode == k);
                    }
                }
                assert forall|a: int, b: int| 0 <= a < b < d.len() implies #[trigger] d[a].0
                    != #[trigger] d[b].0 by {
                    assert(d[a].0 == old_dirs[a].0 && d[b].0 == old_dirs[b].0);
                }
            }
        }
        let e = entry_of_record(fr);
        inodes.insert(fr.inode, e);
        proof {
            assert(inodes_view(inodes@) =~= record_map(post));
        }
        i = i + 1;
    }
    assert(records@.take(records@.len() as int) =~= records@);
    let ghost rs = records@;
    let ghost all_dirs = dirs@;
    while dirs.len() > 0
        invariant
            dirs@.len() <= all_dirs.len(),
            dirs@ == all_dirs.take(dirs@.len() as int),
            dirs_match(all_dirs, rs),
            forall|x: i64| #[trigger]
                inodes@.contains_key(x) <==> (record_map(rs).contains_key(x) || exists|a: int|
                    dirs@.len() <= a < all_dirs.len() && all_dirs[a].0 == x),
            forall|x: i64| #[trigger] inodes@.contains_key(x) ==> entry_wf(inodes@[x]),
            forall|x: i64| #[trigger]
                inodes@.contains_key(x) ==> entry_view(inodes@[x]) == (if exists|a: int|
                    dirs@.len() <= a < all_dirs.len() && all_dirs[a].0 == x {
                    EntryView {
                        inode: x,
                        kind: EntryKind::Directory { contents: dir_map(rs, x), is_complete: true },
                    }
                } else {
                    record_map(rs)[x]
                }),
        decreases dirs@.len(),
    {
        let ghost n = dirs@.len();
        let (p, c) = dirs.pop().unwrap();
        assert(all_dirs[n - 1] == (p, c));
        assert(dirs@ =~= all_dirs.take(n - 1));
        let e = VfsEntry {
            inode: p,
            data: VfsEntryData::Directory(VfsEntryDirectory { contents: c, is_complete: true }),
        };
        inodes.insert(p, e);
        proof {
            assert forall|x: i64| #[trigger]
                inodes@.contains_key(x) <==> (record_map(rs).contains_key(x) || exists|a: int|
                    n - 1 <= a < all_dirs.len() && all_dirs[a].0 == x) by {
                if x == p {
                    assert(all_dirs[n - 1].0 == x);
                }
            }
            assert forall|x: i64| #[trigger]
                inodes@.contains_key(x) ==> entry_view(inodes@[x]) == (if exists|a: int|
                    n - 1 <= a < all_dirs.len() && all_dirs[a].0 == x {
                    EntryView {
                        inode: x,
                        kind: EntryKind::Directory { contents: dir_map(rs, x), is_complete: true },
                    }
                } else {
                    record_map(rs)[x]
                }) by {
                if x == p {
                    assert(all_dirs[n - 1].0 == x);
                    assert(all_dirs[n - 1].1.map() == dir_map(rs, x));
                } else if inodes@.contains_key(x) {
                    if exists|a: int| n - 1 <= a < all_dirs.len() && all_dirs[a].0 == x {
                        let a = choose|a: int| n - 1 <= a < all_dirs.len() && all_dirs[a].0 == x;
                        assert(a != n - 1);
                    }
                }
            }
        }
    }
    proof {
        assert forall|x: i64| (exists|a: int| 0 <= a < all_dirs.len() && all_dirs[a].0 == x)
            <==> is_parent(rs, x) by {
            if exists|a: int| 0 <= a < all_dirs.len() && all_dirs[a].0 == x {
                let a = choose|a: int| 0 <= a < all_dirs.len() && all_dirs[a].0 == x;
                assert(all_dirs[a].0 == x);
            }
        }
        assert(inodes_view(inodes@) =~= spec_build_inodes(rs));
    }
    FetchDirectoriesResponse { inodes }
}


/// The row that creates an inode: its parent, name, kind and byte range.
#[derive(Debug, Clone)]
pub struct CreateInode {
    pub parent: Option<i64>,
    pub file_name: String,
    pub file_type: InodeType,
    pub global_offset: i64,
    pub file_length: i64,
}

/// The query for the content root of a torrent.
#[derive(Debug, Clone)]
pub struct FetchContentRootQuery {
    pub content_key: String,
}

/// A torrent's content root: its piece length as a power of two, its total
/// length, and the inode of its top directory.
#[derive(Debug, Clone, Copy)]
pub struct FetchContentRootResponse {
    pub piece_length_shift: u8,
    pub total_length: i64,
    pub root_inode: i64,
}

impl FetchContentRootResponse {
    /// The root that a stored row gives; a shift that does not fit in a byte
    /// is refused.
    pub fn from_row(piece_length_shift: i32, root_inode: i64, total_length: i64) -> (r: Option<
        FetchContentRootResponse,
    >)
        ensures
            r is Some <==> 0 <= piece_length_shift <= 255,
            r matches Some(v) ==> v.piece_length_shift == piece_length_shift && v.root_inode
                == root_inode && v.total_length == total_length,
    {
        if piece_length_shift < 0 || piece_length_shift > 255 {
            return None;
        }
        Some(
            FetchContentRootResponse {
                piece_length_shift: piece_length_shift as u8,
                total_length,
                root_inode,
            },
        )
    }
}

/// The row that records a torrent's content root.
#[derive(Debug, Clone)]
pub struct CreateTorrentMeta {
    pub content_key: String,
    pub piece_length_shift: i32,
    pub root_inode: i64,
    pub total_length: i64,
}

/// The row that records the SHA-1 of one piece of a torrent.
#[derive(Debug, Clone)]
pub struct CreatePieceSha {
    pub torrent_meta_id: i64,
    pub piece_index: i64,
    pub piece_sha: String,
}

/// Whether a freshly fetched inode `new` replaces the cached `old`: always,
/// but where a complete directory would give way to an incomplete one.
pub open spec fn spec_should_overwrite(old: Option<EntryView>, new: EntryView) -> bool {
    match (old, new.kind) {
        (
            Some(EntryView { kind: EntryKind::Directory { is_complete: old_complete, .. }, .. }),
            EntryKind::Directory { is_complete: new_complete, .. },
        ) => !(old_complete && !new_complete),
        _ => true,
    }
}

/// Whether a freshly fetched inode replaces the cached one.
pub fn should_overwrite(old: Option<&VfsEntry>, new: &VfsEntry) -> (r: bool)
    ensures
        r == spec_should_overwrite(
            match old {
                Some(e) => Some(entry_view(*e)),
                None => None,
            },
            entry_view(*new),
        ),
{
    if let Some(o) = old {
        if let VfsEntryData::Directory(old_dir) = &o.data {
            if let VfsEntryData::Directory(new_dir) = &new.data {
                if old_dir.is_complete && !new_dir.is_complete {
                    return false;
                }
            }
        }
    }
    true
}

/// What a step of a path walk does.
#[derive(Debug, Clone, Copy, PartialEq, Eq)]
pub enum WalkStep {
    /// Go on to this inode, consuming the next name.
    Descend(i64),
    /// The next name is not in a complete directory: nothing exists there.
    Missing,
    /// Stop here: no more names, or the inode is not a known complete directory.
    Stop,
}

/// The step from the inode `entry` (if it is cached) towards the name `next`
/// (if any is left).
pub open spec fn spec_walk_step(entry: Option<EntryView>, next: Option<Seq<char>>) -> WalkStep {
    match entry {
        Some(EntryView { kind: EntryKind::Directory { contents, is_complete: true }, .. }) => {
            match next {
                Some(n) => if contents.contains_key(n) {
                    WalkStep::Descend(contents[n])
                } else {
                    WalkStep::Missing
                },
                None => WalkStep::Stop,
            }
        },
        _ => WalkStep::Stop,
    }
}

/// The step from the cached inode `entry` towards the name `next`.
pub fn walk_step(entry: Option<&VfsEntry>, next: Option<&str>) -> (r: WalkStep)
    requires
        entry matches Some(e) ==> entry_wf(*e),
    ensures
        r == spec_walk_step(
            match entry {
                Some(e) => Some(entry_view(*e)),
                None => None,
            },
            match next {
                Some(n) => Some(n@),
                None => None,
            },
        ),
{
    if let Some(e) = entry {
        if let VfsEntryData::Directory(dir) = &e.data {
            if dir.is_complete {
                if let Some(n) = next {
                    return match dir.contents.get(n) {
                        Some(i) => WalkStep::Descend(*i),
                        None => WalkStep::Missing,
                    };
                }
            }
        }
    }
    WalkStep::Stop
}

/// Whether the cached inode `entry` is final: a regular file, or a complete directory.
pub fn have_final(entry: Option<&VfsEntry>) -> (r: bool)
    ensures
        r == match entry {
            Some(e) => match e.data {
                VfsEntryData::Directory(d) => d.is_complete,
                VfsEntryData::Regular(_) => true,
            },
            None => false,
        },
{
    match entry {
        Some(fe) => match &fe.data {
            VfsEntryData::Directory(dir) => dir.is_complete,
            VfsEntryData::Regular(_) => true,
        },
        None => false,
    }
}

} // verus!
