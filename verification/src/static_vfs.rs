//! The blog's read-only file tree held in memory: directories of named
//! entries, and the lookups `stat`, `list_dir` and `open_file` on paths
//! written with `/`.

use vstd::prelude::*;

use crate::boot::str_equals;
use crate::strings::string_from_chars;
use crate::text::{chars_of, words_view};

verus! {

/// When a file was last changed: seconds and nanoseconds since the epoch.
#[derive(Debug, Clone, Copy, PartialEq, Eq, Structural)]
pub struct ModifiedTime {
    pub seconds: i64,
    pub nanoseconds: i32,
}

/// What an entry of the tree holds.
pub enum NodeData {
    Directory(Directory),
    Regular(Regular),
}

/// Whether a node is a directory or a regular file.
#[derive(Debug, Clone, Copy, PartialEq, Eq, Structural)]
pub enum NodeKind {
    Directory,
    Regular,
}

/// A named node of the tree.
pub struct StaticEntry {
    pub name: String,
    pub data: NodeData,
}

/// A directory: its entries, looked up by name (the first of a name counts).
pub struct Directory {
    pub entries: Vec<StaticEntry>,
}

/// A regular file: when it changed, its entity tag, and its bytes.
pub struct Regular {
    pub last_modified_time: ModifiedTime,
    pub etag: String,
    pub raw_data: Vec<u8>,
}

/// What `stat` tells of a node; the length of a directory is zero.
#[derive(Debug, Clone, Copy, PartialEq, Eq)]
pub struct Metadata {
    pub node_kind: NodeKind,
    pub last_modified_time: Option<ModifiedTime>,
    pub length: usize,
}

/// Why a lookup failed.
#[derive(Debug, Clone, Copy, PartialEq, Eq, Structural)]
pub enum ErrorKind {
    NotFound,
    Other,
}

/// A failed lookup: its kind and a message.
#[derive(Debug)]
pub struct Error {
    pub kind: ErrorKind,
    pub message: String,
}

impl Error {
    /// An error of `kind` with the message `msg`.
    pub fn new(kind: ErrorKind, msg: &str) -> (r: Error)
        ensures
            r.kind == kind,
            r.message@ == msg@,
    {
        broadcast use vstd::string::to_string_from_display_ensures_for_str;

        Error { kind, message: msg.to_string() }
    }

    /// The error of a path that names nothing.
    pub fn not_found() -> (r: Error)
        ensures
            is_not_found(r),
    {
        Error::new(ErrorKind::NotFound, "not found")
    }
}

/// Whether `e` is the error of a path that names nothing.
pub open spec fn is_not_found(e: Error) -> bool {
    e.kind == ErrorKind::NotFound && e.message@ == "not found"@
}

/// What `stat` gives for the entry `e`.
pub open spec fn entry_metadata(e: StaticEntry) -> Metadata {
    match e.data {
        NodeData::Directory(_) => Metadata {
            node_kind: NodeKind::Directory,
            last_modified_time: None,
            length: 0,
        },
        NodeData::Regular(reg) => Metadata {
            node_kind: NodeKind::Regular,
            last_modified_time: Some(reg.last_modified_time),
            length: reg.raw_data@.len() as usize,
        },
    }
}

/// The metadata of a directory.
pub open spec fn directory_metadata() -> Metadata {
    Metadata { node_kind: NodeKind::Directory, last_modified_time: None, length: 0 }
}

impl StaticEntry {
    /// The kind, change time and length of this entry.
    pub fn metadata(&self) -> (r: Metadata)
        ensures
            r == entry_metadata(*self),
    {
        match &self.data {
            NodeData::Directory(_) => Metadata {
                node_kind: NodeKind::Directory,
                last_modified_time: None,
                length: 0,
            },
            NodeData::Regular(reg) => Metadata {
                node_kind: NodeKind::Regular,
                last_modified_time: Some(reg.last_modified_time),
                length: reg.raw_data.len(),
            },
        }
    }
}

/// The pieces of `s` from `start` on, cut at each `c`, where `s[start..i]`
/// holds no `c`.
pub open spec fn split_char_from(s: Seq<char>, c: char, start: int, i: int) -> Seq<Seq<char>>
    decreases s.len() - i,
{
    if i >= s.len() {
        seq![s.subrange(start, s.len() as int)]
    } else if s[i] == c {
        seq![s.subrange(start, i)] + split_char_from(s, c, i + 1, i + 1)
    } else {
        split_char_from(s, c, start, i + 1)
    }
}

/// The pieces of `s` between the occurrences of `c`, as `str::split` gives them.
pub open spec fn split_char(s: Seq<char>, c: char) -> Seq<Seq<char>> {
    split_char_from(s, c, 0, 0)
}

/// The pieces of `s` between the occurrences of `c`.
pub fn split_at_char(s: &str, c: char) -> (r: Vec<String>)
    ensures
        words_view(r@) == split_char(s@, c),
{
    let v = chars_of(s);
    let n = v.len();
    let mut out: Vec<String> = Vec::new();
    let mut start: usize = 0;
    let mut i: usize = 0;
    while i < n
        invariant
            0 <= start <= i <= n,
            n == v@.len(),
            v@ == s@,
            split_char(s@, c) == words_view(out@) + split_char_from(s@, c, start as int, i as int),
        decreases n - i,
    {
        if v[i] == c {
            let piece = string_from_chars(vstd::slice::slice_subrange(v.as_slice(), start, i));
            let ghost before = out@;
            out.push(piece);
            assert(words_view(out@) =~= words_view(before) + seq![s@.subrange(start as int, i as int)]);
            start = i + 1;
        }
        i = i + 1;
    }
    let piece = string_from_chars(vstd::slice::slice_subrange(v.as_slice(), start, n));
    let ghost before = out@;
    out.push(piece);
    assert(words_view(out@) =~= words_view(before) + seq![s@.subrange(start as int, n as int)]);
    out
}

/// The index of the first entry from `j` on that is named `name`.
pub open spec fn entry_index_from(entries: Seq<StaticEntry>, name: Seq<char>, j: int) -> Option<int>
    decreases entries.len() - j,
{
    if j < 0 || j >= entries.len() {
        None
    } else if entries[j].name@ == name {
        Some(j)
    } else {
        entry_index_from(entries, name, j + 1)
    }
}

/// The index of the first entry named `name`.
pub open spec fn entry_index(entries: Seq<StaticEntry>, name: Seq<char>) -> Option<int> {
    entry_index_from(entries, name, 0)
}

/// An entry found from `j` on lies at or after `j` and has the name.
proof fn lemma_entry_index_from_bounds(entries: Seq<StaticEntry>, name: Seq<char>, j: int)
    ensures
        entry_index_from(entries, name, j) matches Some(k) ==> (0 <= j <= k < entries.len()
            && entries[k].name@ == name),
    decreases entries.len() - j,
{
    if 0 <= j < entries.len() && entries[j].name@ != name {
        lemma_entry_index_from_bounds(entries, name, j + 1);
    }
}

/// Where walking a path stops: in the directory `dir`, with the pieces
/// from `next` on left over; or at a piece that names nothing; or at a
/// name after `..` has left the root, which the lookup cannot follow.
pub enum Walk {
    Stopped { dir: Directory, next: int },
    NotFound,
    Stuck,
}

/// Walks the pieces `segs` from `i` on, with `stack` the directories
/// entered so far. `..` leaves the last directory entered, `.` stays, and
/// any other piece enters the directory of that name, or stops at a regular
/// file of that name, in the directory that holds it, with the piece taken.
/// A walk that takes every piece ends at the root.
pub open spec fn walk(root: Directory, stack: Seq<Directory>, segs: Seq<Seq<char>>, i: int) -> Walk
    decreases segs.len() - i,
{
    if i < 0 || i >= segs.len() {
        Walk::Stopped { dir: root, next: segs.len() as int }
    } else if segs[i] == seq!['.', '.'] {
        if stack.len() == 0 {
            Walk::NotFound
        } else {
            walk(root, stack.drop_last(), segs, i + 1)
        }
    } else if segs[i] == seq!['.'] {
        walk(root, stack, segs, i + 1)
    } else if stack.len() == 0 {
        Walk::Stuck
    } else {
        let d = stack.last();
        match entry_index(d.entries@, segs[i]) {
            None => Walk::NotFound,
            Some(k) => match d.entries@[k].data {
                NodeData::Directory(sub) => walk(root, stack.push(sub), segs, i + 1),
                NodeData::Regular(_) => Walk::Stopped { dir: d, next: i + 1 },
            },
        }
    }
}

/// The walk of the path `path` from `root`.
pub open spec fn walk_path(root: Directory, path: Seq<char>) -> Walk {
    walk(root, seq![root], split_char(path, '/'), 0)
}

/// What `stat` of `path` gives: the metadata, `None` for a path that names
/// nothing; a walk that is stuck gives nothing.
pub open spec fn stat_outcome(root: Directory, path: Seq<char>) -> Option<Metadata> {
    let segs = split_char(path, '/');
    match walk_path(root, path) {
        Walk::Stopped { dir, next } => if next >= segs.len() {
            Some(directory_metadata())
        } else {
            match entry_index(dir.entries@, segs[next]) {
                None => None,
                Some(k) => if next + 1 < segs.len() {
                    None
                } else {
                    Some(entry_metadata(dir.entries@[k]))
                },
            }
        },
        _ => None,
    }
}

/// The directory whose entries `list_dir` of `path` gives, `None` for a
/// path that names nothing.
pub open spec fn listed_dir(root: Directory, path: Seq<char>) -> Option<Directory> {
    match walk_path(root, path) {
        Walk::Stopped { dir, next } => if next < split_char(path, '/').len() {
            None
        } else {
            Some(dir)
        },
        _ => None,
    }
}

/// What `open_file` of `path` gives: the file's entry, or the kind of the
/// error.
pub open spec fn open_outcome(root: Directory, path: Seq<char>) -> Result<StaticEntry, ErrorKind> {
    let segs = split_char(path, '/');
    match walk_path(root, path) {
        Walk::Stopped { dir, next } => if next >= segs.len() {
            Err(ErrorKind::Other)
        } else if next + 1 < segs.len() {
            Err(ErrorKind::NotFound)
        } else {
            match entry_index(dir.entries@, segs[next]) {
                None => Err(ErrorKind::NotFound),
                Some(k) => Ok(dir.entries@[k]),
            }
        },
        _ => Err(ErrorKind::NotFound),
    }
}

/// Whether `s` is `..`.
fn is_parent_piece(s: &str) -> (r: bool)
    ensures
        r == (s@ == seq!['.', '.']),
{
    let v = chars_of(s);
    let r = v.len() == 2 && v[0] == '.' && v[1] == '.';
    proof {
        if v@.len() == 2 && v@[0] == '.' && v@[1] == '.' {
            assert(v@ =~= seq!['.', '.']);
        }
    }
    r
}

/// Whether `s` is `.`.
fn is_current_piece(s: &str) -> (r: bool)
    ensures
        r == (s@ == seq!['.']),
{
    let v = chars_of(s);
    let r = v.len() == 1 && v[0] == '.';
    proof {
        if v@.len() == 1 && v@[0] == '.' {
            assert(v@ =~= seq!['.']);
        }
    }
    r
}

impl Directory {
    /// The index of the first entry named `name`.
    fn find_entry(&self, name: &str) -> (r: Option<usize>)
        ensures
            r matches Some(k) ==> entry_index(self.entries@, name@) == Some(k as int),
            r is None ==> entry_index(self.entries@, name@) is None,
    {
        let mut j: usize = 0;
        while j < self.entries.len()
            invariant
                0 <= j <= self.entries@.len(),
                entry_index(self.entries@, name@) == entry_index_from(self.entries@, name@, j as int),
            decreases self.entries@.len() - j,
        {
            if str_equals(self.entries[j].name.as_str(), name) {
                return Some(j);
            }
            j = j + 1;
        }
        None
    }

    /// Walks the pieces `segs` from this directory, as `walk` says.
    fn recurse_helper<'a>(&'a self, segs: &Vec<String>) -> (r: Result<(&'a Directory, usize), Error>)
        requires
            !(walk(*self, seq![*self], words_view(segs@), 0) is Stuck),
        ensures
            match walk(*self, seq![*self], words_view(segs@), 0) {
                Walk::Stopped { dir, next } => r matches Ok((d, k)) && *d == dir && k == next,
                _ => r matches Err(e) && is_not_found(e),
            },
    {
        let ghost segv = words_view(segs@);
        let ghost outcome = walk(*self, seq![*self], segv, 0);
        let mut stack: Vec<&'a Directory> = Vec::new();
        stack.push(self);
        let ghost mut gs: Seq<Directory> = seq![*self];
        let mut i: usize = 0;
        while i < segs.len()
            invariant
                0 <= i <= segs@.len(),
                segv == words_view(segs@),
                segv.len() == segs@.len(),
                outcome == walk(*self, seq![*self], segv, 0),
                !(outcome is Stuck),
                outcome == walk(*self, gs, segv, i as int),
                stack@.len() == gs.len(),
                forall|k: int| 0 <= k < gs.len() ==> *stack@[k] == #[trigger] gs[k],
            decreases segs@.len() - i,
        {
            let seg: &str = segs[i].as_str();
            assert(segv[i as int] == seg@);
            if is_parent_piece(seg) {
                match stack.pop() {
                    None => {
                        return Err(Error::not_found());
                    },
                    Some(_) => {
                        proof {
                            gs = gs.drop_last();
                        }
                    },
                }
            } else if is_current_piece(seg) {
            } else {
                let dir: &'a Directory = stack[stack.len() - 1];
                assert(*dir == gs.last());
                match dir.find_entry(seg) {
                    None => {
                        return Err(Error::not_found());
                    },
                    Some(k) => {
                        proof {
                            lemma_entry_index_from_bounds(dir.entries@, seg@, 0);
                        }
                        match &dir.entries[k].data {
                            NodeData::Directory(sub) => {
                                stack.push(sub);
                                proof {
                                    gs = gs.push(*sub);
                                }
                            },
                            NodeData::Regular(_) => {
                                return Ok((dir, i + 1));
                            },
                        }
                    },
                }
            }
            i = i + 1;
        }
        Ok((self, i))
    }

    /// The metadata of the node at `path`: a directory where the walk takes
    /// every piece, else the entry named by the piece after it, which must be
    /// the last.
    pub fn stat(&self, path: &str) -> (r: Result<Metadata, Error>)
        requires
            !(walk_path(*self, path@) is Stuck),
        ensures
            match stat_outcome(*self, path@) {
                Some(m) => r == Ok::<Metadata, Error>(m),
                None => r matches Err(e) && is_not_found(e),
            },
    {
        let segs = split_at_char(path, '/');
        let ghost segv = words_view(segs@);
        assert(segv.len() == segs@.len());
        let (last_dir, next) = match self.recurse_helper(&segs) {
            Ok(p) => p,
            Err(e) => {
                return Err(e);
            },
        };
        if next >= segs.len() {
            return Ok(Metadata { node_kind: NodeKind::Directory, last_modified_time: None, length: 0 });
        }
        let name: &str = segs[next].as_str();
        assert(segv[next as int] == name@);
        let metadata = match last_dir.find_entry(name) {
            Some(k) => {
                proof {
                    lemma_entry_index_from_bounds(last_dir.entries@, name@, 0);
                }
                last_dir.entries[k].metadata()
            },
            None => {
                return Err(Error::not_found());
            },
        };
        if next + 1 < segs.len() {
            return Err(Error::not_found());
        }
        Ok(metadata)
    }

    /// The names and metadata of the entries of the directory at `path`, in
    /// the order of the entries.
    pub fn list_dir<'a>(&'a self, path: &str) -> (r: Result<Vec<(&'a str, Metadata)>, Error>)
        requires
            !(walk_path(*self, path@) is Stuck),
        ensures
            match listed_dir(*self, path@) {
                Some(d) => r matches Ok(v) && v@.len() == d.entries@.len() && forall|k: int|
                    0 <= k < v@.len() ==> (#[trigger] v@[k]).0@ == d.entries@[k].name@ && v@[k].1
                        == entry_metadata(d.entries@[k]),
                None => r matches Err(e) && is_not_found(e),
            },
    {
        let segs = split_at_char(path, '/');
        let (last_dir, next) = match self.recurse_helper(&segs) {
            Ok(p) => p,
            Err(e) => {
                return Err(e);
            },
        };
        if next < segs.len() {
            return Err(Error::not_found());
        }
        let mut out: Vec<(&'a str, Metadata)> = Vec::new();
        let mut k: usize = 0;
        while k < last_dir.entries.len()
            invariant
                0 <= k <= last_dir.entries@.len(),
                out@.len() == k,
                forall|j: int|
                    0 <= j < k ==> (#[trigger] out@[j]).0@ == last_dir.entries@[j].name@ && out@[j].1
                        == entry_metadata(last_dir.entries@[j]),
            decreases last_dir.entries@.len() - k,
        {
            let e = &last_dir.entries[k];
            out.push((e.name.as_str(), e.metadata()));
            k = k + 1;
        }
        Ok(out)
    }

    /// The bytes of the regular file at `path`.
    pub fn open_file<'a>(&'a self, path: &str) -> (r: Result<&'a [u8], Error>)
        requires
            !(walk_path(*self, path@) is Stuck),
            !(open_outcome(*self, path@) matches Ok(e) && e.data is Directory),
        ensures
            match open_outcome(*self, path@) {
                Ok(e) => r matches Ok(b) && e.data matches NodeData::Regular(reg) && b@
                    == reg.raw_data@,
                Err(ErrorKind::NotFound) => r matches Err(e) && is_not_found(e),
                Err(ErrorKind::Other) => r matches Err(e) && e.kind == ErrorKind::Other
                    && e.message@ == "not a file"@,
            },
    {
        let segs = split_at_char(path, '/');
        let ghost segv = words_view(segs@);
        assert(segv.len() == segs@.len());
        let (last_dir, next) = match self.recurse_helper(&segs) {
            Ok(p) => p,
            Err(e) => {
                return Err(e);
            },
        };
        if next >= segs.len() {
            return Err(Error::new(ErrorKind::Other, "not a file"));
        }
        if next + 1 < segs.len() {
            return Err(Error::not_found());
        }
        let filename: &str = segs[next].as_str();
        assert(segv[next as int] == filename@);
        match last_dir.find_entry(filename) {
            Some(k) => {
                proof {
                    lemma_entry_index_from_bounds(last_dir.entries@, filename@, 0);
                }
                match &last_dir.entries[k].data {
                    NodeData::Regular(reg) => Ok(reg.raw_data.as_slice()),
                    NodeData::Directory(_) => Err(Error::not_found()),
                }
            },
            None => Err(Error::not_found()),
        }
    }
}

} // verus!
