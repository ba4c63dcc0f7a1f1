//! Serving files straight out of a zip archive held in memory: which entry a
//! request names, and where that entry's stored bytes lie in the archive.

use std::io::Cursor;
use vstd::prelude::*;
use vstd::string::StrSliceExecFns;
use zip::result::ZipError;
use zip::{CompressionMethod, ZipArchive};

use crate::boot::str_equals;
use crate::strings::{push_str, string_from_chars};

verus! {

#[verifier::external_type_specification]
#[verifier::external_body]
#[verifier::reject_recursive_types(T)]
pub struct ExCursor<T>(Cursor<T>);

#[verifier::external_type_specification]
#[verifier::external_body]
#[verifier::reject_recursive_types(R)]
pub struct ExZipArchive<R>(ZipArchive<R>);

/// The bytes that a zip archive reads its entries from.
pub uninterp spec fn zip_archive_bytes(a: ZipArchive<Cursor<Vec<u8>>>) -> Seq<u8>;

/// What `ZipArchive::new` reports on an archive made of `bytes`: `None` where it
/// opens, else the failure.
pub uninterp spec fn zip_open(bytes: Seq<u8>) -> Option<ZipFailureView>;

/// What `ZipArchive::by_name` finds under `name` in the archive made of `bytes`.
pub uninterp spec fn zip_lookup(bytes: Seq<u8>, name: Seq<char>) -> ZipLookupView;

/// When an entry was last changed, as the archive records it: year, month,
/// day, hour, minute and second of the local calendar.
pub type ZipTime = (u16, u8, u8, u8, u8, u8);

/// Why an archive could not be read.
#[derive(Debug)]
pub enum ZipFailure {
    /// Reading the bytes failed; the text of the I/O error.
    Io(String),
    /// The bytes are not a zip archive.
    InvalidArchive(String),
    /// The archive uses something that is not supported.
    UnsupportedArchive(String),
    /// No entry has the name asked for.
    FileNotFound,
}

/// A `ZipFailure` with its texts as characters.
pub enum ZipFailureView {
    Io(Seq<char>),
    InvalidArchive(Seq<char>),
    UnsupportedArchive(Seq<char>),
    FileNotFound,
}

impl View for ZipFailure {
    type V = ZipFailureView;

    open spec fn view(&self) -> ZipFailureView {
        match self {
            ZipFailure::Io(t) => ZipFailureView::Io(t@),
            ZipFailure::InvalidArchive(t) => ZipFailureView::InvalidArchive(t@),
            ZipFailure::UnsupportedArchive(t) => ZipFailureView::UnsupportedArchive(t@),
            ZipFailure::FileNotFound => ZipFailureView::FileNotFound,
        }
    }
}

/// What a lookup of one entry by name gave.
#[derive(Debug)]
pub enum ZipLookup {
    /// The entry: whether it is stored uncompressed, where its data starts,
    /// how many bytes it takes in the archive, and when it was changed.
    Entry(bool, u64, u64, ZipTime),
    /// The lookup failed.
    Failed(ZipFailure),
}

/// A `ZipLookup` with its texts as characters.
pub enum ZipLookupView {
    Entry(bool, u64, u64, ZipTime),
    Failed(ZipFailureView),
}

impl View for ZipLookup {
    type V = ZipLookupView;

    open spec fn view(&self) -> ZipLookupView {
        match self {
            ZipLookup::Entry(s, d, c, t) => ZipLookupView::Entry(*s, *d, *c, *t),
            ZipLookup::Failed(f) => ZipLookupView::Failed(f@),
        }
    }
}

/// How a request for a file of the archive is answered.
#[derive(Debug)]
pub enum ZipResolve {
    /// The method is neither `GET` nor `HEAD`.
    MethodNotMatched,
    /// The request names more than a path.
    UriNotMatched,
    /// The path is empty.
    IsDirectory,
    /// No entry has that name.
    NotFound,
    /// The entry's bytes are `limit` bytes from `offset` on.
    Found { offset: usize, limit: usize, modified: ZipTime },
    /// The request cannot be served; the message says why.
    Error(String),
}

/// A `ZipResolve` with its message as characters.
pub enum ZipResolveView {
    MethodNotMatched,
    UriNotMatched,
    IsDirectory,
    NotFound,
    Found { offset: usize, limit: usize, modified: ZipTime },
    Error(Seq<char>),
}

impl View for ZipResolve {
    type V = ZipResolveView;

    open spec fn view(&self) -> ZipResolveView {
        match self {
            ZipResolve::MethodNotMatched => ZipResolveView::MethodNotMatched,
            ZipResolve::UriNotMatched => ZipResolveView::UriNotMatched,
            ZipResolve::IsDirectory => ZipResolveView::IsDirectory,
            ZipResolve::NotFound => ZipResolveView::NotFound,
            ZipResolve::Found { offset, limit, modified } => ZipResolveView::Found {
                offset: *offset,
                limit: *limit,
                modified: *modified,
            },
            ZipResolve::Error(m) => ZipResolveView::Error(m@),
        }
    }
}

/// How a failed lookup is answered: a missing entry is not found, any
/// other failure an error whose message names its kind.
pub open spec fn failure_answer(f: ZipFailureView) -> ZipResolveView {
    match f {
        ZipFailureView::FileNotFound => ZipResolveView::NotFound,
        ZipFailureView::Io(t) => ZipResolveView::Error(t),
        ZipFailureView::InvalidArchive(m) => ZipResolveView::Error("Invalid archive: "@ + m),
        ZipFailureView::UnsupportedArchive(m) => ZipResolveView::Error(
            "Unsupported archive: "@ + m,
        ),
    }
}

/// How the result of a lookup is answered: only an entry stored as it is,
/// whose offset and size fit in `usize`, is served.
pub open spec fn lookup_answer(l: ZipLookupView) -> ZipResolveView {
    match l {
        ZipLookupView::Failed(f) => failure_answer(f),
        ZipLookupView::Entry(stored, start, size, modified) => {
            if !stored {
                ZipResolveView::Error("Unsupported archive: compressed file"@)
            } else if start > usize::MAX || size > usize::MAX {
                ZipResolveView::Error("Unsupported archive"@)
            } else {
                ZipResolveView::Found { offset: start as usize, limit: size as usize, modified }
            }
        },
    }
}

/// How a request is answered from the archive made of `bytes`: only `GET` and
/// `HEAD` of a bare path are served, an empty path names the top directory,
/// and any other path names the entry after its leading `/`.
pub open spec fn resolve_answer(
    method: Seq<char>,
    has_scheme: bool,
    has_host: bool,
    path: Seq<char>,
    bytes: Seq<u8>,
) -> ZipResolveView {
    if !(method == "GET"@ || method == "HEAD"@) {
        ZipResolveView::MethodNotMatched
    } else if has_scheme || has_host {
        ZipResolveView::UriNotMatched
    } else if path.len() == 0 {
        ZipResolveView::IsDirectory
    } else {
        lookup_answer(zip_lookup(bytes, path.drop_first()))
    }
}

/// Whether `b[i..]` starts a central directory header (signature
/// `PK\x01\x02`) whose local header offset (bytes 42 to 45) is `0xFFFFFFFF`,
/// the mark that the real offset is given by a zip64 extra field.
pub open spec fn zip64_offset_mark_at(b: Seq<u8>, i: int) -> bool {
    &&& 0 <= i
    &&& i + 46 <= b.len()
    &&& b[i] == 0x50u8 && b[i + 1] == 0x4bu8 && b[i + 2] == 0x01u8 && b[i + 3] == 0x02u8
    &&& b[i + 42] == 0xffu8 && b[i + 43] == 0xffu8 && b[i + 44] == 0xffu8 && b[i + 45] == 0xffu8
}

/// Whether any central directory header in `b` takes its local header
/// offset from a zip64 extra field.
pub open spec fn has_zip64_offset(b: Seq<u8>) -> bool {
    exists|i: int| zip64_offset_mark_at(b, i)
}

/// The little-endian 64-bit value of the eight bytes `b[i..i + 8]`.
pub open spec fn le64(b: Seq<u8>, i: int) -> int {
    b[i] + b[i + 1] * 0x100 + b[i + 2] * 0x1_0000 + b[i + 3] * 0x100_0000 + b[i + 4]
        * 0x1_0000_0000 + b[i + 5] * 0x100_0000_0000 + b[i + 6] * 0x1_0000_0000_0000 + b[i + 7]
        * 0x100_0000_0000_0000
}

/// Whether the eight bytes at `i` of `b`, read as an offset, overflow when an
/// archive start within `b` is added to them.
pub open spec fn overflowing_offset_at(b: Seq<u8>, i: int) -> bool {
    0 <= i && i + 8 <= b.len() && le64(b, i) + b.len() > u64::MAX
}

/// Whether an offset read from some eight bytes of `b` could overflow when
/// the archive's start is added to it.
pub open spec fn has_overflowing_offset(b: Seq<u8>) -> bool {
    exists|i: int| overflowing_offset_at(b, i)
}

/// Whether opening `b` could overflow: some central directory header takes
/// its offset from a zip64 extra field, and some eight bytes of `b` hold an
/// offset so large that adding the archive's start overflows.
pub open spec fn zip64_offset_may_overflow(b: Seq<u8>) -> bool {
    has_zip64_offset(b) && has_overflowing_offset(b)
}

/// Whether some eight bytes of `b` hold an offset that overflows when an
/// archive start within `b` is added to it.
fn find_overflowing_offset(b: &Vec<u8>) -> (r: bool)
    ensures
        r == has_overflowing_offset(b@),
{
    let n = b.len();
    if n < 8 {
        return false;
    }
    let room: u64 = u64::MAX - n as u64;
    let mut i: usize = 0;
    while i <= n - 8
        invariant
            n == b@.len(),
            n >= 8,
            i <= n - 7,
            room == u64::MAX - n,
            forall|j: int| 0 <= j < i ==> !overflowing_offset_at(b@, j),
        decreases n - i,
    {
        let v: u64 = b[i] as u64 + (b[i + 1] as u64) * 0x100 + (b[i + 2] as u64) * 0x1_0000 + (b[i
            + 3] as u64) * 0x100_0000 + (b[i + 4] as u64) * 0x1_0000_0000 + (b[i + 5] as u64)
            * 0x100_0000_0000 + (b[i + 6] as u64) * 0x1_0000_0000_0000 + (b[i + 7] as u64)
            * 0x100_0000_0000_0000;
        assert(v == le64(b@, i as int));
        if v > room {
            assert(overflowing_offset_at(b@, i as int));
            return true;
        }
        i = i + 1;
    }
    false
}

/// The failure given for an archive whose zip64 entry offsets could
/// overflow.
pub open spec fn zip64_refusal() -> ZipFailureView {
    ZipFailureView::UnsupportedArchive("zip64 entry offsets"@)
}

/// Whether some central directory header in `b` takes its offset from a
/// zip64 extra field.
fn find_zip64_offset(b: &Vec<u8>) -> (r: bool)
    ensures
        r == has_zip64_offset(b@),
{
    let n = b.len();
    let mut i: usize = 0;
    if n < 46 {
        return false;
    }
    while i <= n - 46
        invariant
            n == b@.len(),
            n >= 46,
            i <= n - 45,
            forall|j: int| 0 <= j < i ==> !zip64_offset_mark_at(b@, j),
        decreases n - i,
    {
        if b[i] == 0x50 && b[i + 1] == 0x4b && b[i + 2] == 0x01 && b[i + 3] == 0x02 && b[i + 42]
            == 0xff && b[i + 43] == 0xff && b[i + 44] == 0xff && b[i + 45] == 0xff {
            assert(zip64_offset_mark_at(b@, i as int));
            return true;
        }
        i = i + 1;
    }
    false
}

/// `zip::ZipArchive::new` on a cursor over `bytes`. Claimed: the archive is
/// read from exactly these bytes, and whether it opens, or how it fails, is
/// a function of the bytes. Left out are the archives on which the call can
/// overflow (and panic where overflow is checked): it adds the archive's
/// start, which lies within the bytes, to each entry's offset unchecked. An
/// offset near `u64::MAX` can only come from a zip64 extra field, which is
/// read where a central directory header (signature `PK\x01\x02`) holds
/// `0xFFFFFFFF` as its offset, and the value read is eight of the bytes.
/// Where no header holds that mark, every offset stays below `2^32`; where no
/// eight bytes hold a value that the start can push past `u64::MAX`, no
/// offset read can either.
#[verifier::external_body]
fn open_archive(bytes: Vec<u8>) -> (r: Result<ZipArchive<Cursor<Vec<u8>>>, ZipFailure>)
    requires
        !zip64_offset_may_overflow(bytes@),
    ensures
        match r {
            Ok(a) => zip_open(bytes@) is None && zip_archive_bytes(a) == bytes@,
            Err(e) => zip_open(bytes@) == Some(e@),
        },
{
    match ZipArchive::new(Cursor::new(bytes)) {
        Ok(a) => Ok(a),
        Err(ZipError::Io(e)) => Err(ZipFailure::Io(e.to_string())),
        Err(ZipError::InvalidArchive(m)) => Err(ZipFailure::InvalidArchive(m.to_string())),
        Err(ZipError::UnsupportedArchive(m)) => Err(ZipFailure::UnsupportedArchive(m.to_string())),
        Err(ZipError::FileNotFound) => Err(ZipFailure::FileNotFound),
    }
}

/// `Clone` of `zip::ZipArchive`. Claimed: the copy reads the same bytes.
#[verifier::external_body]
fn clone_archive(a: &ZipArchive<Cursor<Vec<u8>>>) -> (r: ZipArchive<Cursor<Vec<u8>>>)
    ensures
        zip_archive_bytes(r) == zip_archive_bytes(*a),
{
    a.clone()
}

/// `zip::ZipArchive::by_name`, with the found entry read off through
/// `compression`, `data_start`, `compressed_size` and `last_modified`.
/// Claimed: what comes back is a function of the archive's bytes and the
/// name, and the archive still reads the same bytes.
#[verifier::external_body]
fn archive_by_name(a: &mut ZipArchive<Cursor<Vec<u8>>>, name: &str) -> (r: ZipLookup)
    ensures
        r@ == zip_lookup(zip_archive_bytes(*old(a)), name@),
        zip_archive_bytes(*final(a)) == zip_archive_bytes(*old(a)),
{
    let f = match a.by_name(name) {
        Ok(f) => f,
        Err(e) => return ZipLookup::Failed(match e {
            ZipError::Io(e) => ZipFailure::Io(e.to_string()),
            ZipError::InvalidArchive(m) => ZipFailure::InvalidArchive(m.to_string()),
            ZipError::UnsupportedArchive(m) => ZipFailure::UnsupportedArchive(m.to_string()),
            ZipError::FileNotFound => ZipFailure::FileNotFound,
        }),
    };
    let t = f.last_modified();
    let stored = match f.compression() { CompressionMethod::Stored => true, _ => false };
    let time = (t.year(), t.month(), t.day(), t.hour(), t.minute(), t.second());
    ZipLookup::Entry(stored, f.data_start(), f.compressed_size(), time)
}

/// The message `prefix` followed by `text`.
fn prefixed(prefix: &str, text: &str) -> (r: String)
    ensures
        r@ == prefix@ + text@,
{
    let mut v: Vec<char> = Vec::new();
    push_str(&mut v, prefix);
    push_str(&mut v, text);
    string_from_chars(v.as_slice())
}

/// How the result of a lookup is answered.
pub fn answer_lookup(lookup: ZipLookup) -> (r: ZipResolve)
    ensures
        r@ == lookup_answer(lookup@),
{
    match lookup {
        ZipLookup::Failed(ZipFailure::FileNotFound) => ZipResolve::NotFound,
        ZipLookup::Failed(ZipFailure::Io(t)) => ZipResolve::Error(t),
        ZipLookup::Failed(ZipFailure::InvalidArchive(m)) => {
            ZipResolve::Error(prefixed("Invalid archive: ", m.as_str()))
        },
        ZipLookup::Failed(ZipFailure::UnsupportedArchive(m)) => {
            ZipResolve::Error(prefixed("Unsupported archive: ", m.as_str()))
        },
        ZipLookup::Entry(stored, start, size, modified) => {
            if !stored {
                let m = String::from_str("Unsupported archive: compressed file");
                return ZipResolve::Error(m);
            }
            if (usize::MAX as u64) < start {
                return ZipResolve::Error(String::from_str("Unsupported archive"));
            }
            if (usize::MAX as u64) < size {
                return ZipResolve::Error(String::from_str("Unsupported archive"));
            }
            ZipResolve::Found { offset: start as usize, limit: size as usize, modified }
        },
    }
}

/// A zip archive in memory, whose entries are served by name.
pub struct ZipResolver {
    raw_data: Vec<u8>,
    archive: ZipArchive<Cursor<Vec<u8>>>,
}

impl ZipResolver {
    #[verifier::type_invariant]
    spec fn reads_own_bytes(self) -> bool {
        zip_archive_bytes(self.archive) == self.raw_data@
    }

    /// The bytes of the archive.
    pub closed spec fn spec_data(&self) -> Seq<u8> {
        self.raw_data@
    }

    /// Opens the archive made of `bytes`. An archive on which opening could
    /// overflow a zip64 entry offset is refused before it is read.
    pub fn load(bytes: Vec<u8>) -> (r: Result<ZipResolver, ZipFailure>)
        ensures
            zip64_offset_may_overflow(bytes@) ==> (r matches Err(e) && e@ == zip64_refusal()),
            !zip64_offset_may_overflow(bytes@) ==> match r {
                Ok(z) => zip_open(bytes@) is None && z.spec_data() == bytes@,
                Err(e) => zip_open(bytes@) == Some(e@),
            },
    {
        if find_zip64_offset(&bytes) && find_overflowing_offset(&bytes) {
            return Err(ZipFailure::UnsupportedArchive(String::from_str("zip64 entry offsets")));
        }
        let raw_data = bytes.clone();
        match open_archive(bytes) {
            Ok(archive) => Ok(ZipResolver { raw_data, archive }),
            Err(e) => Err(e),
        }
    }

    /// The bytes of the archive.
    pub fn data(&self) -> (r: &[u8])
        ensures
            r@ == self.spec_data(),
    {
        self.raw_data.as_slice()
    }

    /// Answers a request with `method`, whose URI has a scheme or a host as
    /// the flags say, for `path`.
    pub fn resolve(&self, method: &str, has_scheme: bool, has_host: bool, path: &str) -> (r: ZipResolve)
        requires
            path@.len() > 0 ==> (path@[0] as u32) < 128,
        ensures
            r@ == resolve_answer(method@, has_scheme, has_host, path@, self.spec_data()),
    {
        proof {
            use_type_invariant(self);
        }
        if !(str_equals(method, "GET") || str_equals(method, "HEAD")) {
            return ZipResolve::MethodNotMatched;
        }
        if has_scheme || has_host {
            return ZipResolve::UriNotMatched;
        }
        let n = path.unicode_len();
        if n == 0 {
            return ZipResolve::IsDirectory;
        }
        let name = path.substring_char(1, n);
        assert(name@ =~= path@.drop_first());
        let mut archive = clone_archive(&self.archive);
        let lookup = archive_by_name(&mut archive, name);
        answer_lookup(lookup)
    }
}

} // verus!
