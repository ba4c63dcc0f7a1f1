//! Torrent metainfo: the `info` dictionary read field by field as the
//! decoder meets its keys, the piece hashes, the piece length as a power of
//! two, and the entries written back out.

use vstd::arithmetic::power2::pow2;
use vstd::prelude::*;

use crate::piece_request::TorrentId;

verus! {

/// One file of a multi-file torrent: its length, where its bytes start in
/// the torrent, and its path as components.
#[derive(Debug, Clone)]
pub struct TorrentMetaInfoFile {
    pub length: u64,
    pub global_offset: u64,
    pub path: Vec<String>,
}

/// The `info` dictionary of a torrent.
#[derive(Debug, Clone)]
pub struct TorrentMetaInfo {
    pub piece_length_shift: u8,
    pub pieces: Vec<TorrentId>,
    pub name: String,
    pub files: Vec<TorrentMetaInfoFile>,
    pub length: u64,
    pub private: Option<bool>,
}

/// A torrent's metainfo file.
#[derive(Debug, Clone)]
pub struct TorrentMeta {
    pub announce: String,
    pub announce_list: Vec<Vec<String>>,
    pub comment: String,
    pub created_by: String,
    pub creation_date: u64,
    pub info: TorrentMetaInfo,
}

/// The piece hashes of a torrent, written out as one byte string.
#[derive(Debug, Clone)]
pub struct TorrentRawBytes(pub Vec<TorrentId>);

/// The keys of the `info` dictionary.
#[derive(Debug, Clone, Copy, PartialEq, Eq)]
pub enum InfoKey {
    Files,
    Length,
    Name,
    NameUtf8,
    PieceLength,
    Pieces,
    Private,
}

/// One key of the `info` dictionary with its decoded value.
#[derive(Debug, Clone)]
pub enum InfoField {
    PieceLength(u32),
    Pieces(Vec<u8>),
    Name(String),
    NameUtf8(String),
    Files(Vec<TorrentMetaInfoFile>),
    Length(u64),
    Private(bool),
}

/// Why an `info` dictionary is refused.
#[derive(Debug, Clone, Copy, PartialEq, Eq)]
pub enum InfoError {
    /// A key given twice.
    DuplicateField(InfoKey),
    /// A required key left out.
    MissingField(InfoKey),
    /// A piece length that is not a power of two.
    InvalidPieceLength(u32),
    /// Piece hashes whose length is zero or not a multiple of twenty.
    InvalidPiecesLength(usize),
    /// Neither `files` nor `length`.
    NoFilesOrLength,
    /// Both `files` and `length`.
    FilesAndLength,
}

impl TorrentMetaInfo {
    /// Whether the torrent lists files rather than one length.
    pub fn is_multi_file(&self) -> (r: bool)
        ensures
            r == (self.files@.len() > 0),
    {
        !self.files.is_empty()
    }
}

/// The exponent `k < 32` with `v == 2^k`, if `v` is such a power of two.
pub open spec fn spec_piece_length_shift(v: u32) -> Option<u8> {
    if exists|k: nat| k < 32 && v == pow2(k) {
        Some((choose|k: nat| k < 32 && v == pow2(k)) as u8)
    } else {
        None
    }
}

/// The piece length shift for a piece length of `v` bytes; lengths that are
/// not a power of two are refused.
pub fn visit_piece_length(v: u32) -> (r: Result<u8, InfoError>)
    ensures
        match spec_piece_length_shift(v) {
            Some(k) => r == Ok::<u8, InfoError>(k),
            None => r == Err::<u8, InfoError>(InfoError::InvalidPieceLength(v)),
        },
{
    let mut k: u32 = 0;
    while k < 32
        invariant
            0 <= k <= 32,
            forall|j: nat| j < k ==> v != pow2(j),
        decreases 32 - k,
    {
        proof {
            vstd::bits::lemma_u32_pow2_no_overflow(k as nat);
            vstd::bits::lemma_u32_shl_is_mul(1, k);
        }
        if v == 1u32 << k {
            proof {
                assert forall|a: nat, b: nat| a < 32 && b < 32 && pow2(a) == pow2(b) implies a
                    == b by {
                    if a < b {
                        vstd::arithmetic::power2::lemma_pow2_strictly_increases(a, b);
                    } else if b < a {
                        vstd::arithmetic::power2::lemma_pow2_strictly_increases(b, a);
                    }
                }
                let c = choose|c: nat| c < 32 && v == pow2(c);
                assert(c == k as nat);
            }
            return Ok(k as u8);
        }
        k = k + 1;
    }
    Err(InfoError::InvalidPieceLength(v))
}

/// The twenty-byte chunks of `s`.
pub open spec fn chunks20(s: Seq<u8>) -> Seq<Seq<u8>> {
    Seq::new(s.len() / 20, |i: int| s.subrange(20 * i, 20 * i + 20))
}

/// The bytes of each id.
pub open spec fn ids_view(ids: Seq<TorrentId>) -> Seq<Seq<u8>> {
    ids.map_values(|id: TorrentId| id.0@)
}

/// The piece hashes held by `data`: its twenty-byte chunks, where it is
/// non-empty and a multiple of twenty bytes long.
pub fn visit_buf(data: &[u8]) -> (r: Result<Vec<TorrentId>, InfoError>)
    ensures
        data@.len() % 20 != 0 || data@.len() == 0 ==> r == Err::<Vec<TorrentId>, InfoError>(
            InfoError::InvalidPiecesLength(data@.len() as usize),
        ),
        r is Ok ==> data@.len() % 20 == 0 && data@.len() > 0,
        r matches Ok(ids) ==> ids_view(ids@) == chunks20(data@),
        r is Ok <==> data@.len() % 20 == 0 && data@.len() > 0,
{
    let n = data.len();
    if n % 20 != 0 || n == 0 {
        return Err(InfoError::InvalidPiecesLength(n));
    }
    let mut out: Vec<TorrentId> = Vec::new();
    let mut i: usize = 0;
    while i < n / 20
        invariant
            n == data@.len(),
            n % 20 == 0,
            0 <= i <= n / 20,
            ids_view(out@) == chunks20(data@).take(i as int),
        decreases n / 20 - i,
    {
        let id = TorrentId::from_slice(&data[20 * i..20 * i + 20]).unwrap();
        let ghost before = out@;
        out.push(id);
        assert(ids_view(out@) =~= chunks20(data@).take(i + 1)) by {
            assert(ids_view(out@) =~= ids_view(before).push(id.0@));
        }
        i = i + 1;
    }
    assert(chunks20(data@).take((n / 20) as int) =~= chunks20(data@));
    Ok(out)
}

/// The bytes of all piece hashes, in order.
pub open spec fn flatten_ids(ids: Seq<Seq<u8>>) -> Seq<u8>
    decreases ids.len(),
{
    if ids.len() == 0 {
        Seq::empty()
    } else {
        flatten_ids(ids.drop_last()) + ids.last()
    }
}

impl TorrentRawBytes {
    /// The byte string that the hashes are written out as.
    pub fn flatten(&self) -> (r: Vec<u8>)
        ensures
            r@ == flatten_ids(ids_view(self.0@)),
            r@.len() == 20 * self.0@.len(),
    {
        let mut out: Vec<u8> = Vec::new();
        let mut i: usize = 0;
        while i < self.0.len()
            invariant
                0 <= i <= self.0@.len(),
                out@ == flatten_ids(ids_view(self.0@).take(i as int)),
                out@.len() == 20 * i,
            decreases self.0@.len() - i,
        {
            let bytes = self.0[i].0;
            let mut j: usize = 0;
            let ghost start = out@;
            while j < 20
                invariant
                    0 <= j <= 20,
                    out@ == start + bytes@.take(j as int),
                decreases 20 - j,
            {
                out.push(bytes[j]);
                j = j + 1;
                assert(out@ =~= start + bytes@.take(j as int));
            }
            assert(bytes@.take(20) =~= bytes@);
            assert(ids_view(self.0@).take(i + 1).drop_last() =~= ids_view(self.0@).take(i as int));
            i = i + 1;
        }
        assert(ids_view(self.0@).take(self.0@.len() as int) =~= ids_view(self.0@));
        out
    }
}

/// Reading back the written hashes gives the same hashes.
pub proof fn lemma_chunks_of_flatten(ids: Seq<Seq<u8>>)
    requires
        forall|i: int| 0 <= i < ids.len() ==> (#[trigger] ids[i]).len() == 20,
    ensures
        flatten_ids(ids).len() == 20 * ids.len(),
        chunks20(flatten_ids(ids)) == ids,
    decreases ids.len(),
{
    if ids.len() > 0 {
        let t = ids.drop_last();
        lemma_chunks_of_flatten(t);
        let f = flatten_ids(ids);
        let ft = flatten_ids(t);
        assert(f == ft + ids.last());
        assert(chunks20(f) =~= ids) by {
            assert forall|i: int| 0 <= i < ids.len() implies chunks20(f)[i] == ids[i] by {
                if i < t.len() {
                    assert(chunks20(ft)[i] == t[i]);
                    assert(f.subrange(20 * i, 20 * i + 20) =~= ft.subrange(20 * i, 20 * i + 20));
                } else {
                    assert(f.subrange(20 * i, 20 * i + 20) =~= ids.last());
                }
            }
        }
    }
}

/// The fields read so far from an `info` dictionary.
pub struct InfoAcc {
    pub piece_length_shift: Option<u8>,
    pub pieces: Option<Seq<Seq<u8>>>,
    pub name: Option<Seq<char>>,
    pub name_utf8: Option<Seq<char>>,
    pub files: Option<Seq<TorrentMetaInfoFile>>,
    pub length: Option<u64>,
    pub private: Option<bool>,
}

/// Nothing read yet.
pub open spec fn empty_acc() -> InfoAcc {
    InfoAcc {
        piece_length_shift: None,
        pieces: None,
        name: None,
        name_utf8: None,
        files: None,
        length: None,
        private: None,
    }
}

/// What reading the field `f` does to `acc`: a second value for a key is
/// refused, and the piece length and hashes are checked.
pub open spec fn step_acc(acc: InfoAcc, f: InfoField) -> Result<InfoAcc, InfoError> {
    match f {
        InfoField::PieceLength(v) => if acc.piece_length_shift is Some {
            Err(InfoError::DuplicateField(InfoKey::PieceLength))
        } else {
            match spec_piece_length_shift(v) {
                Some(k) => Ok(InfoAcc { piece_length_shift: Some(k), ..acc }),
                None => Err(InfoError::InvalidPieceLength(v)),
            }
        },
        InfoField::Pieces(b) => if acc.pieces is Some {
            Err(InfoError::DuplicateField(InfoKey::Pieces))
        } else if b@.len() % 20 != 0 || b@.len() == 0 {
            Err(InfoError::InvalidPiecesLength(b@.len() as usize))
        } else {
            Ok(InfoAcc { pieces: Some(chunks20(b@)), ..acc })
        },
        InfoField::Name(n) => if acc.name is Some {
            Err(InfoError::DuplicateField(InfoKey::Name))
        } else {
            Ok(InfoAcc { name: Some(n@), ..acc })
        },
        InfoField::NameUtf8(n) => if acc.name_utf8 is Some {
            Err(InfoError::DuplicateField(InfoKey::NameUtf8))
        } else {
            Ok(InfoAcc { name_utf8: Some(n@), ..acc })
        },
        InfoField::Files(fs) => if acc.files is Some {
            Err(InfoError::DuplicateField(InfoKey::Files))
        } else {
            Ok(InfoAcc { files: Some(fs@), ..acc })
        },
        InfoField::Length(l) => if acc.length is Some {
            Err(InfoError::DuplicateField(InfoKey::Length))
        } else {
            Ok(InfoAcc { length: Some(l), ..acc })
        },
        InfoField::Private(p) => if acc.private is Some {
            Err(InfoError::DuplicateField(InfoKey::Private))
        } else {
            Ok(InfoAcc { private: Some(p), ..acc })
        },
    }
}

/// What reading the fields `fs` in order gives.
pub open spec fn read_fields(fs: Seq<InfoField>) -> Result<InfoAcc, InfoError>
    decreases fs.len(),
{
    if fs.len() == 0 {
        Ok(empty_acc())
    } else {
        match read_fields(fs.drop_last()) {
            Ok(acc) => step_acc(acc, fs.last()),
            Err(e) => Err(e),
        }
    }
}

/// The sum of the lengths of the first `n` files.
pub open spec fn files_total(fs: Seq<TorrentMetaInfoFile>, n: int) -> int
    decreases n,
{
    if n <= 0 {
        0
    } else {
        files_total(fs, n - 1) + fs[n - 1].length
    }
}

/// An `info` dictionary as plain values.
pub struct InfoView {
    pub piece_length_shift: u8,
    pub pieces: Seq<Seq<u8>>,
    pub name: Seq<char>,
    pub files: Seq<(u64, int, Seq<Seq<char>>)>,
    pub length: int,
    pub private: Option<bool>,
}

/// What reading an `info` dictionary gives: the dictionary, a refusal, or an
/// overflow of the total length of its files.
pub enum InfoOutcome {
    Info(InfoView),
    Fails(InfoError),
    Overflows,
}

/// The paths of each file, as characters.
pub open spec fn path_view(p: Seq<String>) -> Seq<Seq<char>> {
    p.map_values(|s: String| s@)
}

/// The dictionary that the fields read into `acc` make: piece length,
/// pieces and name are required, `name.utf-8` wins over `name`, and exactly
/// one of `files` (whose offsets are the running totals of their lengths)
/// and `length` must be given.
pub open spec fn finish_acc(acc: InfoAcc) -> InfoOutcome {
    if acc.piece_length_shift is None {
        InfoOutcome::Fails(InfoError::MissingField(InfoKey::PieceLength))
    } else if acc.pieces is None {
        InfoOutcome::Fails(InfoError::MissingField(InfoKey::Pieces))
    } else if acc.name is None {
        InfoOutcome::Fails(InfoError::MissingField(InfoKey::Name))
    } else {
        let name = match acc.name_utf8 {
            Some(n) => n,
            None => acc.name.unwrap(),
        };
        match (acc.files, acc.length) {
            (None, None) => InfoOutcome::Fails(InfoError::NoFilesOrLength),
            (Some(_), Some(_)) => InfoOutcome::Fails(InfoError::FilesAndLength),
            (None, Some(l)) => InfoOutcome::Info(
                InfoView {
                    piece_length_shift: acc.piece_length_shift.unwrap(),
                    pieces: acc.pieces.unwrap(),
                    name,
                    files: Seq::empty(),
                    length: l as int,
                    private: acc.private,
                },
            ),
            (Some(fs), None) => if files_total(fs, fs.len() as int) > u64::MAX {
                InfoOutcome::Overflows
            } else {
                InfoOutcome::Info(
                    InfoView {
                        piece_length_shift: acc.piece_length_shift.unwrap(),
                        pieces: acc.pieces.unwrap(),
                        name,
                        files: Seq::new(
                            fs.len(),
                            |i: int| (fs[i].length, files_total(fs, i), path_view(fs[i].path@)),
                        ),
                        length: files_total(fs, fs.len() as int),
                        private: acc.private,
                    },
                )
            },
        }
    }
}

/// What reading the `info` dictionary with the fields `fs` gives.
pub open spec fn spec_from_fields(fs: Seq<InfoField>) -> InfoOutcome {
    match read_fields(fs) {
        Err(e) => InfoOutcome::Fails(e),
        Ok(acc) => finish_acc(acc),
    }
}

/// Whether a `files` field is among `fs`.
pub open spec fn has_files_field(fs: Seq<InfoField>) -> bool {
    exists|i: int| 0 <= i < fs.len() && #[trigger] fs[i] is Files
}

/// Whether a `length` field is among `fs`.
pub open spec fn has_length_field(fs: Seq<InfoField>) -> bool {
    exists|i: int| 0 <= i < fs.len() && #[trigger] fs[i] is Length
}

/// Reading fields records files exactly where a `files` field was read, and
/// a length exactly where a `length` field was.
proof fn lemma_read_fields_keys(fs: Seq<InfoField>)
    ensures
        read_fields(fs) matches Ok(acc) ==> (acc.files is Some <==> has_files_field(fs)) && (
        acc.length is Some <==> has_length_field(fs)),
    decreases fs.len(),
{
    if fs.len() > 0 {
        let p = fs.drop_last();
        lemma_read_fields_keys(p);
        assert forall|i: int| 0 <= i < p.len() implies #[trigger] p[i] == fs[i] by {}
        if has_files_field(p) {
            let i = choose|i: int| 0 <= i < p.len() && #[trigger] p[i] is Files;
            assert(fs[i] is Files);
        }
        if has_length_field(p) {
            let i = choose|i: int| 0 <= i < p.len() && #[trigger] p[i] is Length;
            assert(fs[i] is Length);
        }
        if has_files_field(fs) && !(fs.last() is Files) {
            let i = choose|i: int| 0 <= i < fs.len() && #[trigger] fs[i] is Files;
            assert(i < p.len());
            assert(p[i] is Files);
        }
        if has_length_field(fs) && !(fs.last() is Length) {
            let i = choose|i: int| 0 <= i < fs.len() && #[trigger] fs[i] is Length;
            assert(i < p.len());
            assert(p[i] is Length);
        }
        if fs.last() is Files {
            assert(fs[fs.len() - 1] is Files);
        }
        if fs.last() is Length {
            assert(fs[fs.len() - 1] is Length);
        }
    }
}

/// A torrent read from an `info` dictionary lists files only where the
/// dictionary has a `files` key, and one read from a dictionary with a
/// `length` key lists none.
pub proof fn lemma_multi_file_fields(fs: Seq<InfoField>, info: TorrentMetaInfo)
    requires
        spec_from_fields(fs) == InfoOutcome::Info(info_view(info)),
    ensures
        info.files@.len() > 0 ==> has_files_field(fs),
        has_length_field(fs) ==> info.files@.len() == 0,
{
    lemma_read_fields_keys(fs);
    assert(info_view(info).files.len() == info.files@.len());
}

/// `info` as plain values.
pub open spec fn info_view(info: TorrentMetaInfo) -> InfoView {
    InfoView {
        piece_length_shift: info.piece_length_shift,
        pieces: ids_view(info.pieces@),
        name: info.name@,
        files: info.files@.map_values(
            |f: TorrentMetaInfoFile| (f.length, f.global_offset as int, path_view(f.path@)),
        ),
        length: info.length as int,
        private: info.private,
    }
}

/// The fields read so far, held by the reader.
struct Acc {
    piece_length_shift: Option<u8>,
    pieces: Option<Vec<TorrentId>>,
    name: Option<String>,
    name_utf8: Option<String>,
    files: Option<Vec<TorrentMetaInfoFile>>,
    length: Option<u64>,
    private: Option<bool>,
}

/// The fields held by `a`, as plain values.
spec fn acc_view(a: Acc) -> InfoAcc {
    InfoAcc {
        piece_length_shift: a.piece_length_shift,
        pieces: match a.pieces {
            Some(p) => Some(ids_view(p@)),
            None => None,
        },
        name: match a.name {
            Some(n) => Some(n@),
            None => None,
        },
        name_utf8: match a.name_utf8 {
            Some(n) => Some(n@),
            None => None,
        },
        files: match a.files {
            Some(f) => Some(f@),
            None => None,
        },
        length: a.length,
        private: a.private,
    }
}

/// Reads the fields `fields` into the dictionary, or says why not; `Err(None)`
/// where the total length of the files overflows.
fn read_info(fields: Vec<InfoField>) -> (r: Result<TorrentMetaInfo, Option<InfoError>>)
    ensures
        match spec_from_fields(fields@) {
            InfoOutcome::Info(v) => r matches Ok(info) && info_view(info) == v,
            InfoOutcome::Fails(e) => r == Err::<TorrentMetaInfo, Option<InfoError>>(Some(e)),
            InfoOutcome::Overflows => r == Err::<TorrentMetaInfo, Option<InfoError>>(None),
        },
{
    let ghost all = fields@;
    let n_fields: usize = fields.len();
    assert(all.len() == n_fields);
    let mut acc = Acc {
        piece_length_shift: None,
        pieces: None,
        name: None,
        name_utf8: None,
        files: None,
        length: None,
        private: None,
    };
    let mut rest = fields;
    let mut done: usize = 0;
    assert(all.take(0) =~= Seq::<InfoField>::empty());
    assert(all.skip(0) =~= all);
    while rest.len() > 0
        invariant
            all == fields@,
            done + rest@.len() == all.len(),
            all.len() <= usize::MAX,
            rest@ == all.skip(done as int),
            read_fields(all.take(done as int)) == Ok::<InfoAcc, InfoError>(acc_view(acc)),
        decreases rest@.len(),
    {
        let ghost before = acc_view(acc);
        let f = rest.remove(0);
        let ghost gf = f;
        assert(f == all[done as int]);
        assert(all.take(done + 1).drop_last() =~= all.take(done as int));
        assert(all.take(done + 1).last() == f);
        let res: Result<(), InfoError> = match f {
            InfoField::PieceLength(v) => {
                if acc.piece_length_shift.is_some() {
                    Err(InfoError::DuplicateField(InfoKey::PieceLength))
                } else {
                    match visit_piece_length(v) {
                        Ok(k) => {
                            acc.piece_length_shift = Some(k);
                            Ok(())
                        },
                        Err(e) => Err(e),
                    }
                }
            },
            InfoField::Pieces(b) => {
                if acc.pieces.is_some() {
                    Err(InfoError::DuplicateField(InfoKey::Pieces))
                } else {
                    match visit_buf(b.as_slice()) {
                        Ok(ids) => {
                            acc.pieces = Some(ids);
                            Ok(())
                        },
                        Err(e) => Err(e),
                    }
                }
            },
            InfoField::Name(n) => {
                if acc.name.is_some() {
                    Err(InfoError::DuplicateField(InfoKey::Name))
                } else {
                    acc.name = Some(n);
                    Ok(())
                }
            },
            InfoField::NameUtf8(n) => {
                if acc.name_utf8.is_some() {
                    Err(InfoError::DuplicateField(InfoKey::NameUtf8))
                } else {
                    acc.name_utf8 = Some(n);
                    Ok(())
                }
            },
            InfoField::Files(fs) => {
                if acc.files.is_some() {
                    Err(InfoError::DuplicateField(InfoKey::Files))
                } else {
                    acc.files = Some(fs);
                    Ok(())
                }
            },
            InfoField::Length(l) => {
                if acc.length.is_some() {
                    Err(InfoError::DuplicateField(InfoKey::Length))
                } else {
                    acc.length = Some(l);
                    Ok(())
                }
            },
            InfoField::Private(p) => {
                if acc.private.is_some() {
                    Err(InfoError::DuplicateField(InfoKey::Private))
                } else {
                    acc.private = Some(p);
                    Ok(())
                }
            },
        };
        match res {
            Err(e) => {
                proof {
                    assert(step_acc(before, gf) == Err::<InfoAcc, InfoError>(e));
                    assert(read_fields(all.take(done + 1)) == Err::<InfoAcc, InfoError>(e));
                    lemma_read_fields_fail_stays(all, done as int + 1);
                    assert(read_fields(all) == Err::<InfoAcc, InfoError>(e));
                    assert(spec_from_fields(all) == InfoOutcome::Fails(e));
                }
                return Err(Some(e));
            },
            Ok(()) => {
                assert(step_acc(before, gf) == Ok::<InfoAcc, InfoError>(acc_view(acc)));
                assert(read_fields(all.take(done + 1)) == Ok::<InfoAcc, InfoError>(acc_view(acc)));
            },
        }
        done = done + 1;
        assert(rest@ =~= all.skip(done as int));
    }
    assert(all.take(all.len() as int) =~= all);
    finish(acc)
}

/// Once reading fails, further fields do not matter.
proof fn lemma_read_fields_fail_stays(all: Seq<InfoField>, n: int)
    requires
        0 <= n <= all.len(),
    ensures
        read_fields(all.take(n)) is Err ==> read_fields(all) == read_fields(all.take(n)),
    decreases all.len() - n,
{
    if n < all.len() {
        lemma_read_fields_fail_stays(all, n + 1);
        assert(all.take(n + 1).drop_last() =~= all.take(n));
    } else {
        assert(all.take(n) =~= all);
    }
}

/// The dictionary that the fields read into `acc` make.
fn finish(acc: Acc) -> (r: Result<TorrentMetaInfo, Option<InfoError>>)
    ensures
        match finish_acc(acc_view(acc)) {
            InfoOutcome::Info(v) => r matches Ok(info) && info_view(info) == v,
            InfoOutcome::Fails(e) => r == Err::<TorrentMetaInfo, Option<InfoError>>(Some(e)),
            InfoOutcome::Overflows => r == Err::<TorrentMetaInfo, Option<InfoError>>(None),
        },
{
    let ghost av = acc_view(acc);
    let piece_length_shift = match acc.piece_length_shift {
        Some(v) => v,
        None => {
            return Err(Some(InfoError::MissingField(InfoKey::PieceLength)));
        },
    };
    let pieces = match acc.pieces {
        Some(v) => v,
        None => {
            return Err(Some(InfoError::MissingField(InfoKey::Pieces)));
        },
    };
    let mut name = match acc.name {
        Some(v) => v,
        None => {
            return Err(Some(InfoError::MissingField(InfoKey::Name)));
        },
    };
    if let Some(name_v) = acc.name_utf8 {
        name = name_v;
    }
    match (acc.files, acc.length) {
        (None, None) => Err(Some(InfoError::NoFilesOrLength)),
        (Some(_), Some(_)) => Err(Some(InfoError::FilesAndLength)),
        (None, Some(length_val)) => {
            let info = TorrentMetaInfo {
                piece_length_shift,
                pieces,
                name,
                files: Vec::new(),
                length: length_val,
                private: acc.private,
            };
            assert(info_view(info).files =~= Seq::<(u64, int, Seq<Seq<char>>)>::empty());
            Ok(info)
        },
        (Some(files_val), None) => {
            let ghost fs = files_val@;
            let mut files_val = files_val;
            let mut length_val: u64 = 0;
            let mut i: usize = 0;
            while i < files_val.len()
                invariant
                    files_val@.len() == fs.len(),
                    av.files == Some(fs),
                    av == acc_view(acc),
                    av.length is None,
                    av.piece_length_shift is Some,
                    av.pieces is Some,
                    av.name is Some,
                    0 <= i <= fs.len(),
                    length_val == files_total(fs, i as int),
                    forall|j: int|
                        0 <= j < fs.len() ==> (#[trigger] files_val@[j]).length == fs[j].length
                            && files_val@[j].path == fs[j].path,
                    forall|j: int|
                        0 <= j < i ==> (#[trigger] files_val@[j]).global_offset == files_total(
                            fs,
                            j,
                        ),
                decreases fs.len() - i,
            {
                let mut f = files_val.remove(i);
                f.global_offset = length_val;
                let flen = f.length;
                files_val.insert(i, f);
                assert(flen == fs[i as int].length);
                assert(files_total(fs, i + 1) == files_total(fs, i as int) + fs[i as int].length);
                if length_val > u64::MAX - flen {
                    proof {
                        lemma_files_total_monotone(fs, i + 1, fs.len() as int);
                        assert(files_total(fs, fs.len() as int) > u64::MAX);
                        assert(av.files == Some(fs));
                        assert(av.length is None);
                        assert(finish_acc(av) is Overflows);
                    }
                    return Err(None);
                }
                length_val = length_val + flen;
                i = i + 1;
            }
            let info = TorrentMetaInfo {
                piece_length_shift,
                pieces,
                name,
                files: files_val,
                length: length_val,
                private: acc.private,
            };
            assert(info_view(info).files =~= Seq::new(
                fs.len(),
                |j: int| (fs[j].length, files_total(fs, j), path_view(fs[j].path@)),
            ));
            Ok(info)
        },
    }
}

/// Running totals only grow.
proof fn lemma_files_total_monotone(fs: Seq<TorrentMetaInfoFile>, a: int, b: int)
    requires
        0 <= a <= b,
    ensures
        files_total(fs, a) <= files_total(fs, b),
    decreases b - a,
{
    if a < b {
        lemma_files_total_monotone(fs, a, b - 1);
    }
}

impl TorrentMetaInfo {
    /// Whether reading the fields `fields` overflows the total length of the files.
    pub fn from_fields_overflows(fields: Vec<InfoField>) -> (r: bool)
        ensures
            r == (spec_from_fields(fields@) is Overflows),
    {
        match read_info(fields) {
            Err(None) => true,
            _ => false,
        }
    }

    /// The `info` dictionary with the fields `fields`, in the order the
    /// decoder met them: a key given twice, a missing piece length, pieces or
    /// name, a piece length that is not a power of two, hashes that are not
    /// whole twenty-byte chunks, or not exactly one of `files` and `length`
    /// is refused. `name.utf-8` wins over `name`; a multi-file torrent's
    /// length is the sum of its files', whose offsets are the running totals.
    pub fn from_fields(fields: Vec<InfoField>) -> (r: Result<TorrentMetaInfo, InfoError>)
        requires
            !(spec_from_fields(fields@) is Overflows),
        ensures
            match spec_from_fields(fields@) {
                InfoOutcome::Info(v) => r matches Ok(info) && info_view(info) == v,
                InfoOutcome::Fails(e) => r == Err::<TorrentMetaInfo, InfoError>(e),
                InfoOutcome::Overflows => false,
            },
    {
        match read_info(fields) {
            Ok(info) => Ok(info),
            Err(Some(e)) => Err(e),
            Err(None) => Err(InfoError::NoFilesOrLength),
        }
    }
}


/// The file `f` with the same length, offset and path.
fn copy_file(f: &TorrentMetaInfoFile) -> (r: TorrentMetaInfoFile)
    ensures
        r.length == f.length,
        r.global_offset == f.global_offset,
        path_view(r.path@) == path_view(f.path@),
{
    let mut path: Vec<String> = Vec::new();
    let mut i: usize = 0;
    while i < f.path.len()
        invariant
            0 <= i <= f.path@.len(),
            path_view(path@) == path_view(f.path@).take(i as int),
        decreases f.path@.len() - i,
    {
        let ghost before = path@;
        path.push(f.path[i].clone());
        assert(path_view(path@) =~= path_view(f.path@).take(i + 1)) by {
            assert(path_view(path@) =~= path_view(before).push(f.path@[i as int]@));
        }
        i = i + 1;
    }
    assert(path_view(f.path@).take(f.path@.len() as int) =~= path_view(f.path@));
    TorrentMetaInfoFile { length: f.length, global_offset: f.global_offset, path }
}

/// Whether the files `a` and `b` have the same lengths and paths, in order.
pub open spec fn same_files(a: Seq<TorrentMetaInfoFile>, b: Seq<TorrentMetaInfoFile>) -> bool {
    &&& a.len() == b.len()
    &&& forall|i: int|
        0 <= i < a.len() ==> (#[trigger] a[i]).length == b[i].length && path_view(a[i].path@)
            == path_view(b[i].path@)
}

/// Whether `fs` are the entries that `info` is written out as: `files` or
/// `length`, `name`, `piece length`, `pieces`, and `private` where it is set.
pub open spec fn entries_match(fs: Seq<InfoField>, info: TorrentMetaInfo) -> bool {
    &&& fs.len() == if info.private is Some {
        5int
    } else {
        4int
    }
    &&& if info.files@.len() > 0 {
        fs[0] matches InfoField::Files(f) && same_files(f@, info.files@)
    } else {
        fs[0] matches InfoField::Length(l) && l == info.length
    }
    &&& fs[1] matches InfoField::Name(n) && n@ == info.name@
    &&& fs[2] matches InfoField::PieceLength(v) && v == pow2(info.piece_length_shift as nat)
    &&& fs[3] matches InfoField::Pieces(b) && b@ == flatten_ids(ids_view(info.pieces@))
    &&& info.private matches Some(p) ==> fs[4] matches InfoField::Private(q) && q == p
}

impl TorrentMetaInfo {
    /// The entries that the dictionary is written out as, in order.
    pub fn info_entries(&self) -> (r: Vec<InfoField>)
        requires
            self.piece_length_shift < 32,
        ensures
            entries_match(r@, *self),
    {
        let mut out: Vec<InfoField> = Vec::new();
        if self.is_multi_file() {
            let mut files: Vec<TorrentMetaInfoFile> = Vec::new();
            let mut i: usize = 0;
            while i < self.files.len()
                invariant
                    0 <= i <= self.files@.len(),
                    files@.len() == i,
                    forall|j: int|
                        0 <= j < i ==> (#[trigger] files@[j]).length == self.files@[j].length
                            && path_view(files@[j].path@) == path_view(self.files@[j].path@),
                decreases self.files@.len() - i,
            {
                let f = copy_file(&self.files[i]);
                files.push(f);
                i = i + 1;
            }
            out.push(InfoField::Files(files));
        } else {
            out.push(InfoField::Length(self.length));
        }
        out.push(InfoField::Name(self.name.clone()));
        let s: u32 = self.piece_length_shift as u32;
        proof {
            vstd::bits::lemma_u32_pow2_no_overflow(s as nat);
            vstd::bits::lemma_u32_shl_is_mul(1, s);
        }
        out.push(InfoField::PieceLength(1u32 << s));
        let raw = TorrentRawBytes(self.pieces.clone());
        out.push(InfoField::Pieces(raw.flatten()));
        if let Some(p) = self.private {
            out.push(InfoField::Private(p));
        }
        out
    }
}

/// Whether `info` reads back from its entries: its piece length fits a
/// `u32`, it has pieces, and a multi-file torrent's offsets are the running
/// totals of its file lengths, whose sum is its length.
pub open spec fn info_consistent(info: TorrentMetaInfo) -> bool {
    &&& info.piece_length_shift < 32
    &&& info.pieces@.len() > 0
    &&& info.files@.len() > 0 ==> {
        &&& forall|i: int|
            0 <= i < info.files@.len() ==> (#[trigger] info.files@[i]).global_offset
                == files_total(info.files@, i)
        &&& info.length == files_total(info.files@, info.files@.len() as int)
    }
}

/// Running totals depend only on the lengths.
proof fn lemma_files_total_same(a: Seq<TorrentMetaInfoFile>, b: Seq<TorrentMetaInfoFile>, n: int)
    requires
        same_files(a, b),
        0 <= n <= a.len(),
    ensures
        files_total(a, n) == files_total(b, n),
    decreases n,
{
    if n > 0 {
        lemma_files_total_same(a, b, n - 1);
        assert(a[n - 1].length == b[n - 1].length);
    }
}

/// Reading back the entries that a consistent dictionary is written out as
/// gives the same dictionary.
pub proof fn lemma_info_entries_roundtrip(info: TorrentMetaInfo, fs: Seq<InfoField>)
    requires
        info_consistent(info),
        entries_match(fs, info),
    ensures
        spec_from_fields(fs) == InfoOutcome::Info(info_view(info)),
{
    let shift = info.piece_length_shift;
    assert(spec_piece_length_shift(pow2(shift as nat) as u32) == Some(shift)) by {
        vstd::bits::lemma_u32_pow2_no_overflow(shift as nat);
        let v = pow2(shift as nat) as u32;
        assert(v == pow2(shift as nat));
        assert(exists|k: nat| k < 32 && v == pow2(k));
        let c = choose|k: nat| k < 32 && v == pow2(k);
        if c < shift as nat {
            vstd::arithmetic::power2::lemma_pow2_strictly_increases(c, shift as nat);
        } else if c > shift as nat {
            vstd::arithmetic::power2::lemma_pow2_strictly_increases(shift as nat, c);
        }
    }
    let ids = ids_view(info.pieces@);
    assert forall|i: int| 0 <= i < ids.len() implies (#[trigger] ids[i]).len() == 20 by {
        assert(ids[i] == info.pieces@[i].0@);
    }
    lemma_chunks_of_flatten(ids);
    let a0 = empty_acc();
    let f0 = fs[0];
    let f1 = fs[1];
    let f2 = fs[2];
    let f3 = fs[3];
    assert(fs.take(0).len() == 0);
    assert(fs.take(1).drop_last() =~= fs.take(0));
    assert(fs.take(2).drop_last() =~= fs.take(1));
    assert(fs.take(3).drop_last() =~= fs.take(2));
    assert(fs.take(4).drop_last() =~= fs.take(3));
    assert(read_fields(fs.take(0)) == Ok::<InfoAcc, InfoError>(a0));
    assert(fs.take(1).last() == f0);
    assert(fs.take(2).last() == f1);
    assert(fs.take(3).last() == f2);
    assert(fs.take(4).last() == f3);
    let a1 = step_acc(a0, f0)->Ok_0;
    assert(read_fields(fs.take(1)) == step_acc(a0, f0));
    let a2 = step_acc(a1, f1)->Ok_0;
    assert(read_fields(fs.take(2)) == step_acc(a1, f1));
    let a3 = step_acc(a2, f2)->Ok_0;
    assert(read_fields(fs.take(3)) == step_acc(a2, f2));
    assert(step_acc(a2, f2) is Ok);
    let a4 = step_acc(a3, f3)->Ok_0;
    assert(read_fields(fs.take(4)) == step_acc(a3, f3));
    assert(step_acc(a3, f3) is Ok);
    let fin = if info.private is Some {
        assert(fs.take(5).drop_last() =~= fs.take(4));
        assert(fs.take(5) =~= fs);
        assert(fs.take(5).last() == fs[4]);
        step_acc(a4, fs[4])->Ok_0
    } else {
        assert(fs.take(4) =~= fs);
        a4
    };
    assert(read_fields(fs) == Ok::<InfoAcc, InfoError>(fin));
    assert(fin.pieces == Some(ids));
    assert(fin.name == Some(info.name@));
    assert(fin.name_utf8 is None);
    assert(fin.private == info.private);
    if info.files@.len() > 0 {
        let f = fin.files.unwrap();
        assert(same_files(f, info.files@));
        lemma_files_total_same(f, info.files@, f.len() as int);
        assert forall|i: int| 0 <= i < f.len() implies files_total(f, i) == files_total(
            info.files@,
            i,
        ) by {
            lemma_files_total_same(f, info.files@, i);
        }
        let v = finish_acc(fin)->Info_0;
        assert(v.files =~= info_view(info).files);
    } else {
        assert(info_view(info).files =~= Seq::<(u64, int, Seq<Seq<char>>)>::empty());
    }
}

} // verus!
