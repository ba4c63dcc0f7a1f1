//! The request that the webserver sends to the piece store for one block of a
//! torrent piece, its wire form, and the arithmetic that maps a byte span of
//! a file onto pieces and blocks.

use vstd::arithmetic::power2::pow2;
use vstd::prelude::*;

use crate::be::{be32, be32_bytes, be64, be64_bytes, read_be_u32, read_be_u64, write_be_u32, write_be_u64};

verus! {

/// The twenty-byte SHA-1 that names a torrent or one of its pieces.
#[derive(Debug, Clone, Copy, PartialEq, Eq)]
pub struct TorrentId(pub [u8; 20]);

impl TorrentId {
    /// The id whose bytes are all zero.
    pub fn zero() -> (r: TorrentId)
        ensures
            forall|i: int| 0 <= i < 20 ==> r.0@[i] == 0,
    {
        TorrentId([0u8; 20])
    }

    /// The id whose bytes are `data`, where it holds exactly twenty.
    pub fn from_slice(data: &[u8]) -> (r: Option<TorrentId>)
        ensures
            r is Some <==> data@.len() == 20,
            r matches Some(id) ==> id.0@ == data@,
    {
        if data.len() != 20 {
            return None;
        }
        let mut out = [0u8; 20];
        let mut i: usize = 0;
        while i < 20
            invariant
                data@.len() == 20,
                0 <= i <= 20,
                forall|j: int| 0 <= j < i ==> out@[j] == data@[j],
            decreases 20 - i,
        {
            out[i] = data[i];
            i = i + 1;
        }
        assert(out@ =~= data@);
        Some(TorrentId(out))
    }
}

/// A request for `piece_fetch_length` bytes at `piece_fetch_offset` of the
/// piece `piece_index` of the content `content_key`.
#[derive(Debug, Clone, Copy, PartialEq, Eq)]
pub struct PieceRequestMessage {
    pub content_key: TorrentId,
    pub piece_sha: TorrentId,
    pub content_total_length: u64,
    pub piece_length_shift: u8,
    pub piece_index: u32,
    pub piece_fetch_offset: u32,
    pub piece_fetch_length: u32,
}

/// Why a request could not be read from its wire form.
#[derive(Debug, Clone, Copy, PartialEq, Eq)]
pub enum PieceRequestError {
    /// Fewer bytes than a request takes.
    BadSize { got: usize },
    /// A piece length shift that does not fit in a byte.
    ShiftOutOfRange,
}

/// The number of bytes of a request on the wire, after its header.
pub const PACKET_SIZE: usize = 64;

/// The word that opens a request's header.
pub const TOKEN: u32 = 0x500e1857;

/// A request as plain values: the ids by their bytes.
pub struct PieceRequestView {
    pub content_key: Seq<u8>,
    pub piece_sha: Seq<u8>,
    pub content_total_length: u64,
    pub piece_length_shift: u8,
    pub piece_index: u32,
    pub piece_fetch_offset: u32,
    pub piece_fetch_length: u32,
}

impl View for PieceRequestMessage {
    type V = PieceRequestView;

    /// The request with its ids as byte sequences.
    open spec fn view(&self) -> PieceRequestView {
        PieceRequestView {
            content_key: self.content_key.0@,
            piece_sha: self.piece_sha.0@,
            content_total_length: self.content_total_length,
            piece_length_shift: self.piece_length_shift,
            piece_index: self.piece_index,
            piece_fetch_offset: self.piece_fetch_offset,
            piece_fetch_length: self.piece_fetch_length,
        }
    }
}

/// The request that the bytes `buf` hold, if they hold one.
pub open spec fn spec_from_buf(buf: Seq<u8>) -> Option<PieceRequestView> {
    if buf.len() < 64 || be32(buf, 48) > 255 {
        None
    } else {
        Some(
            PieceRequestView {
                content_key: buf.subrange(0, 20),
                piece_sha: buf.subrange(20, 40),
                content_total_length: be64(buf, 40),
                piece_length_shift: be32(buf, 48) as u8,
                piece_index: be32(buf, 52),
                piece_fetch_offset: be32(buf, 56),
                piece_fetch_length: be32(buf, 60),
            },
        )
    }
}

/// The wire form of `m`: the token, the size, then the fields in order, big-endian.
pub open spec fn spec_to_buf_with_header(m: PieceRequestMessage) -> Seq<u8> {
    be32_bytes(TOKEN) + be32_bytes(64) + m.content_key.0@ + m.piece_sha.0@ + be64_bytes(
        m.content_total_length,
    ) + be32_bytes(m.piece_length_shift as u32) + be32_bytes(m.piece_index) + be32_bytes(
        m.piece_fetch_offset,
    ) + be32_bytes(m.piece_fetch_length)
}

/// Reading back the four bytes of `n` gives `n`.
pub proof fn lemma_be32_roundtrip(n: u32)
    ensures
        be32(be32_bytes(n), 0) == n,
{
    let b = be32_bytes(n);
    let x0 = (n as int / 0x100_0000) as u8;
    let x1 = (n as int / 0x1_0000 % 0x100) as u8;
    let x2 = (n as int / 0x100 % 0x100) as u8;
    let x3 = (n as int % 0x100) as u8;
    assert(b[0] == x0 && b[1] == x1 && b[2] == x2 && b[3] == x3);
    assert(x0 as int * 0x100_0000 + x1 as int * 0x1_0000 + x2 as int * 0x100 + x3 as int == n);
}

/// Reading back the eight bytes of `n` gives `n`.
pub proof fn lemma_be64_roundtrip(n: u64)
    ensures
        be64(be64_bytes(n), 0) == n,
{
    let hi = (n as int / 0x1_0000_0000) as u32;
    let lo = (n as int % 0x1_0000_0000) as u32;
    let b = be64_bytes(n);
    lemma_be32_roundtrip(hi);
    lemma_be32_roundtrip(lo);
    assert(b.subrange(0, 4) =~= be32_bytes(hi));
    assert(b.subrange(4, 8) =~= be32_bytes(lo));
    assert(be32(b, 0) == be32(be32_bytes(hi), 0));
    assert(be32(b, 4) == be32(be32_bytes(lo), 0));
    assert(hi as int * 0x1_0000_0000 + lo as int == n);
}

/// A big-endian 32-bit value read at `at` from `prefix + be32_bytes(n) + rest`.
proof fn lemma_be32_at(prefix: Seq<u8>, n: u32, rest: Seq<u8>)
    ensures
        be32(prefix + be32_bytes(n) + rest, prefix.len() as int) == n,
{
    let s = prefix + be32_bytes(n) + rest;
    let p = prefix.len() as int;
    lemma_be32_roundtrip(n);
    assert(s[p] == be32_bytes(n)[0]);
    assert(s[p + 1] == be32_bytes(n)[1]);
    assert(s[p + 2] == be32_bytes(n)[2]);
    assert(s[p + 3] == be32_bytes(n)[3]);
}

/// A big-endian 64-bit value read at `at` from `prefix + be64_bytes(n) + rest`.
proof fn lemma_be64_at(prefix: Seq<u8>, n: u64, rest: Seq<u8>)
    ensures
        be64(prefix + be64_bytes(n) + rest, prefix.len() as int) == n,
{
    let s = prefix + be64_bytes(n) + rest;
    let p = prefix.len() as int;
    let hi = (n as int / 0x1_0000_0000) as u32;
    let lo = (n as int % 0x1_0000_0000) as u32;
    assert(s =~= prefix + be32_bytes(hi) + (be32_bytes(lo) + rest));
    assert(s =~= (prefix + be32_bytes(hi)) + be32_bytes(lo) + rest);
    lemma_be32_at(prefix, hi, be32_bytes(lo) + rest);
    lemma_be32_at(prefix + be32_bytes(hi), lo, rest);
    lemma_be64_roundtrip(n);
    lemma_be32_roundtrip(hi);
    lemma_be32_roundtrip(lo);
    assert(be64_bytes(n) =~= be32_bytes(hi) + be32_bytes(lo));
    assert(be32(be64_bytes(n), 0) == be32(be32_bytes(hi), 0));
    assert(be32(be64_bytes(n), 4) == be32(be32_bytes(lo), 0));
}

/// The request that `m`'s wire form holds after its eight-byte header is `m`.
pub proof fn lemma_piece_request_roundtrip(m: PieceRequestMessage)
    ensures
        spec_from_buf(spec_to_buf_with_header(m).skip(8)) == Some(m@),
{
    let w = spec_to_buf_with_header(m);
    let b = w.skip(8);
    let k = m.content_key.0@;
    let h = m.piece_sha.0@;
    let shift = m.piece_length_shift as u32;
    let tail_i = be32_bytes(m.piece_index) + be32_bytes(m.piece_fetch_offset) + be32_bytes(
        m.piece_fetch_length,
    );
    assert(b =~= k + h + be64_bytes(m.content_total_length) + be32_bytes(shift) + tail_i);
    assert(b.len() == 64);
    assert(b.subrange(0, 20) =~= k);
    assert(b.subrange(20, 40) =~= h);
    lemma_be64_at(k + h, m.content_total_length, be32_bytes(shift) + tail_i);
    assert(b =~= (k + h) + be64_bytes(m.content_total_length) + (be32_bytes(shift) + tail_i));
    let p48 = k + h + be64_bytes(m.content_total_length);
    assert(b =~= p48 + be32_bytes(shift) + tail_i);
    lemma_be32_at(p48, shift, tail_i);
    let p52 = p48 + be32_bytes(shift);
    let t56 = be32_bytes(m.piece_fetch_offset) + be32_bytes(m.piece_fetch_length);
    assert(b =~= p52 + be32_bytes(m.piece_index) + t56);
    lemma_be32_at(p52, m.piece_index, t56);
    let p56 = p52 + be32_bytes(m.piece_index);
    assert(b =~= p56 + be32_bytes(m.piece_fetch_offset) + be32_bytes(m.piece_fetch_length));
    lemma_be32_at(p56, m.piece_fetch_offset, be32_bytes(m.piece_fetch_length));
    let p60 = p56 + be32_bytes(m.piece_fetch_offset);
    assert(b =~= p60 + be32_bytes(m.piece_fetch_length) + Seq::<u8>::empty());
    lemma_be32_at(p60, m.piece_fetch_length, Seq::<u8>::empty());
}

impl PieceRequestMessage {
    /// The request held by `buf`: the two ids, then the total length, the
    /// piece length shift, the piece index and the offset and length to
    /// fetch, big-endian.
    pub fn from_buf(buf: &[u8]) -> (r: Result<PieceRequestMessage, PieceRequestError>)
        ensures
            buf@.len() < 64 ==> r == Err::<PieceRequestMessage, PieceRequestError>(
                PieceRequestError::BadSize { got: buf@.len() as usize },
            ),
            buf@.len() >= 64 && be32(buf@, 48) > 255 ==> r == Err::<
                PieceRequestMessage,
                PieceRequestError,
            >(PieceRequestError::ShiftOutOfRange),
            r matches Ok(m) ==> spec_from_buf(buf@) == Some(m@),
            r is Ok <==> spec_from_buf(buf@) is Some,
    {
        let n = buf.len();
        if n < PACKET_SIZE {
            return Err(PieceRequestError::BadSize { got: n });
        }
        let content_key = TorrentId::from_slice(&buf[0..20]).unwrap();
        let piece_sha = TorrentId::from_slice(&buf[20..40]).unwrap();
        let content_total_length = read_be_u64(&buf[40..n]);
        let piece_length_shift_aligned = read_be_u32(&buf[48..n]);
        let piece_index = read_be_u32(&buf[52..n]);
        let piece_fetch_offset = read_be_u32(&buf[56..n]);
        let piece_fetch_length = read_be_u32(&buf[60..n]);
        proof {
            let s = buf@;
            assert(buf@.subrange(40, n as int)[0] == s[40]);
            assert(be64(buf@.subrange(40, n as int), 0) == be64(s, 40)) by {
                let t = s.subrange(40, n as int);
                assert(t[0] == s[40] && t[1] == s[41] && t[2] == s[42] && t[3] == s[43]);
                assert(t[4] == s[44] && t[5] == s[45] && t[6] == s[46] && t[7] == s[47]);
            }
            assert(be32(s.subrange(48, n as int), 0) == be32(s, 48)) by {
                let t = s.subrange(48, n as int);
                assert(t[0] == s[48] && t[1] == s[49] && t[2] == s[50] && t[3] == s[51]);
            }
            assert(be32(s.subrange(52, n as int), 0) == be32(s, 52)) by {
                let t = s.subrange(52, n as int);
                assert(t[0] == s[52] && t[1] == s[53] && t[2] == s[54] && t[3] == s[55]);
            }
            assert(be32(s.subrange(56, n as int), 0) == be32(s, 56)) by {
                let t = s.subrange(56, n as int);
                assert(t[0] == s[56] && t[1] == s[57] && t[2] == s[58] && t[3] == s[59]);
            }
            assert(be32(s.subrange(60, n as int), 0) == be32(s, 60)) by {
                let t = s.subrange(60, n as int);
                assert(t[0] == s[60] && t[1] == s[61] && t[2] == s[62] && t[3] == s[63]);
            }
        }
        if piece_length_shift_aligned > 255 {
            return Err(PieceRequestError::ShiftOutOfRange);
        }
        let piece_length_shift = piece_length_shift_aligned as u8;
        assert(content_key.0@ =~= buf@.subrange(0, 20));
        assert(piece_sha.0@ =~= buf@.subrange(20, 40));
        Ok(
            PieceRequestMessage {
                content_key,
                piece_sha,
                content_total_length,
                piece_length_shift,
                piece_index,
                piece_fetch_offset,
                piece_fetch_length,
            },
        )
    }

    /// The request's wire form with its header; reading it back after the
    /// header gives the same request.
    pub fn to_buf_with_header(&self) -> (r: Vec<u8>)
        ensures
            r@ == spec_to_buf_with_header(*self),
            spec_from_buf(r@.skip(8)) == Some(self@),
    {
        let mut buf: Vec<u8> = Vec::new();
        let mut i: usize = 0;
        while i < 8
            invariant
                0 <= i <= 8,
                buf@.len() == i,
            decreases 8 - i,
        {
            buf.push(0);
            i = i + 1;
        }
        write_be_u32(&mut buf, 0, TOKEN);
        write_be_u32(&mut buf, 4, 64);
        assert(buf@ =~= be32_bytes(TOKEN) + be32_bytes(64));
        let key = self.content_key.0;
        let sha = self.piece_sha.0;
        let mut j: usize = 0;
        while j < 20
            invariant
                0 <= j <= 20,
                buf@ == be32_bytes(TOKEN) + be32_bytes(64) + key@.take(j as int),
            decreases 20 - j,
        {
            buf.push(key[j]);
            j = j + 1;
            assert(buf@ =~= be32_bytes(TOKEN) + be32_bytes(64) + key@.take(j as int));
        }
        assert(key@.take(20) =~= key@);
        let ghost with_key = buf@;
        j = 0;
        while j < 20
            invariant
                0 <= j <= 20,
                buf@ == with_key + sha@.take(j as int),
            decreases 20 - j,
        {
            buf.push(sha[j]);
            j = j + 1;
            assert(buf@ =~= with_key + sha@.take(j as int));
        }
        assert(sha@.take(20) =~= sha@);
        let ghost with_ids = buf@;
        assert(with_ids.len() == 48);
        j = 0;
        while j < 24
            invariant
                0 <= j <= 24,
                buf@.len() == 48 + j,
                buf@.subrange(0, 48) == with_ids,
            decreases 24 - j,
        {
            buf.push(0);
            j = j + 1;
            assert(buf@.subrange(0, 48) =~= with_ids);
        }
        write_be_u64(&mut buf, 48, self.content_total_length);
        write_be_u32(&mut buf, 56, self.piece_length_shift as u32);
        write_be_u32(&mut buf, 60, self.piece_index);
        write_be_u32(&mut buf, 64, self.piece_fetch_offset);
        write_be_u32(&mut buf, 68, self.piece_fetch_length);
        assert(buf@ =~= spec_to_buf_with_header(*self));
        proof {
            lemma_piece_request_roundtrip(*self);
        }
        buf
    }
}

/// The start of the block of `atom_length` bytes numbered `index`, and its
/// length, cut short at `total_length`.
pub fn compute_offset_length(index: u32, atom_length: u32, total_length: u64) -> (r: (u64, u32))
    requires
        atom_length as int * index as int <= total_length,
    ensures
        r.0 == atom_length as int * index as int,
        r.1 == (if total_length < atom_length as int * (index as int + 1) {
            total_length as int
        } else {
            atom_length as int * (index as int + 1)
        }) - atom_length as int * index as int,
{
    let atom: u64 = atom_length as u64;
    let idx: u64 = index as u64;
    assert(atom * idx <= 0xffff_ffff * 0xffff_ffffu64) by (nonlinear_arith)
        requires
            atom <= 0xffff_ffff,
            idx <= 0xffff_ffff,
    ;
    assert(atom * (idx + 1) <= 0xffff_ffff * 0x1_0000_0000u64) by (nonlinear_arith)
        requires
            atom <= 0xffff_ffff,
            idx + 1 <= 0x1_0000_0000,
    ;
    assert(atom * idx <= atom * (idx + 1)) by (nonlinear_arith);
    let offset_start = atom * idx;
    let mut offset_end = atom * (idx + 1);
    if total_length < offset_end {
        offset_end = total_length;
    }
    assert(offset_end - offset_start <= atom) by (nonlinear_arith)
        requires
            offset_end <= atom * (idx + 1),
            offset_start == atom * idx,
    ;
    (offset_start, (offset_end - offset_start) as u32)
}

/// `v` rounded down to a multiple of `2^align_shift`.
pub fn align_floor(v: u32, align_shift: u8) -> (r: u32)
    requires
        align_shift < 32,
    ensures
        r == v as nat / pow2(align_shift as nat) * pow2(align_shift as nat),
{
    let s: u32 = align_shift as u32;
    proof {
        vstd::bits::lemma_u32_pow2_no_overflow(s as nat);
        vstd::bits::lemma_u32_shl_is_mul(1, s);
    }
    let mask: u32 = (1u32 << s) - 1;
    let r = v & !mask;
    proof {
        let q = v >> s;
        assert(r == (v >> s) << s) by (bit_vector)
            requires
                s < 32,
                mask == (1u32 << s) - 1,
                r == v & !mask,
        ;
        vstd::bits::lemma_u32_shr_is_div(v, s);
        assert(q as nat * pow2(s as nat) <= v) by (nonlinear_arith)
            requires
                q == v as nat / pow2(s as nat),
                pow2(s as nat) > 0,
        ;
        vstd::bits::lemma_u32_shl_is_mul(q, s);
    }
    r
}

/// Where the byte `span_start` of a file that starts at `global_offset` in
/// the torrent lies: the index of its piece and its offset in that piece.
pub open spec fn spec_piece_position(global_offset: int, span_start: int, shift: nat) -> Option<
    (int, int),
> {
    let g = global_offset + span_start;
    if g < 0 || g / pow2(shift) as int > u32::MAX {
        None
    } else {
        Some((g / pow2(shift) as int, g % pow2(shift) as int))
    }
}

/// The piece index and the offset within it of the byte `span_start` of a
/// file starting at `global_offset`, for pieces of `2^piece_length_shift`
/// bytes; an index that does not fit in a `u32` is an internal error.
pub fn piece_position(global_offset: i64, span_start: i64, piece_length_shift: u8) -> (r: Option<
    (u32, i64),
>)
    requires
        piece_length_shift < 63,
        i64::MIN <= global_offset + span_start <= i64::MAX,
    ensures
        match spec_piece_position(
            global_offset as int,
            span_start as int,
            piece_length_shift as nat,
        ) {
            None => r is None,
            Some((i, o)) => r == Some((i as u32, o as i64)),
        },
{
    let g = global_offset + span_start;
    if g < 0 {
        return None;
    }
    let gu: u64 = g as u64;
    let s: u64 = piece_length_shift as u64;
    proof {
        vstd::bits::lemma_u64_shr_is_div(gu, s);
        vstd::bits::lemma_u64_pow2_no_overflow(s as nat);
        vstd::bits::lemma_u64_shl_is_mul(1, s);
        vstd::arithmetic::power2::lemma_pow2_pos(s as nat);
    }
    let idx = gu >> s;
    let piece: u64 = 1u64 << s;
    let off = gu % piece;
    assert(off < piece);
    assert(piece <= 0x4000_0000_0000_0000u64) by {
        if s < 62 {
            vstd::arithmetic::power2::lemma_pow2_strictly_increases(s as nat, 62);
        }
        vstd::arithmetic::power2::lemma2_to64_rest();
    }
    if idx > 0xffff_ffff {
        return None;
    }
    Some((idx as u32, off as i64))
}

/// How much of a fetched piece of `piece_len` bytes goes out: skip
/// `skip` bytes at its front, then send at most `to_send`.
pub fn piece_slice_bounds(piece_len: u64, skip: u64, to_send: u64) -> (r: (u64, u64))
    requires
        skip <= piece_len,
    ensures
        r.0 == skip,
        r.1 == if to_send < piece_len - skip {
            to_send
        } else {
            (piece_len - skip) as u64
        },
{
    let rest = piece_len - skip;
    if to_send < rest {
        (skip, to_send)
    } else {
        (skip, rest)
    }
}

} // verus!
