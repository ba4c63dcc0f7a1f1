//! Decoding of textual hex dumps (the output of `xxd` and of `hexdump`-style
//! tools with three-space separated columns) back into bytes.

use vstd::prelude::*;

use crate::text::{
    chars_of, find, find_in_range, is_whitespace, is_ws, lemma_find_from_bounds, lemma_find_from_some, occurs_at, trim, trim_range,
};

verus! {

/// Why a hex dump could not be decoded.
#[derive(Debug, Clone, Copy, PartialEq, Eq)]
pub enum HexdumpError {
    /// An `xxd` line has no `": "` after its offset.
    NoBodyAfterOffset,
    /// A column-separated line has no `"   "` after its offset.
    BadlyFormatted,
    /// The first line fits neither dump format.
    NoValidDecoder,
}

/// The two line formats a dump may use.
#[derive(Debug, Clone, Copy, PartialEq, Eq)]
pub enum Decoder {
    /// `00000000: 6173 6466 0a    asdf.`
    Xxd,
    /// `0000   02 01 06 00   ....`
    Other,
}

/// What decoding a dump gives: bytes, an error, or a panic of the decoder
/// (a character that is neither hex nor whitespace, or an odd digit count).
pub enum HexOutcome {
    Bytes(Seq<u8>),
    Invalid(HexdumpError),
    Panics,
}

/// The value of the hex digit `c`.
pub open spec fn spec_nybble(c: char) -> Option<u8> {
    if '0' <= c && c <= '9' {
        Some((c as int - '0' as int) as u8)
    } else if 'A' <= c && c <= 'F' {
        Some((10 + c as int - 'A' as int) as u8)
    } else if 'a' <= c && c <= 'f' {
        Some((10 + c as int - 'a' as int) as u8)
    } else {
        None
    }
}

/// The bytes that the hex digits of `b` spell, with `pending` the high
/// nybble already read; `None` where the decoder panics.
pub open spec fn decode_hex(b: Seq<char>, pending: Option<u8>) -> Option<Seq<u8>>
    decreases b.len(),
{
    if b.len() == 0 {
        if pending is None {
            Some(Seq::empty())
        } else {
            None
        }
    } else if is_ws(b[0]) {
        decode_hex(b.drop_first(), pending)
    } else {
        match spec_nybble(b[0]) {
            None => None,
            Some(n) => match pending {
                None => decode_hex(b.drop_first(), Some(n)),
                Some(h) => match decode_hex(b.drop_first(), None) {
                    None => None,
                    Some(rest) => Some(seq![(h * 16 + n) as u8].add(rest)),
                },
            },
        }
    }
}

/// The part of `s` before the first occurrence of `sep`.
pub open spec fn before(s: Seq<char>, sep: Seq<char>) -> Seq<char> {
    match find(s, sep) {
        Some(i) => s.take(i),
        None => s,
    }
}

/// The hex column of an `xxd` line: after the first `": "`, up to the first `"  "`.
pub open spec fn xxd_body(line: Seq<char>) -> Option<Seq<char>> {
    match find(line, seq![':', ' ']) {
        None => None,
        Some(i) => Some(before(line.skip(i + 2), seq![' ', ' '])),
    }
}

/// The hex column of a column-separated line: between the first and second `"   "`.
pub open spec fn other_body(line: Seq<char>) -> Option<Seq<char>> {
    match find(line, seq![' ', ' ', ' ']) {
        None => None,
        Some(i) => Some(before(line.skip(i + 3), seq![' ', ' ', ' '])),
    }
}

/// The hex column of `line` under decoder `d`, or the decoder's error.
pub open spec fn line_body(d: Decoder, line: Seq<char>) -> Result<Seq<char>, HexdumpError> {
    match d {
        Decoder::Xxd => match xxd_body(line) {
            Some(b) => Ok(b),
            None => Err(HexdumpError::NoBodyAfterOffset),
        },
        Decoder::Other => match other_body(line) {
            Some(b) => Ok(b),
            None => Err(HexdumpError::BadlyFormatted),
        },
    }
}

/// The decoder chosen by the first line; `xxd` wins where both fit.
pub open spec fn choose_decoder(first: Seq<char>) -> Result<Decoder, HexdumpError> {
    if xxd_body(first) is Some {
        Ok(Decoder::Xxd)
    } else if other_body(first) is Some {
        Ok(Decoder::Other)
    } else {
        Err(HexdumpError::NoValidDecoder)
    }
}

/// Whether `pat` occurs anywhere in `s`.
pub open spec fn contains_text(s: Seq<char>, pat: Seq<char>) -> bool {
    exists|k: int| occurs_at(s, pat, k)
}

/// The first line decides the decoder: the `xxd` one where it holds `": "`,
/// else the column one where it holds three spaces; where it holds neither,
/// no decoder fits and decoding fails.
pub proof fn lemma_decoder_choice(first: Seq<char>)
    ensures
        choose_decoder(first) == if contains_text(first, seq![':', ' ']) {
            Ok::<Decoder, HexdumpError>(Decoder::Xxd)
        } else if contains_text(first, seq![' ', ' ', ' ']) {
            Ok::<Decoder, HexdumpError>(Decoder::Other)
        } else {
            Err::<Decoder, HexdumpError>(HexdumpError::NoValidDecoder)
        },
{
    lemma_find_from_bounds(first, seq![':', ' '], 0);
    lemma_find_from_bounds(first, seq![' ', ' ', ' '], 0);
    if contains_text(first, seq![':', ' ']) {
        let k = choose|k: int| occurs_at(first, seq![':', ' '], k);
        lemma_find_from_some(first, seq![':', ' '], 0, k);
    }
    if contains_text(first, seq![' ', ' ', ' ']) {
        let k = choose|k: int| occurs_at(first, seq![' ', ' ', ' '], k);
        lemma_find_from_some(first, seq![' ', ' ', ' '], 0, k);
    }
}

/// A dump whose first line holds neither `": "` nor three spaces is refused,
/// without panicking, for want of a decoder; otherwise every line is read
/// with the decoder that the first line picks.
pub proof fn lemma_dump_decoder(input: Seq<char>)
    ensures
        ({
            let first = before(trim(input), seq!['\n']);
            &&& (!contains_text(first, seq![':', ' ']) && !contains_text(first, seq![' ', ' ', ' ']))
                ==> rhexdump_outcome(input) == HexOutcome::Invalid(HexdumpError::NoValidDecoder)
            &&& contains_text(first, seq![':', ' ']) ==> rhexdump_outcome(input) == decode_text(
                trim(input),
                Decoder::Xxd,
            )
            &&& (!contains_text(first, seq![':', ' ']) && contains_text(first, seq![' ', ' ', ' ']))
                ==> rhexdump_outcome(input) == decode_text(trim(input), Decoder::Other)
        }),
{
    lemma_decoder_choice(before(trim(input), seq!['\n']));
}

/// What one line contributes; blank lines contribute nothing.
pub open spec fn decode_one_line(d: Decoder, line: Seq<char>) -> HexOutcome {
    let l = trim(line);
    if l.len() == 0 {
        HexOutcome::Bytes(Seq::empty())
    } else {
        match line_body(d, l) {
            Err(e) => HexOutcome::Invalid(e),
            Ok(b) => match decode_hex(b, None) {
                None => HexOutcome::Panics,
                Some(bytes) => HexOutcome::Bytes(bytes),
            },
        }
    }
}

/// `head` followed by the outcome `o`.
pub open spec fn prepend(head: Seq<u8>, o: HexOutcome) -> HexOutcome {
    match o {
        HexOutcome::Bytes(b) => HexOutcome::Bytes(head.add(b)),
        other => other,
    }
}

/// Decodes the `'\n'`-separated lines of `t` in order, stopping at the first failure.
pub open spec fn decode_text(t: Seq<char>, d: Decoder) -> HexOutcome
    decreases t.len(),
{
    match find(t, seq!['\n']) {
        None => decode_one_line(d, t),
        Some(i) => {
            proof {
                lemma_find_from_bounds(t, seq!['\n'], 0);
            }
            match decode_one_line(d, t.take(i)) {
                HexOutcome::Bytes(h) => prepend(h, decode_text(t.skip(i + 1), d)),
                other => other,
            }
        },
    }
}

/// The result of decoding the dump `input`.
pub open spec fn rhexdump_outcome(input: Seq<char>) -> HexOutcome {
    let t = trim(input);
    match choose_decoder(before(t, seq!['\n'])) {
        Err(e) => HexOutcome::Invalid(e),
        Ok(d) => decode_text(t, d),
    }
}

/// The value of the hex digit `ch`, if it is one.
pub fn extract_nybble(ch: char) -> (r: Option<u8>)
    ensures
        r == spec_nybble(ch),
{
    if '0' <= ch && ch <= '9' {
        Some(((ch as u32) - ('0' as u32)) as u8)
    } else if 'A' <= ch && ch <= 'F' {
        Some((10 + (ch as u32) - ('A' as u32)) as u8)
    } else if 'a' <= ch && ch <= 'f' {
        Some((10 + (ch as u32) - ('a' as u32)) as u8)
    } else {
        None
    }
}

/// The text of `v[lo..hi]` before the separator, where it is found.
proof fn lemma_before_range(v: Seq<char>, lo: int, hi: int, sep: Seq<char>, k: Option<int>)
    requires
        0 <= lo <= hi <= v.len(),
        k == find(v.subrange(lo, hi), sep),
    ensures
        k matches Some(j) ==> 0 <= j && j + sep.len() <= hi - lo && before(v.subrange(lo, hi), sep)
            == v.subrange(lo, lo + j),
        k is None ==> before(v.subrange(lo, hi), sep) == v.subrange(lo, hi),
{
    lemma_find_from_bounds(v.subrange(lo, hi), sep, 0);
    if let Some(j) = k {
        assert(v.subrange(lo, hi).take(j) =~= v.subrange(lo, lo + j));
    }
}

/// Bounds of the part of `v[lo..hi]` before the first `sep`.
fn before_range(v: &Vec<char>, lo: usize, hi: usize, sep: &[char]) -> (r: usize)
    requires
        lo <= hi <= v.len(),
    ensures
        lo <= r <= hi,
        v@.subrange(lo as int, r as int) == before(v@.subrange(lo as int, hi as int), sep@),
{
    let k = find_in_range(v, lo, hi, sep);
    proof {
        lemma_before_range(v@, lo as int, hi as int, sep@, match k { Some(j) => Some(j as int), None => None });
    }
    match k {
        Some(j) => lo + j,
        None => hi,
    }
}

/// Locates the hex column of the `xxd` line `v[lo..hi]`.
fn xxd_decode_line(v: &Vec<char>, lo: usize, hi: usize) -> (r: Result<(usize, usize), HexdumpError>)
    requires
        lo <= hi <= v.len(),
    ensures
        match r {
            Ok((a, b)) => a <= b <= v.len() && xxd_body(v@.subrange(lo as int, hi as int)) == Some(
                v@.subrange(a as int, b as int),
            ),
            Err(e) => e == HexdumpError::NoBodyAfterOffset && xxd_body(
                v@.subrange(lo as int, hi as int),
            ) is None,
        },
{
    let ghost line = v@.subrange(lo as int, hi as int);
    let pat = [':', ' '];
    assert(pat@ =~= seq![':', ' ']);
    match find_in_range(v, lo, hi, &pat) {
        None => Err(HexdumpError::NoBodyAfterOffset),
        Some(i) => {
            proof {
                lemma_find_from_bounds(line, seq![':', ' '], 0);
            }
            let start: usize = lo + i + 2;
            let pat2 = [' ', ' '];
            assert(pat2@ =~= seq![' ', ' ']);
            let end = before_range(v, start, hi, &pat2);
            assert(line.skip(i + 2) =~= v@.subrange(start as int, hi as int));
            Ok((start, end))
        },
    }
}

/// Locates the hex column of the column-separated line `v[lo..hi]`.
fn other_decode_line(v: &Vec<char>, lo: usize, hi: usize) -> (r: Result<(usize, usize), HexdumpError>)
    requires
        lo <= hi <= v.len(),
    ensures
        match r {
            Ok((a, b)) => a <= b <= v.len() && other_body(v@.subrange(lo as int, hi as int))
                == Some(v@.subrange(a as int, b as int)),
            Err(e) => e == HexdumpError::BadlyFormatted && other_body(
                v@.subrange(lo as int, hi as int),
            ) is None,
        },
{
    let ghost line = v@.subrange(lo as int, hi as int);
    let pat = [' ', ' ', ' '];
    assert(pat@ =~= seq![' ', ' ', ' ']);
    match find_in_range(v, lo, hi, &pat) {
        None => Err(HexdumpError::BadlyFormatted),
        Some(i) => {
            proof {
                lemma_find_from_bounds(line, seq![' ', ' ', ' '], 0);
            }
            let start: usize = lo + i + 3;
            let end = before_range(v, start, hi, &pat);
            assert(line.skip(i + 3) =~= v@.subrange(start as int, hi as int));
            Ok((start, end))
        },
    }
}

/// Picks the decoder that fits the first line `v[lo..hi]`.
fn determine_decoder(v: &Vec<char>, lo: usize, hi: usize) -> (r: Result<Decoder, HexdumpError>)
    requires
        lo <= hi <= v.len(),
    ensures
        r == choose_decoder(v@.subrange(lo as int, hi as int)),
{
    let mut decoder: Option<Decoder> = None;
    if other_decode_line(v, lo, hi).is_ok() {
        decoder = Some(Decoder::Other);
    }
    if xxd_decode_line(v, lo, hi).is_ok() {
        decoder = Some(Decoder::Xxd);
    }
    match decoder {
        Some(d) => Ok(d),
        None => Err(HexdumpError::NoValidDecoder),
    }
}

/// The line separator, as a one-character pattern.
fn newline_pat() -> (r: [char; 1])
    ensures
        r@ == seq!['\n'],
{
    let r = ['\n'];
    assert(r@ =~= seq!['\n']);
    r
}

/// Appends to `out` the bytes spelled by the hex digits of `v[lo..hi]`.
fn decode_hex_range(v: &Vec<char>, lo: usize, hi: usize, out: &mut Vec<u8>)
    requires
        lo <= hi <= v.len(),
        decode_hex(v@.subrange(lo as int, hi as int), None) is Some,
    ensures
        final(out)@ == old(out)@.add(decode_hex(v@.subrange(lo as int, hi as int), None)->0),
{
    let ghost full = v@.subrange(lo as int, hi as int);
    let ghost start = out@;
    let mut pending: Option<u8> = None;
    let mut i: usize = lo;
    while i < hi
        invariant
            lo <= i <= hi <= v.len(),
            full == v@.subrange(lo as int, hi as int),
            decode_hex(v@.subrange(i as int, hi as int), pending) is Some,
            start.add(decode_hex(full, None)->0) == out@.add(
                decode_hex(v@.subrange(i as int, hi as int), pending)->0,
            ),
            pending matches Some(h) ==> h < 16,
        decreases hi - i,
    {
        let ghost rest = v@.subrange(i as int, hi as int);
        assert(rest.drop_first() =~= v@.subrange(i + 1, hi as int));
        let ch = v[i];
        if !is_whitespace(ch) {
            let n = extract_nybble(ch);
            match n {
                None => {
                    assert(false);
                },
                Some(ny) => {
                    assert(ny < 16);
                    match pending {
                        None => {
                            pending = Some(ny);
                        },
                        Some(h) => {
                            let byte: u8 = h * 16 + ny;
                            let ghost tail = decode_hex(rest.drop_first(), None)->0;
                            assert(out@.add(seq![byte].add(tail)) =~= out@.push(byte).add(tail));
                            out.push(byte);
                            pending = None;
                        },
                    }
                },
            }
        }
        i = i + 1;
    }
    assert(out@.add(Seq::<u8>::empty()) =~= out@);
}

/// Decoding text splits at its first line feed.
proof fn lemma_decode_text_step(t: Seq<char>, d: Decoder, i: int)
    requires
        find(t, seq!['\n']) == Some(i),
    ensures
        0 <= i < t.len(),
        decode_text(t, d) == match decode_one_line(d, t.take(i)) {
            HexOutcome::Bytes(h) => prepend(h, decode_text(t.skip(i + 1), d)),
            other => other,
        },
{
    lemma_find_from_bounds(t, seq!['\n'], 0);
}

/// Decodes the textual hex dump `input` into the bytes it shows.
pub fn rhexdump_impl(input: &str) -> (r: Result<Vec<u8>, HexdumpError>)
    requires
        !(rhexdump_outcome(input@) is Panics),
    ensures
        match rhexdump_outcome(input@) {
            HexOutcome::Bytes(b) => r matches Ok(v) && v@ == b,
            HexOutcome::Invalid(e) => r == Err::<Vec<u8>, HexdumpError>(e),
            HexOutcome::Panics => false,
        },
{
    let v = chars_of(input);
    let (lo, hi) = trim_range(&v, 0, v.len());
    assert(v@.subrange(0, v@.len() as int) =~= input@);
    let ghost t = v@.subrange(lo as int, hi as int);
    let nlpat = newline_pat();
    let first_end = before_range(&v, lo, hi, &nlpat);
    let decoder = match determine_decoder(&v, lo, first_end) {
        Ok(d) => d,
        Err(e) => return Err(e),
    };
    let mut dehexed: Vec<u8> = Vec::new();
    let mut pos: usize = lo;
    proof {
        assert(t == trim(input@));
        match decode_text(t, decoder) {
            HexOutcome::Bytes(x) => {
                assert(dehexed@.add(x) =~= x);
            },
            _ => {},
        }
    }
    loop
        invariant
            lo <= pos <= hi <= v.len(),
            nlpat@ == seq!['\n'],
            t == v@.subrange(lo as int, hi as int),
            rhexdump_outcome(input@) == prepend(
                dehexed@,
                decode_text(v@.subrange(pos as int, hi as int), decoder),
            ),
            !(rhexdump_outcome(input@) is Panics),
        decreases hi - pos,
    {
        let ghost rest = v@.subrange(pos as int, hi as int);
        let nl = find_in_range(&v, pos, hi, &nlpat);
        proof {
            lemma_find_from_bounds(rest, seq!['\n'], 0);
        }
        let line_end: usize = match nl {
            Some(k) => pos + k,
            None => hi,
        };
        proof {
            if let Some(k) = nl {
                lemma_decode_text_step(rest, decoder, k as int);
                assert(rest.take(k as int) =~= v@.subrange(pos as int, line_end as int));
                assert(rest.skip(k + 1) =~= v@.subrange(line_end + 1, hi as int));
            } else {
                assert(rest =~= v@.subrange(pos as int, line_end as int));
            }
        }
        let ghost line = v@.subrange(pos as int, line_end as int);
        let (a, b) = trim_range(&v, pos, line_end);
        if a < b {
            let body = match decoder {
                Decoder::Xxd => xxd_decode_line(&v, a, b),
                Decoder::Other => other_decode_line(&v, a, b),
            };
            match body {
                Err(e) => {
                    return Err(e);
                },
                Ok((ba, bb)) => {
                    let ghost before_len = dehexed@;
                    decode_hex_range(&v, ba, bb, &mut dehexed);
                    proof {
                        let h = decode_hex(v@.subrange(ba as int, bb as int), None)->0;
                        assert(dehexed@ == before_len.add(h));
                        match nl {
                            Some(k) => {
                                match decode_text(v@.subrange(line_end + 1, hi as int), decoder) {
                                    HexOutcome::Bytes(x) => {
                                        assert(before_len.add(h.add(x)) =~= dehexed@.add(x));
                                    },
                                    _ => {},
                                }
                            },
                            None => {},
                        }
                    }
                },
            }
        } else {
            proof {
                assert(trim(line).len() == 0);
                assert(dehexed@.add(Seq::<u8>::empty()) =~= dehexed@);
                if nl is Some {
                    match decode_text(v@.subrange(line_end + 1, hi as int), decoder) {
                        HexOutcome::Bytes(x) => {
                            assert(dehexed@.add(Seq::<u8>::empty().add(x)) =~= dehexed@.add(x));
                        },
                        _ => {},
                    }
                }
            }
        }
        match nl {
            None => {
                proof {
                    assert(dehexed@.add(Seq::<u8>::empty()) =~= dehexed@);
                }
                return Ok(dehexed);
            },
            Some(_) => {
                pos = line_end + 1;
            },
        }
    }
}

} // verus!
