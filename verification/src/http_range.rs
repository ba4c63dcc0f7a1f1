//! HTTP byte ranges for the content webserver: reading a `Range` header,
//! deciding the status and headers of the response, and framing the parts of
//! a `multipart/byteranges` body.

use vstd::prelude::*;

use crate::boot::starts_with;
use crate::numbers::{all_digits, lemma_dec_digits, lemma_parse_dec, parse_i64, spec_parse_i64};
use crate::strings::{dec, push_signed_decimal, push_str, signed_dec, string_from_chars};
use crate::text::{
    chars_of, find, find_in_range, lemma_find_from_bounds, lemma_find_from_first, lemma_find_from_none,
    occurs_at,
};

verus! {

/// A span of bytes of a file: `length` bytes from `start`.
#[derive(Debug, Clone, Copy, PartialEq, Eq)]
pub struct HttpRangeSpan {
    pub start: i64,
    pub length: i64,
}

impl HttpRangeSpan {
    /// The offset of the last byte of the span.
    pub fn full_closed_end(&self) -> (r: i64)
        requires
            i64::MIN <= self.start + self.length - 1 <= i64::MAX,
        ensures
            r == self.start + self.length - 1,
    {
        if self.length >= 1 {
            self.start + (self.length - 1)
        } else {
            self.start + self.length - 1
        }
    }
}

/// A range that starts at or after the end of the file, or ends before it starts.
#[derive(Debug, Clone, Copy)]
pub struct OutOfRange;

/// A request that the server does not accept.
#[derive(Debug, Clone, Copy)]
pub struct ClientError;

/// A failure of the server itself.
#[derive(Debug, Clone, Copy)]
pub struct InternalError {
    pub msg: &'static str,
}

/// Why a `Range` header is refused: a malformed header, a range outside the
/// file, or a bound that is not a number.
#[derive(Debug, Clone, Copy, PartialEq, Eq)]
pub enum RangeError {
    Client,
    OutOfRange,
    BadNumber,
}

/// What reading one part of a `Range` header gives: the span's start and
/// length, a refusal, or an arithmetic overflow (a span of more than
/// `i64::MAX` bytes).
pub enum PartOutcome {
    Span(int, int),
    Fails(RangeError),
    Overflows,
}

/// What reading a whole `Range` header gives.
pub enum RangesOutcome {
    Spans(Seq<(int, int)>),
    Fails(RangeError),
    Overflows,
}

/// The pieces of `s` between the occurrences of `pat`, as `str::split` gives them.
pub open spec fn split_on(s: Seq<char>, pat: Seq<char>) -> Seq<Seq<char>>
    decreases s.len(),
{
    if pat.len() == 0 {
        seq![s]
    } else {
        match find(s, pat) {
            None => seq![s],
            Some(i) => {
                proof {
                    lemma_find_from_bounds(s, pat, 0);
                }
                seq![s.take(i)] + split_on(s.skip(i + pat.len()), pat)
            },
        }
    }
}

/// One `start-end` or `start-` part of a header, for a file of `total` bytes.
pub open spec fn part_outcome(part: Seq<char>, total: int) -> PartOutcome {
    let dash = find(part, seq!['-']);
    let start_text = match dash {
        Some(i) => part.take(i),
        None => part,
    };
    match spec_parse_i64(start_text) {
        None => PartOutcome::Fails(RangeError::BadNumber),
        Some(start) => if start < 0 {
            PartOutcome::Fails(RangeError::Client)
        } else if total <= start {
            PartOutcome::Fails(RangeError::OutOfRange)
        } else {
            match dash {
                None => PartOutcome::Fails(RangeError::Client),
                Some(i) => {
                    let end_text = part.skip(i + 1);
                    let end = if end_text.len() == 0 {
                        Some((total - 1) as i64)
                    } else {
                        spec_parse_i64(end_text)
                    };
                    match end {
                        None => PartOutcome::Fails(RangeError::BadNumber),
                        Some(e) => if e <= start {
                            PartOutcome::Fails(RangeError::OutOfRange)
                        } else if e - start + 1 > i64::MAX {
                            PartOutcome::Overflows
                        } else {
                            PartOutcome::Span(start as int, e - start + 1)
                        },
                    }
                },
            }
        },
    }
}

/// `spans` followed by what `o` gives.
pub open spec fn prepend_spans(spans: Seq<(int, int)>, o: RangesOutcome) -> RangesOutcome {
    match o {
        RangesOutcome::Spans(r) => RangesOutcome::Spans(spans + r),
        other => other,
    }
}

/// The parts read in order; the first part that fails decides.
pub open spec fn parts_outcome(parts: Seq<Seq<char>>, total: int) -> RangesOutcome
    decreases parts.len(),
{
    if parts.len() == 0 {
        RangesOutcome::Spans(Seq::empty())
    } else {
        match part_outcome(parts[0], total) {
            PartOutcome::Fails(e) => RangesOutcome::Fails(e),
            PartOutcome::Overflows => RangesOutcome::Overflows,
            PartOutcome::Span(s, l) => prepend_spans(
                seq![(s, l)],
                parts_outcome(parts.skip(1), total),
            ),
        }
    }
}

/// Whether `c` may stand in a header value read as text: a visible ASCII
/// character, a space or a tab.
pub open spec fn is_header_text_char(c: char) -> bool {
    c == '\t' || (' ' <= c && c <= '~')
}

/// Whether every character of `value` may stand in a header value read as text.
pub open spec fn is_header_text(value: Seq<char>) -> bool {
    forall|i: int| 0 <= i < value.len() ==> is_header_text_char(#[trigger] value[i])
}

/// The spans that the header `value` asks for in a file of `total` bytes:
/// text of visible ASCII characters, `bytes=`, and then parts separated by
/// `", "`.
pub open spec fn ranges_outcome(value: Seq<char>, total: int) -> RangesOutcome {
    if !is_header_text(value) {
        RangesOutcome::Fails(RangeError::Client)
    } else {
        text_ranges_outcome(value, total)
    }
}

/// The spans that the header text `value` asks for: `bytes=` and then parts
/// separated by `", "`.
pub open spec fn text_ranges_outcome(value: Seq<char>, total: int) -> RangesOutcome {
    if !starts_with(value, "bytes="@) {
        RangesOutcome::Fails(RangeError::Client)
    } else {
        parts_outcome(split_on(value.skip(6), ", "@), total)
    }
}

/// Whether a span starts at or after 0, holds at least two bytes, and ends
/// at an offset that fits in an `i64`.
pub open spec fn span_fits(p: (int, int)) -> bool {
    0 <= p.0 && 2 <= p.1 && p.0 + p.1 - 1 <= i64::MAX
}

/// Every span that a header gives fits.
pub proof fn lemma_parts_spans_fit(parts: Seq<Seq<char>>, total: int)
    ensures
        parts_outcome(parts, total) matches RangesOutcome::Spans(s) ==> forall|k: int|
            0 <= k < s.len() ==> #[trigger] span_fits(s[k]),
    decreases parts.len(),
{
    if parts.len() > 0 {
        lemma_parts_spans_fit(parts.skip(1), total);
        match part_outcome(parts[0], total) {
            PartOutcome::Span(a, l) => {
                match parts_outcome(parts.skip(1), total) {
                    RangesOutcome::Spans(r) => {
                        let s = seq![(a, l)] + r;
                        assert forall|k: int| 0 <= k < s.len() implies #[trigger] span_fits(s[k]) by {
                            if k > 0 {
                                assert(s[k] == r[k - 1]);
                            }
                        }
                    },
                    _ => {},
                }
            },
            _ => {},
        }
    }
}

/// The start and length of each span.
pub open spec fn spans_view(spans: Seq<HttpRangeSpan>) -> Seq<(int, int)> {
    spans.map_values(|s: HttpRangeSpan| (s.start as int, s.length as int))
}

/// The integer that the characters `v[lo..hi]` spell.
fn parse_range_i64(v: &Vec<char>, lo: usize, hi: usize) -> (r: Option<i64>)
    requires
        lo <= hi <= v@.len(),
    ensures
        r == spec_parse_i64(v@.subrange(lo as int, hi as int)),
{
    let s = string_from_chars(&v.as_slice()[lo..hi]);
    assert(s@ =~= v@.subrange(lo as int, hi as int));
    parse_i64(s.as_str())
}

/// Reads the part `v[lo..hi]`.
fn read_part(v: &Vec<char>, lo: usize, hi: usize, total: i64) -> (r: Result<
    HttpRangeSpan,
    Option<RangeError>,
>)
    requires
        lo <= hi <= v@.len(),
    ensures
        match part_outcome(v@.subrange(lo as int, hi as int), total as int) {
            PartOutcome::Span(s, l) => r matches Ok(span) && span.start == s && span.length == l,
            PartOutcome::Fails(e) => r == Err::<HttpRangeSpan, Option<RangeError>>(Some(e)),
            PartOutcome::Overflows => r == Err::<HttpRangeSpan, Option<RangeError>>(None),
        },
{
    let ghost part = v@.subrange(lo as int, hi as int);
    let dash = ['-'];
    assert(dash@ =~= seq!['-']);
    let found = find_in_range(v, lo, hi, &dash);
    proof {
        lemma_find_from_bounds(part, seq!['-'], 0);
    }
    let start_hi: usize = match found {
        Some(i) => lo + i,
        None => hi,
    };
    assert(match find(part, seq!['-']) {
        Some(i) => part.take(i),
        None => part,
    } =~= v@.subrange(lo as int, start_hi as int));
    let start = match parse_range_i64(v, lo, start_hi) {
        None => {
            return Err(Some(RangeError::BadNumber));
        },
        Some(s) => s,
    };
    if start < 0 {
        return Err(Some(RangeError::Client));
    }
    if total <= start {
        return Err(Some(RangeError::OutOfRange));
    }
    let i = match found {
        None => {
            return Err(Some(RangeError::Client));
        },
        Some(i) => i,
    };
    assert(part.skip(i + 1) =~= v@.subrange(lo + i + 1, hi as int));
    let end = if lo + i + 1 == hi {
        total - 1
    } else {
        match parse_range_i64(v, lo + i + 1, hi) {
            None => {
                return Err(Some(RangeError::BadNumber));
            },
            Some(e) => e,
        }
    };
    if end <= start {
        return Err(Some(RangeError::OutOfRange));
    }
    if end - start == i64::MAX {
        return Err(None);
    }
    Ok(HttpRangeSpan { start, length: end - start + 1 })
}

/// Reads the whole header: the spans, or the refusal or overflow of the
/// first part that gives one.
fn read_ranges(value: &str, total: i64) -> (r: Result<Vec<HttpRangeSpan>, Option<RangeError>>)
    ensures
        match text_ranges_outcome(value@, total as int) {
            RangesOutcome::Spans(s) => r matches Ok(spans) && spans_view(spans@) == s,
            RangesOutcome::Fails(e) => r == Err::<Vec<HttpRangeSpan>, Option<RangeError>>(
                Some(e),
            ),
            RangesOutcome::Overflows => r == Err::<Vec<HttpRangeSpan>, Option<RangeError>>(
                None,
            ),
        },
{
    proof {
        reveal_strlit("bytes=");
        reveal_strlit(", ");
    }
    let v = chars_of(value);
    let prefix = chars_of("bytes=");
    let n = v.len();
    if n < 6 || v[0] != 'b' || v[1] != 'y' || v[2] != 't' || v[3] != 'e' || v[4] != 's' || v[5]
        != '=' {
        proof {
            if starts_with(value@, "bytes="@) {
                assert(value@.take(6)[0] == 'b');
                assert(value@.take(6)[1] == 'y');
                assert(value@.take(6)[2] == 't');
                assert(value@.take(6)[3] == 'e');
                assert(value@.take(6)[4] == 's');
                assert(value@.take(6)[5] == '=');
            }
        }
        return Err(Some(RangeError::Client));
    }
    assert(value@.take(6) =~= "bytes="@);
    let sep = [',', ' '];
    assert(sep@ =~= ", "@);
    let mut out: Vec<HttpRangeSpan> = Vec::new();
    let mut pos: usize = 6;
    assert(v@.subrange(6, n as int) =~= value@.skip(6));
    loop
        invariant
            6 <= pos <= n,
            n == v@.len(),
            v@ == value@,
            sep@ == ", "@,
            text_ranges_outcome(value@, total as int) == prepend_spans(
                spans_view(out@),
                parts_outcome(split_on(v@.subrange(pos as int, n as int), ", "@), total as int),
            ),
        decreases n - pos,
    {
        let ghost rest = v@.subrange(pos as int, n as int);
        let found = find_in_range(&v, pos, n, &sep);
        proof {
            lemma_find_from_bounds(rest, ", "@, 0);
        }
        let end: usize = match found {
            Some(k) => pos + k,
            None => n,
        };
        let ghost parts = split_on(rest, ", "@);
        proof {
            match found {
                Some(k) => {
                    assert(rest.take(k as int) =~= v@.subrange(pos as int, end as int));
                    assert(rest.skip(k + 2) =~= v@.subrange(end + 2, n as int));
                    assert(parts.skip(1) =~= split_on(v@.subrange(end + 2, n as int), ", "@));
                },
                None => {
                    assert(rest =~= v@.subrange(pos as int, end as int));
                    assert(parts.skip(1) =~= Seq::<Seq<char>>::empty());
                },
            }
            assert(parts[0] == v@.subrange(pos as int, end as int));
        }
        let span = read_part(&v, pos, end, total);
        match span {
            Err(e) => {
                return Err(e);
            },
            Ok(s) => {
                let ghost before = spans_view(out@);
                out.push(s);
                assert(spans_view(out@) =~= before + seq![(s.start as int, s.length as int)]);
                proof {
                    let tail = parts_outcome(parts.skip(1), total as int);
                    assert(parts_outcome(parts, total as int) == prepend_spans(
                        seq![(s.start as int, s.length as int)],
                        tail,
                    ));
                    match tail {
                        RangesOutcome::Spans(r) => {
                            assert(before + (seq![(s.start as int, s.length as int)] + r)
                                =~= spans_view(out@) + r);
                        },
                        _ => {},
                    }
                }
            },
        }
        match found {
            None => {
                assert(spans_view(out@) + Seq::<(int, int)>::empty() =~= spans_view(out@));
                return Ok(out);
            },
            Some(_) => {
                pos = end + 2;
            },
        }
    }
}

/// Whether every character of `value` may stand in a header value read as text.
fn header_text(value: &str) -> (r: bool)
    ensures
        r == is_header_text(value@),
{
    let v = chars_of(value);
    let mut i: usize = 0;
    while i < v.len()
        invariant
            v@ == value@,
            0 <= i <= v@.len(),
            forall|j: int| 0 <= j < i ==> is_header_text_char(#[trigger] v@[j]),
        decreases v@.len() - i,
    {
        let c = v[i];
        if !(c == '\t' || (' ' <= c && c <= '~')) {
            assert(!is_header_text_char(value@[i as int]));
            return false;
        }
        i = i + 1;
    }
    true
}

/// The `Range` header text that asks for the bytes `start` to `end` of a
/// file, or from `start` to its end where `end` is `None`.
pub open spec fn range_header_text(start: i64, end: Option<i64>) -> Seq<char> {
    "bytes="@ + dec(start as nat) + seq!['-'] + match end {
        Some(e) => dec(e as nat),
        None => Seq::empty(),
    }
}

/// The one part of a header written for `start` and `end` reads back as the
/// span from `start` to `end`, or to the file's last byte.
proof fn lemma_range_part(start: i64, end: Option<i64>, total: i64)
    requires
        0 <= start < total,
        match end {
            Some(e) => start < e && e - start + 1 <= i64::MAX,
            None => start < total - 1,
        },
    ensures
        part_outcome(
            dec(start as nat) + seq!['-'] + match end {
                Some(e) => dec(e as nat),
                None => Seq::empty(),
            },
            total as int,
        ) == PartOutcome::Span(
            start as int,
            match end {
                Some(e) => e - start + 1,
                None => total - start,
            },
        ),
{
    let ds = dec(start as nat);
    let de = match end {
        Some(e) => dec(e as nat),
        None => Seq::empty(),
    };
    let t = ds + seq!['-'] + de;
    lemma_dec_digits(start as nat);
    lemma_parse_dec(start);
    let k = ds.len() as int;
    assert(t.subrange(k, k + 1) =~= seq!['-']);
    assert forall|j: int| 0 <= j < k implies !occurs_at(t, seq!['-'], j) by {
        assert(t[j] == ds[j]);
        assert(t.subrange(j, j + 1)[0] == t[j]);
    }
    lemma_find_from_first(t, seq!['-'], 0, k);
    assert(t.take(k) =~= ds);
    assert(t.skip(k + 1) =~= de);
    match end {
        Some(e) => {
            lemma_dec_digits(e as nat);
            lemma_parse_dec(e);
        },
        None => {},
    }
}

/// A header asking for the bytes `start` to `end` (or to the end of the
/// file) of a file of `total` bytes reads as that one span: its start is
/// `start` and its last byte `end` (or the file's last byte).
pub proof fn lemma_range_header_roundtrip(start: i64, end: Option<i64>, total: i64)
    requires
        0 <= start < total,
        match end {
            Some(e) => start < e && e - start + 1 <= i64::MAX,
            None => start < total - 1,
        },
    ensures
        ranges_outcome(range_header_text(start, end), total as int) == RangesOutcome::Spans(
            seq![
                (
                    start as int,
                    match end {
                        Some(e) => e - start + 1,
                        None => total - start,
                    },
                ),
            ],
        ),
{
    reveal_strlit("bytes=");
    let ds = dec(start as nat);
    let de = match end {
        Some(e) => dec(e as nat),
        None => Seq::empty(),
    };
    let t = ds + seq!['-'] + de;
    let h = range_header_text(start, end);
    lemma_dec_digits(start as nat);
    match end {
        Some(e) => lemma_dec_digits(e as nat),
        None => {},
    }
    assert(h =~= "bytes="@ + t);
    assert forall|j: int| 0 <= j < t.len() implies (#[trigger] t[j] == '-' || ('0' <= t[j] && t[j] <= '9')) by {
        if j < ds.len() {
            assert(t[j] == ds[j]);
        } else if j > ds.len() {
            assert(t[j] == de[j - ds.len() - 1]);
        }
    }
    assert forall|i: int| 0 <= i < h.len() implies is_header_text_char(#[trigger] h[i]) by {
        if i >= 6 {
            assert(h[i] == t[i - 6]);
        }
    }
    assert(h.take(6) =~= "bytes="@);
    assert(h.skip(6) =~= t);
    assert forall|j: int| 0 <= j implies !occurs_at(t, seq![',', ' '], j) by {
        if occurs_at(t, seq![',', ' '], j) {
            assert(t.subrange(j, j + 2)[0] == t[j]);
        }
    }
    lemma_find_from_none(t, seq![',', ' '], 0);
    assert(", "@ =~= seq![',', ' ']) by {
        reveal_strlit(", ");
    }
    assert(split_on(t, ", "@) =~= seq![t]);
    lemma_range_part(start, end, total);
    assert(seq![t].skip(1) =~= Seq::<Seq<char>>::empty());
    assert(is_header_text(h));
    assert(starts_with(h, "bytes="@));
    assert(parts_outcome(seq![t].skip(1), total as int) == RangesOutcome::Spans(Seq::empty()));
    assert(seq![t][0] == t);
    assert(ranges_outcome(h, total as int) == parts_outcome(seq![t], total as int));
    assert(seq![(
        start as int,
        match end {
            Some(e) => e - start + 1,
            None => total - start,
        },
    )] + Seq::<(int, int)>::empty() =~= seq![(
        start as int,
        match end {
            Some(e) => e - start + 1,
            None => total - start,
        },
    )]);
}

/// Whether reading the header `value` overflows (a span of more than
/// `i64::MAX` bytes), where the server aborts.
pub fn range_header_overflows(value: &str, total_size: i64) -> (r: bool)
    ensures
        r == (ranges_outcome(value@, total_size as int) is Overflows),
{
    if !header_text(value) {
        return false;
    }
    match read_ranges(value, total_size) {
        Err(None) => true,
        _ => false,
    }
}

/// The spans that the `Range` header `value` asks for in a file of
/// `total_size` bytes, or why the header is refused.
pub fn get_ranges(value: &str, total_size: i64) -> (r: Result<Vec<HttpRangeSpan>, RangeError>)
    requires
        !(ranges_outcome(value@, total_size as int) is Overflows),
    ensures
        match ranges_outcome(value@, total_size as int) {
            RangesOutcome::Spans(s) => r matches Ok(spans) && spans_view(spans@) == s,
            RangesOutcome::Fails(e) => r == Err::<Vec<HttpRangeSpan>, RangeError>(e),
            RangesOutcome::Overflows => false,
        },
        r matches Ok(spans) ==> forall|k: int|
            0 <= k < spans@.len() ==> #[trigger] span_fits(spans_view(spans@)[k]),
{
    proof {
        reveal_strlit("bytes=");
        if starts_with(value@, "bytes="@) {
            lemma_parts_spans_fit(split_on(value@.skip(6), ", "@), total_size as int);
        }
    }
    if !header_text(value) {
        return Err(RangeError::Client);
    }
    match read_ranges(value, total_size) {
        Ok(spans) => Ok(spans),
        Err(Some(e)) => Err(e),
        Err(None) => Err(RangeError::Client),
    }
}

/// Refuses more than thirty spans.
pub fn http_span_check_no_overlaps(spans: &[HttpRangeSpan]) -> (r: Result<(), RangeError>)
    ensures
        r is Ok <==> spans@.len() <= 30,
        r is Err ==> r == Err::<(), RangeError>(RangeError::Client),
{
    if spans.len() > 30 {
        return Err(RangeError::Client);
    }
    Ok(())
}


/// `value` for the `Content-Range` header of the bytes `start..=end` of a file
/// of `total` bytes.
pub open spec fn content_range_text(start: int, end: int, total: int) -> Seq<char> {
    "bytes "@ + signed_dec(start) + "-"@ + signed_dec(end) + "/"@ + signed_dec(total)
}

/// Appends the signed decimal form of `n` to `out`.
fn push_int(out: &mut Vec<char>, n: i64)
    ensures
        final(out)@ == old(out)@ + signed_dec(n as int),
{
    push_signed_decimal(out, n);
}

/// The `Content-Range` value for the span `span` of a file of `total` bytes.
pub fn content_range(span: &HttpRangeSpan, total: i64) -> (r: String)
    requires
        i64::MIN <= span.start + span.length - 1 <= i64::MAX,
    ensures
        r@ == content_range_text(span.start as int, span.start + span.length - 1, total as int),
{
    let mut v: Vec<char> = Vec::new();
    push_str(&mut v, "bytes ");
    push_int(&mut v, span.start);
    push_str(&mut v, "-");
    push_int(&mut v, span.full_closed_end());
    push_str(&mut v, "/");
    push_int(&mut v, total);
    assert(v@ =~= content_range_text(span.start as int, span.start + span.length - 1, total as int));
    string_from_chars(v.as_slice())
}

/// How a file's bytes are served: the status, the spans sent in order, the
/// `Content-Range` of a single requested span, the `Content-Length` where one
/// span is sent, and whether the body is `multipart/byteranges`.
#[derive(Debug)]
pub struct ResponsePlan {
    pub status: u16,
    pub spans: Vec<HttpRangeSpan>,
    pub content_range: Option<String>,
    pub content_length: Option<i64>,
    pub multipart: bool,
}

/// Whether `p` serves the spans `s` of a file of `total` bytes as the answer
/// to a `Range` header.
pub open spec fn partial_plan(p: ResponsePlan, s: Seq<(int, int)>, total: int) -> bool {
    &&& p.status == 206
    &&& spans_view(p.spans@) == s
    &&& p.multipart == (s.len() > 1)
    &&& if s.len() == 1 {
        &&& p.content_range matches Some(cr) && cr@ == content_range_text(
            s[0].0,
            s[0].0 + s[0].1 - 1,
            total,
        )
        &&& p.content_length == Some(s[0].1 as i64)
    } else {
        p.content_range is None && p.content_length is None
    }
}

/// How a regular file of `file_length` bytes is served for a request with the
/// `Range` header `range`, if any: the whole file with status 200, or the
/// requested spans with status 206, one span as a plain body and several as a
/// multipart body; a refused header, more than thirty spans or none give an error.
pub fn plan_response(range: Option<&str>, file_length: i64) -> (r: Result<ResponsePlan, RangeError>)
    requires
        range matches Some(v) ==> !(ranges_outcome(v@, file_length as int) is Overflows),
    ensures
        match range {
            None => r matches Ok(p) && p.status == 200 && spans_view(p.spans@) == seq![
                (0int, file_length as int),
            ] && p.content_range is None && p.content_length == Some(file_length)
                && !p.multipart,
            Some(v) => match ranges_outcome(v@, file_length as int) {
                RangesOutcome::Spans(s) => if s.len() == 0 || s.len() > 30 {
                    r == Err::<ResponsePlan, RangeError>(RangeError::Client)
                } else {
                    r matches Ok(p) && partial_plan(p, s, file_length as int)
                },
                RangesOutcome::Fails(e) => r == Err::<ResponsePlan, RangeError>(e),
                RangesOutcome::Overflows => false,
            },
        },
{
    match range {
        None => {
            let mut spans: Vec<HttpRangeSpan> = Vec::new();
            spans.push(HttpRangeSpan { start: 0, length: file_length });
            assert(spans_view(spans@) =~= seq![(0int, file_length as int)]);
            Ok(ResponsePlan {
                status: 200,
                spans,
                content_range: None,
                content_length: Some(file_length),
                multipart: false,
            })
        },
        Some(v) => {
            let spans = get_ranges(v, file_length)?;
            http_span_check_no_overlaps(spans.as_slice())?;
            if spans.len() == 0 {
                return Err(RangeError::Client);
            }
            if spans.len() > 1 {
                return Ok(
                    ResponsePlan {
                        status: 206,
                        spans,
                        content_range: None,
                        content_length: None,
                        multipart: true,
                    },
                );
            }
            let one = spans[0];
            assert(spans_view(spans@)[0] == (one.start as int, one.length as int));
            proof {
                lemma_parts_spans_fit(split_on(v@.skip(6), ", "@), file_length as int);
                assert(span_fits(spans_view(spans@)[0]));
            }
            let cr = content_range(&one, file_length);
            Ok(
                ResponsePlan {
                    status: 206,
                    spans,
                    content_range: Some(cr),
                    content_length: Some(one.length),
                    multipart: false,
                },
            )
        },
    }
}

/// Whether `s` ends with `suffix`.
pub open spec fn ends_with(s: Seq<char>, suffix: Seq<char>) -> bool {
    suffix.len() <= s.len() && s.skip(s.len() - suffix.len()) == suffix
}

/// Whether `v` ends with the characters of `suffix`.
fn has_suffix(v: &Vec<char>, suffix: &str) -> (r: bool)
    ensures
        r == ends_with(v@, suffix@),
{
    let w = chars_of(suffix);
    if w.len() > v.len() {
        return false;
    }
    let off = v.len() - w.len();
    let mut i: usize = 0;
    while i < w.len()
        invariant
            w@ == suffix@,
            off + w@.len() == v@.len(),
            v@.len() <= usize::MAX,
            0 <= i <= w@.len(),
            forall|j: int| 0 <= j < i ==> v@[off + j] == w@[j],
        decreases w@.len() - i,
    {
        if v[off + i] != w[i] {
            assert(v@.skip(off as int)[i as int] != w@[i as int]);
            return false;
        }
        i = i + 1;
    }
    assert(v@.skip(off as int) =~= w@);
    true
}

/// The media type of the file at `path`, by its suffix.
pub open spec fn spec_mime_for_path(path: Seq<char>) -> Seq<char> {
    if ends_with(path, ".jpg"@) {
        "image/jpeg"@
    } else if ends_with(path, ".png"@) {
        "image/png"@
    } else if ends_with(path, ".gif"@) {
        "image/gif"@
    } else if ends_with(path, ".mp4"@) {
        "video/mp4"@
    } else if ends_with(path, ".cue"@) {
        "text/plain; charset=utf-8"@
    } else {
        "application/octet-stream"@
    }
}

/// The media type of the file at `path`.
pub fn mime_for_path(path: &str) -> (r: &'static str)
    ensures
        r@ == spec_mime_for_path(path@),
{
    let v = chars_of(path);
    if has_suffix(&v, ".jpg") {
        "image/jpeg"
    } else if has_suffix(&v, ".png") {
        "image/png"
    } else if has_suffix(&v, ".gif") {
        "image/gif"
    } else if has_suffix(&v, ".mp4") {
        "video/mp4"
    } else if has_suffix(&v, ".cue") {
        "text/plain; charset=utf-8"
    } else {
        "application/octet-stream"
    }
}

/// The `Content-Type` of a multipart body with the boundary `boundary`.
pub fn multipart_content_type(boundary: &str) -> (r: String)
    ensures
        r@ == "multipart/byteranges; boundary="@ + boundary@,
{
    let mut v: Vec<char> = Vec::new();
    push_str(&mut v, "multipart/byteranges; boundary=");
    push_str(&mut v, boundary);
    string_from_chars(v.as_slice())
}

/// The text that opens the part of a multipart body holding `span`.
pub open spec fn part_header_text(
    boundary: Seq<char>,
    first: bool,
    start: int,
    end: int,
    total: int,
    mime: Seq<char>,
) -> Seq<char> {
    (if first {
        Seq::empty()
    } else {
        "\r\n"@
    }) + "--"@ + boundary + "\r\n"@ + "Content-Range: "@ + content_range_text(start, end, total)
        + "\r\n"@ + "Content-Type: "@ + mime + "\r\n"@ + "\r\n"@
}

/// The text before the bytes of `span` in a multipart body: a line break
/// unless it is the first part, the boundary, and the part's headers.
pub fn multipart_part_header(
    boundary: &str,
    first: bool,
    span: &HttpRangeSpan,
    file_length: i64,
    mime: &str,
) -> (r: String)
    requires
        i64::MIN <= span.start + span.length - 1 <= i64::MAX,
    ensures
        r@ == part_header_text(
            boundary@,
            first,
            span.start as int,
            span.start + span.length - 1,
            file_length as int,
            mime@,
        ),
{
    let mut v: Vec<char> = Vec::new();
    if !first {
        push_str(&mut v, "\r\n");
    }
    push_str(&mut v, "--");
    push_str(&mut v, boundary);
    push_str(&mut v, "\r\n");
    push_str(&mut v, "Content-Range: ");
    let cr = content_range(span, file_length);
    push_str(&mut v, cr.as_str());
    push_str(&mut v, "\r\n");
    push_str(&mut v, "Content-Type: ");
    push_str(&mut v, mime);
    push_str(&mut v, "\r\n");
    push_str(&mut v, "\r\n");
    assert(v@ =~= part_header_text(
        boundary@,
        first,
        span.start as int,
        span.start + span.length - 1,
        file_length as int,
        mime@,
    ));
    string_from_chars(v.as_slice())
}

/// The text that closes a multipart body.
pub fn multipart_trailer(boundary: &str) -> (r: String)
    ensures
        r@ == "\r\n--"@ + boundary@ + "--\r\n"@,
{
    let mut v: Vec<char> = Vec::new();
    push_str(&mut v, "\r\n--");
    push_str(&mut v, boundary);
    push_str(&mut v, "--\r\n");
    string_from_chars(v.as_slice())
}

} // verus!
