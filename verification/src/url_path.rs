//! The path of a request URI as the webserver reads it: its non-empty
//! `/`-separated segments, each percent-decoded to UTF-8 text.

use vstd::prelude::*;
use vstd::utf8::{decode_utf8, encode_utf8, valid_utf8};

use crate::http_range::split_on;
use crate::strings::string_from_chars;
use crate::text::{chars_of, find, find_in_range, lemma_find_from_bounds};

verus! {

/// The value of the ASCII hex digit `b`.
pub open spec fn hex_digit_value(b: u8) -> Option<u8> {
    if 0x30 <= b && b <= 0x39 {
        Some((b - 0x30) as u8)
    } else if 0x41 <= b && b <= 0x46 {
        Some((b - 0x41 + 10) as u8)
    } else if 0x61 <= b && b <= 0x66 {
        Some((b - 0x61 + 10) as u8)
    } else {
        None
    }
}

/// `s` with each `%` that two hex digits follow replaced by the byte they spell.
pub open spec fn spec_percent_decode(s: Seq<u8>) -> Seq<u8>
    decreases s.len(),
{
    if s.len() == 0 {
        Seq::empty()
    } else if s[0] == 0x25 && s.len() >= 3 && hex_digit_value(s[1]) is Some && hex_digit_value(
        s[2],
    ) is Some {
        seq![(hex_digit_value(s[1]).unwrap() * 16 + hex_digit_value(s[2]).unwrap()) as u8]
            + spec_percent_decode(s.skip(3))
    } else {
        seq![s[0]] + spec_percent_decode(s.skip(1))
    }
}

/// `percent_encoding::percent_decode_str(x).decode_utf8()`: the crate's
/// source decodes each `%` followed by two hex digits into the byte they
/// spell, keeps every other byte, and reads the result as UTF-8, failing
/// where it is not.
#[verifier::external_body]
fn percent_decode_utf8(x: &str) -> (r: Option<String>)
    ensures
        r is Some <==> valid_utf8(spec_percent_decode(encode_utf8(x@))),
        r matches Some(s) ==> s@ == decode_utf8(spec_percent_decode(encode_utf8(x@))),
{
    match percent_encoding::percent_decode_str(x).decode_utf8() {
        Ok(s) => Some(s.into_owned()),
        Err(_) => None,
    }
}

/// The non-empty pieces of `parts`, in order.
pub open spec fn non_empty(parts: Seq<Seq<char>>) -> Seq<Seq<char>>
    decreases parts.len(),
{
    if parts.len() == 0 {
        Seq::empty()
    } else if parts[0].len() == 0 {
        non_empty(parts.skip(1))
    } else {
        seq![parts[0]] + non_empty(parts.skip(1))
    }
}

/// The text that the segment `seg` decodes to, if it decodes.
pub open spec fn decode_segment(seg: Seq<char>) -> Option<Seq<char>> {
    let b = spec_percent_decode(encode_utf8(seg));
    if valid_utf8(b) {
        Some(decode_utf8(b))
    } else {
        None
    }
}

/// The decoded segments, or `None` where one of them does not decode.
pub open spec fn decode_segments(segs: Seq<Seq<char>>) -> Option<Seq<Seq<char>>>
    decreases segs.len(),
{
    if segs.len() == 0 {
        Some(Seq::empty())
    } else {
        match decode_segment(segs[0]) {
            None => None,
            Some(d) => match decode_segments(segs.skip(1)) {
                None => None,
                Some(rest) => Some(seq![d] + rest),
            },
        }
    }
}

/// The segments that the request path `path` names.
pub open spec fn spec_path_segments(path: Seq<char>) -> Option<Seq<Seq<char>>> {
    decode_segments(non_empty(split_on(path, "/"@)))
}

/// The characters of each string.
pub open spec fn strings_view(v: Seq<String>) -> Seq<Seq<char>> {
    v.map_values(|s: String| s@)
}

/// The decoded non-empty segments of the request path `path`, or `None`
/// where a segment is not UTF-8 once decoded.
pub fn path_segments(path: &str) -> (r: Option<Vec<String>>)
    ensures
        match spec_path_segments(path@) {
            None => r is None,
            Some(segs) => r matches Some(v) && strings_view(v@) == segs,
        },
{
    proof {
        reveal_strlit("/");
    }
    let v = chars_of(path);
    let n = v.len();
    let slash = ['/'];
    assert(slash@ =~= "/"@);
    let mut out: Vec<String> = Vec::new();
    let mut pos: usize = 0;
    assert(v@.subrange(0, n as int) =~= path@);
    let ghost all = non_empty(split_on(path@, "/"@));
    loop
        invariant
            0 <= pos <= n,
            n == v@.len(),
            slash@ == "/"@,
            decode_segments(all) == match decode_segments(
                non_empty(split_on(v@.subrange(pos as int, n as int), "/"@)),
            ) {
                None => None,
                Some(rest) => Some(strings_view(out@) + rest),
            },
            all == non_empty(split_on(path@, "/"@)),
        decreases n - pos,
    {
        let ghost rest = v@.subrange(pos as int, n as int);
        let found = find_in_range(&v, pos, n, &slash);
        proof {
            lemma_find_from_bounds(rest, "/"@, 0);
        }
        let end: usize = match found {
            Some(k) => pos + k,
            None => n,
        };
        let ghost seg = v@.subrange(pos as int, end as int);
        let ghost parts = split_on(rest, "/"@);
        let ghost next = match found {
            Some(_) => v@.subrange(end + 1, n as int),
            None => v@.subrange(n as int, n as int),
        };
        proof {
            match found {
                Some(k) => {
                    assert(rest.take(k as int) =~= seg);
                    assert(rest.skip(k + 1) =~= next);
                    assert(parts.skip(1) =~= split_on(next, "/"@));
                },
                None => {
                    assert(rest =~= seg);
                    assert(parts.skip(1) =~= Seq::<Seq<char>>::empty());
                },
            }
            assert(parts[0] == seg);
        }
        if end > pos {
            let text = string_from_chars(&v.as_slice()[pos..end]);
            assert(text@ =~= seg);
            match percent_decode_utf8(text.as_str()) {
                None => {
                    return None;
                },
                Some(d) => {
                    let ghost before = strings_view(out@);
                    out.push(d);
                    assert(strings_view(out@) =~= before + seq![d@]);
                    proof {
                        let tail = non_empty(parts.skip(1));
                        assert(non_empty(parts) == seq![seg] + tail);
                        assert((seq![seg] + tail)[0] == seg);
                        assert((seq![seg] + tail).skip(1) =~= tail);
                        match decode_segments(tail) {
                            Some(r) => {
                                assert(before + (seq![d@] + r) =~= strings_view(out@) + r);
                            },
                            None => {},
                        }
                    }
                },
            }
        } else {
            assert(non_empty(parts) == non_empty(parts.skip(1)));
        }
        match found {
            None => {
                proof {
                    assert(split_on(next, "/"@) == seq![next]);
                    assert(next.len() == 0);
                    assert(non_empty(split_on(next, "/"@)).len() == 0) by {
                        assert(split_on(next, "/"@).skip(1) =~= Seq::<Seq<char>>::empty());
                    }
                    assert(strings_view(out@) + Seq::<Seq<char>>::empty() =~= strings_view(out@));
                }
                return Some(out);
            },
            Some(_) => {
                pos = end + 1;
            },
        }
    }
}

} // verus!
