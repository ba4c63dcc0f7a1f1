//! IPv6 addresses in their canonical text form (RFC 5952): lower-case hex
//! groups without leading zeros, the longest run of two or more zero groups
//! (the first of equal runs) written as `::`, and IPv4-mapped addresses as
//! `::ffff:` and a dotted quad.

use vstd::prelude::*;

use crate::proxy_model::{ipv4_text, ipv4_to_string};
use crate::strings::{push_str, string_from_chars};

verus! {

/// The lower-case hex digits of `n`, without leading zeros.
pub open spec fn hex_digits(n: nat) -> Seq<char>
    decreases n,
{
    if n < 16 {
        seq![hex_digit(n)]
    } else {
        hex_digits(n / 16).push(hex_digit(n % 16))
    }
}

/// The lower-case hex digit of `d`.
pub open spec fn hex_digit(d: nat) -> char {
    if d < 10 {
        (('0' as nat) + d) as char
    } else {
        (('a' as nat) + d - 10) as char
    }
}

/// Appends the hex digits of `n` to `out`.
fn push_hex(out: &mut Vec<char>, n: u16)
    ensures
        final(out)@ == old(out)@ + hex_digits(n as nat),
    decreases n,
{
    if n >= 16 {
        push_hex(out, n / 16);
    }
    let d: u16 = n % 16;
    let c: char = match d {
        0 => '0',
        1 => '1',
        2 => '2',
        3 => '3',
        4 => '4',
        5 => '5',
        6 => '6',
        7 => '7',
        8 => '8',
        9 => '9',
        10 => 'a',
        11 => 'b',
        12 => 'c',
        13 => 'd',
        14 => 'e',
        _ => 'f',
    };
    assert(c == hex_digit(d as nat));
    out.push(c);
    proof {
        if n >= 16 {
            assert(out@ =~= old(out)@ + hex_digits(n as nat / 16).push(c));
        } else {
            assert(out@ =~= old(out)@ + seq![c]);
        }
    }
}

/// The groups `seg[lo..hi]` in hex, separated by colons.
pub open spec fn groups_text(seg: Seq<u16>, lo: int, hi: int) -> Seq<char>
    decreases hi - lo,
{
    if hi <= lo {
        Seq::empty()
    } else if hi == lo + 1 {
        hex_digits(seg[lo] as nat)
    } else {
        groups_text(seg, lo, hi - 1) + ":"@ + hex_digits(seg[hi - 1] as nat)
    }
}

/// The longest run of zero groups in `seg[i..]`, the first of equal runs:
/// `(start, len)` of the best run so far and `(cur_start, cur_len)` of the
/// run being read.
pub open spec fn zero_run(
    seg: Seq<u16>,
    i: int,
    best_start: int,
    best_len: int,
    cur_start: int,
    cur_len: int,
) -> (int, int)
    decreases seg.len() - i,
{
    if i >= seg.len() {
        (best_start, best_len)
    } else if seg[i] == 0 {
        let cs = if cur_len == 0 {
            i
        } else {
            cur_start
        };
        let cl = cur_len + 1;
        if cl > best_len {
            zero_run(seg, i + 1, cs, cl, cs, cl)
        } else {
            zero_run(seg, i + 1, best_start, best_len, cs, cl)
        }
    } else {
        zero_run(seg, i + 1, best_start, best_len, cur_start, 0)
    }
}

/// Whether `seg` is an IPv4-mapped address, `::ffff:a.b.c.d`.
pub open spec fn is_ipv4_mapped(seg: Seq<u16>) -> bool {
    seg[0] == 0 && seg[1] == 0 && seg[2] == 0 && seg[3] == 0 && seg[4] == 0 && seg[5] == 0xffff
}

/// The canonical text of the address with groups `seg`.
pub open spec fn ipv6_text(seg: Seq<u16>) -> Seq<char> {
    if is_ipv4_mapped(seg) {
        "::ffff:"@ + ipv4_text(
            [(seg[6] / 256) as u8, (seg[6] % 256) as u8, (seg[7] / 256) as u8, (seg[7] % 256) as u8],
        )
    } else {
        let (start, len) = zero_run(seg, 0, 0, 0, 0, 0);
        if len > 1 {
            groups_text(seg, 0, start) + "::"@ + groups_text(seg, start + len, 8)
        } else {
            groups_text(seg, 0, 8)
        }
    }
}

/// Appends the groups `seg[lo..hi]` in hex, separated by colons.
fn push_groups(out: &mut Vec<char>, seg: &[u16; 8], lo: usize, hi: usize)
    requires
        lo <= hi <= 8,
    ensures
        final(out)@ == old(out)@ + groups_text(seg@, lo as int, hi as int),
{
    let mut i: usize = lo;
    while i < hi
        invariant
            lo <= i <= hi <= 8,
            out@ == old(out)@ + groups_text(seg@, lo as int, i as int),
        decreases hi - i,
    {
        if i > lo {
            push_str(out, ":");
        }
        let ghost before = out@;
        push_hex(out, seg[i]);
        i = i + 1;
        proof {
            if i == lo + 1 {
                assert(groups_text(seg@, lo as int, i as int) == hex_digits(seg@[lo as int] as nat));
            }
            assert(out@ =~= old(out)@ + groups_text(seg@, lo as int, i as int));
        }
    }
}

/// Zero-run bookkeeping stays within the groups read.
proof fn lemma_zero_run_bounds(
    seg: Seq<u16>,
    i: int,
    best_start: int,
    best_len: int,
    cur_start: int,
    cur_len: int,
)
    requires
        0 <= i <= seg.len(),
        0 <= best_len,
        0 <= best_start,
        best_start + best_len <= i,
        0 <= cur_len,
        cur_len > 0 ==> 0 <= cur_start && cur_start + cur_len == i,
    ensures
        ({
            let (s, l) = zero_run(seg, i, best_start, best_len, cur_start, cur_len);
            0 <= s && 0 <= l && s + l <= seg.len()
        }),
    decreases seg.len() - i,
{
    if i < seg.len() {
        if seg[i] == 0 {
            let cs = if cur_len == 0 {
                i
            } else {
                cur_start
            };
            let cl = cur_len + 1;
            if cl > best_len {
                lemma_zero_run_bounds(seg, i + 1, cs, cl, cs, cl);
            } else {
                lemma_zero_run_bounds(seg, i + 1, best_start, best_len, cs, cl);
            }
        } else {
            lemma_zero_run_bounds(seg, i + 1, best_start, best_len, cur_start, 0);
        }
    }
}

/// The canonical text of the IPv6 address with the groups `seg`.
pub fn ipv6_to_string(seg: [u16; 8]) -> (r: String)
    ensures
        r@ == ipv6_text(seg@),
{
    if seg[0] == 0 && seg[1] == 0 && seg[2] == 0 && seg[3] == 0 && seg[4] == 0 && seg[5] == 0xffff {
        let quad: [u8; 4] = [
            (seg[6] / 256) as u8,
            (seg[6] % 256) as u8,
            (seg[7] / 256) as u8,
            (seg[7] % 256) as u8,
        ];
        let four = ipv4_to_string(quad);
        let mut v: Vec<char> = Vec::new();
        push_str(&mut v, "::ffff:");
        push_str(&mut v, four.as_str());
        proof {
            let spec_quad = [
                (seg@[6] / 256) as u8,
                (seg@[6] % 256) as u8,
                (seg@[7] / 256) as u8,
                (seg@[7] % 256) as u8,
            ];
            assert(quad =~= spec_quad);
        }
        return string_from_chars(v.as_slice());
    }
    let mut best_start: usize = 0;
    let mut best_len: usize = 0;
    let mut cur_start: usize = 0;
    let mut cur_len: usize = 0;
    let mut i: usize = 0;
    while i < 8
        invariant
            0 <= i <= 8,
            best_start + best_len <= i,
            cur_len > 0 ==> cur_start + cur_len == i,
            cur_len <= i,
            zero_run(seg@, 0, 0, 0, 0, 0) == zero_run(
                seg@,
                i as int,
                best_start as int,
                best_len as int,
                cur_start as int,
                cur_len as int,
            ),
        decreases 8 - i,
    {
        if seg[i] == 0 {
            if cur_len == 0 {
                cur_start = i;
            }
            cur_len = cur_len + 1;
            if cur_len > best_len {
                best_start = cur_start;
                best_len = cur_len;
            }
        } else {
            cur_len = 0;
        }
        i = i + 1;
    }
    proof {
        lemma_zero_run_bounds(seg@, 0, 0, 0, 0, 0);
    }
    let mut v: Vec<char> = Vec::new();
    if best_len > 1 {
        push_groups(&mut v, &seg, 0, best_start);
        push_str(&mut v, "::");
        push_groups(&mut v, &seg, best_start + best_len, 8);
    } else {
        push_groups(&mut v, &seg, 0, 8);
    }
    assert(v@ =~= ipv6_text(seg@));
    string_from_chars(v.as_slice())
}

} // verus!
