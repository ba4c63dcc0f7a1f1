//! Byte strings written the way a `b"..."` literal reads: printable ASCII as
//! it is, the first control bytes by their letter escapes, the rest in hex.

use vstd::prelude::*;

use crate::strings::{push_str, string_from_chars};

verus! {

/// A byte string shown as a byte-string literal.
#[derive(Debug, Clone, Copy)]
pub struct BinStr<'a>(pub &'a [u8]);

/// An owned byte string shown as the literal that makes it.
#[derive(Debug, Clone)]
pub struct BinStrBuf(pub Vec<u8>);

/// The letter that follows the backslash for each of the bytes 0 to 13.
pub open spec fn special_char(c: u8) -> char {
    "0123456abtnvfr"@[c as int]
}

/// The lower-case hex digit of `d`.
pub open spec fn hex_char(d: u8) -> char {
    "0123456789abcdef"@[d as int]
}

/// How the byte `c` is written.
pub open spec fn escape_byte(c: u8) -> Seq<char> {
    if c < 14 {
        seq!['\\', special_char(c)]
    } else if c < 32 || 128 <= c {
        seq!['\\', 'x', hex_char(c / 16), hex_char(c % 16)]
    } else {
        seq![c as char]
    }
}

/// How the bytes `b` are written, one after another.
pub open spec fn escape_bytes(b: Seq<u8>) -> Seq<char>
    decreases b.len(),
{
    if b.len() == 0 {
        Seq::empty()
    } else {
        escape_bytes(b.drop_last()) + escape_byte(b.last())
    }
}

/// Appends how the byte `c` is written to `out`.
fn push_escaped(out: &mut Vec<char>, c: u8)
    ensures
        final(out)@ == old(out)@ + escape_byte(c),
{
    proof {
        reveal_strlit("0123456abtnvfr");
        reveal_strlit("0123456789abcdef");
    }
    let specials: [char; 14] = ['0', '1', '2', '3', '4', '5', '6', 'a', 'b', 't', 'n', 'v', 'f', 'r'];
    let hex: [char; 16] = [
        '0', '1', '2', '3', '4', '5', '6', '7', '8', '9', 'a', 'b', 'c', 'd', 'e', 'f',
    ];
    assert(specials@ =~= "0123456abtnvfr"@);
    assert(hex@ =~= "0123456789abcdef"@);
    if c < 14 {
        out.push('\\');
        out.push(specials[c as usize]);
        assert(out@ =~= old(out)@ + escape_byte(c));
    } else if c < 32 || 128 <= c {
        out.push('\\');
        out.push('x');
        out.push(hex[(c / 16) as usize]);
        out.push(hex[(c % 16) as usize]);
        assert(out@ =~= old(out)@ + escape_byte(c));
    } else {
        out.push(c as char);
        assert(out@ =~= old(out)@ + escape_byte(c));
    }
}

/// How the bytes `b` are written as a byte-string literal.
pub open spec fn bin_str_text(b: Seq<u8>) -> Seq<char> {
    seq!['b', '"'] + escape_bytes(b) + seq!['"']
}

impl<'a> BinStr<'a> {
    /// The byte-string literal that reads as the bytes.
    pub fn to_debug_string(&self) -> (r: String)
        ensures
            r@ == bin_str_text(self.0@),
    {
        let mut v: Vec<char> = Vec::new();
        v.push('b');
        v.push('"');
        let mut i: usize = 0;
        while i < self.0.len()
            invariant
                0 <= i <= self.0@.len(),
                v@ == seq!['b', '"'] + escape_bytes(self.0@.take(i as int)),
            decreases self.0@.len() - i,
        {
            push_escaped(&mut v, self.0[i]);
            assert(self.0@.take(i + 1).drop_last() =~= self.0@.take(i as int));
            i = i + 1;
            assert(v@ =~= seq!['b', '"'] + escape_bytes(self.0@.take(i as int)));
        }
        v.push('"');
        assert(self.0@.take(self.0@.len() as int) =~= self.0@);
        assert(v@ =~= bin_str_text(self.0@));
        string_from_chars(v.as_slice())
    }
}

impl BinStrBuf {
    /// The expression that makes the bytes: the literal and `.to_vec()`.
    pub fn to_debug_string(&self) -> (r: String)
        ensures
            r@ == bin_str_text(self.0@) + ".to_vec()"@,
    {
        let s = BinStr(self.0.as_slice()).to_debug_string();
        let mut v: Vec<char> = Vec::new();
        push_str(&mut v, s.as_str());
        push_str(&mut v, ".to_vec()");
        string_from_chars(v.as_slice())
    }
}

} // verus!
