//! Bytes that are either owned or borrowed, read the same way either way.

use vstd::prelude::*;
use vstd::slice::slice_to_vec;

verus! {

/// Owned or borrowed bytes.
#[derive(Debug)]
pub enum BytesCow<'a> {
    Owned(Vec<u8>),
    Borrowed(&'a [u8]),
}

impl<'a> View for BytesCow<'a> {
    type V = Seq<u8>;

    /// The bytes, whoever holds them.
    open spec fn view(&self) -> Seq<u8> {
        match self {
            BytesCow::Owned(v) => v@,
            BytesCow::Borrowed(s) => s@,
        }
    }
}

impl<'a> BytesCow<'a> {
    /// The bytes.
    pub fn as_slice(&self) -> (r: &[u8])
        ensures
            r@ == self@,
    {
        match self {
            BytesCow::Owned(v) => v.as_slice(),
            BytesCow::Borrowed(s) => s,
        }
    }

    /// The same bytes, owned.
    pub fn into_owned(self) -> (r: BytesCow<'static>)
        ensures
            r is Owned,
            r@ == self@,
    {
        match self {
            BytesCow::Owned(v) => BytesCow::Owned(v),
            BytesCow::Borrowed(s) => BytesCow::Owned(slice_to_vec(s)),
        }
    }
}

} // verus!
