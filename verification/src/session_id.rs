//! Session identifiers: KSUIDs, twenty bytes shown as twenty-seven base-62
//! characters, made and read by the `ksuid` crate.

use vstd::prelude::*;
use vstd::string::StringSliceAdditionalSpecFns;

verus! {

/// A KSUID by its twenty bytes.
#[derive(Debug, Clone, Copy, PartialEq, Eq, Hash)]
pub struct SessionId(pub [u8; 20]);

/// The bytes that `Ksuid::from_base62` reads from the text `s`, if it reads any.
pub uninterp spec fn ksuid_from_base62(s: Seq<char>) -> Option<Seq<u8>>;

/// The text that `Ksuid::to_base62` writes for the bytes `b`.
pub uninterp spec fn ksuid_to_base62(b: Seq<u8>) -> Seq<char>;

/// `ksuid::Ksuid::from_base62`: the id that the text `s` spells. The crate's
/// source refuses any text that is not 27 bytes long; what it reads from the
/// rest is named, not stated.
#[verifier::external_body]
pub(crate) fn session_id_from_base62(s: &str) -> (r: Option<SessionId>)
    ensures
        match ksuid_from_base62(s@) {
            Some(b) => r matches Some(id) && id.0@ == b,
            None => r is None,
        },
        s.spec_bytes().len() != 27 ==> r is None,
{
    match ksuid::Ksuid::from_base62(s) {
        Ok(k) => {
            let mut out = [0u8; 20];
            out.copy_from_slice(k.as_bytes());
            Some(SessionId(out))
        },
        Err(_) => None,
    }
}

/// `ksuid::Ksuid::to_base62`: the text of the id `id`. The crate's source
/// writes exactly 27 characters.
#[verifier::external_body]
pub(crate) fn session_id_to_base62(id: &SessionId) -> (r: String)
    ensures
        r@ == ksuid_to_base62(id.0@),
        r@.len() == 27,
{
    ksuid::Ksuid::from_bytes(&id.0).unwrap().to_base62()
}

/// `ksuid::Ksuid::generate`: a fresh id with the current time and a random
/// payload; nothing is promised of its bytes.
#[verifier::external_body]
pub(crate) fn generate_session_id() -> (r: SessionId) {
    let k = ksuid::Ksuid::generate();
    let mut out = [0u8; 20];
    out.copy_from_slice(k.as_bytes());
    SessionId(out)
}

/// Whether `a` and `b` are the same id.
pub fn same_id(a: &SessionId, b: &SessionId) -> (r: bool)
    ensures
        r == (*a == *b),
{
    let mut i: usize = 0;
    while i < 20
        invariant
            0 <= i <= 20,
            forall|j: int| 0 <= j < i ==> a.0@[j] == b.0@[j],
        decreases 20 - i,
    {
        if a.0[i] != b.0[i] {
            assert(a.0@[i as int] != b.0@[i as int]);
            return false;
        }
        i = i + 1;
    }
    assert(a.0 =~= b.0);
    true
}

impl SessionId {
    /// The id that the base-62 text `s` spells, if it spells one.
    pub fn from_base62(s: &str) -> (r: Option<SessionId>)
        ensures
            match ksuid_from_base62(s@) {
                Some(b) => r matches Some(id) && id.0@ == b,
                None => r is None,
            },
            s.spec_bytes().len() != 27 ==> r is None,
    {
        session_id_from_base62(s)
    }

    /// The base-62 text of the id.
    pub fn to_base62(&self) -> (r: String)
        ensures
            r@ == ksuid_to_base62(self.0@),
            r@.len() == 27,
    {
        session_id_to_base62(self)
    }

    /// A fresh id.
    pub fn generate() -> (r: SessionId) {
        generate_session_id()
    }
}

} // verus!
