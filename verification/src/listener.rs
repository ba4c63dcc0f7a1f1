//! Accepted connections of a listener, typed by the kind of remote address
//! they carry.

use vstd::prelude::*;

use core::marker::PhantomData;

verus! {

/// The stream of connections accepted by a listener whose peers have
/// addresses of type `RemoteAddr`. It carries no data yet.
pub struct Incoming<RemoteAddr> {
    _temporary_marker: PhantomData<RemoteAddr>,
}

} // verus!
