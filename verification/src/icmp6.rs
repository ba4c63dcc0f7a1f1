//! ICMPv6 socket filter values and the socket option markers that the
//! router-advertisement listener configures.

use vstd::prelude::*;

use crate::filter_bits::{clear_bit, filter_position, filter_word, word_with_pass};

verus! {

/// An ICMPv6 message type, as used by the ICMPv6 socket filter.
pub struct Icmp6FilterType(pub i32);

/// Router solicitation messages.
pub const ND_ROUTER_SOLICIT: i32 = 133;
/// Router advertisement messages.
pub const ND_ROUTER_ADVERT: i32 = 134;
/// Neighbor solicitation messages.
pub const ND_NEIGHBOR_SOLICIT: i32 = 135;
/// Neighbor advertisement messages.
pub const ND_NEIGHBOR_ADVERT: i32 = 136;
/// Redirect messages.
pub const ND_REDIRECT: i32 = 137;

/// Socket option marker: the IPv6 checksum offset.
#[derive(Clone, Copy, Debug)]
pub struct Ipv6Checksum;

/// Socket option marker: the unicast hop limit.
#[derive(Clone, Copy, Debug)]
pub struct Ipv6UnicastHops;

/// Socket option marker: the multicast hop limit.
#[derive(Clone, Copy, Debug)]
pub struct Ipv6MulticastHops;

/// Socket option marker: receive the hop limit as ancillary data.
#[derive(Clone, Copy, Debug)]
pub struct Ipv6RecvHopLimit;

/// Socket option marker: the ICMPv6 type filter.
#[derive(Clone, Copy, Debug)]
pub struct Icmp6Filter;

/// The 256-bit ICMPv6 type filter.  A set bit blocks a type.
///
/// Type `t` lives in word `t / 32`; within that word, the type's position
/// `m = t % 32` selects byte `m / 8` counted from the most significant byte,
/// and bit `m % 8` within that byte.
#[derive(Debug)]
pub struct Icmp6FilterValue(pub [u32; 8]);

impl Icmp6FilterValue {
    /// A filter that blocks every ICMPv6 type.
    pub fn block_all() -> (r: Icmp6FilterValue)
        ensures
            forall|i: int| 0 <= i < 8 ==> #[trigger] r.0[i] == 0xFFFF_FFFFu32,
    {
        Icmp6FilterValue([0xFFFF_FFFFu32; 8])
    }

    /// Lets the ICMPv6 type `type_` pass the filter; every other type keeps its state.
    pub fn set_pass(&mut self, type_: Icmp6FilterType)
        requires
            0 <= type_.0 < 256,
        ensures
            forall|i: int|
                0 <= i < 8 && i != filter_word(type_.0) ==> #[trigger] final(self).0[i]
                    == old(self).0[i],
            final(self).0[filter_word(type_.0)] == word_with_pass(
                old(self).0[filter_word(type_.0)],
                type_.0,
            ),
    {
        let Icmp6FilterType(t) = type_;
        let (idx, bit) = filter_position(t);
        let old_word: u32 = self.0[idx];
        self.0[idx] = clear_bit(old_word, bit);
    }
}

} // verus!
