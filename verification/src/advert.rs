//! A received router advertisement together with when and where it arrived,
//! and what it tells a host about configuring its addresses: whether DHCPv6
//! is in use, and the prefix to form addresses from with its lifetimes.

use vstd::prelude::*;

use crate::radvd::{PrefixInformation, RouterAdvertisement, RouterAdvertisementOption};

verus! {

/// The largest lifetime an advertisement can carry, in milliseconds.
pub const MAX_LIFETIME_MS: u64 = 4_294_967_295_000;

/// A router advertisement as it was received: the monotonic time of its
/// capture in milliseconds, its source and target addresses, and the index
/// of the interface it came in on.
pub struct AdvertisementWrapped {
    pub capture_instant: u64,
    pub source_address: [u8; 16],
    pub target_address: [u8; 16],
    pub interface_index: u32,
    pub advertisement: RouterAdvertisement,
}

/// The prefix information of an advertisement in the form a host uses:
/// the lifetimes in seconds.
#[derive(Debug, Clone, Copy)]
pub struct PrefixInformationCooked {
    pub prefix_length: u8,
    pub valid_lifetime: u64,
    pub preferred_lifetime: u64,
    pub prefix: [u8; 16],
}

/// Whether the flags ask hosts to take their addresses from DHCPv6.
pub open spec fn managed_flag(flags1: u8) -> bool {
    flags1 & 0x80 != 0
}

/// Whether the flags say DHCPv6 offers other configuration.
pub open spec fn supplemental_flag(flags1: u8) -> bool {
    flags1 & 0xc0 != 0
}

/// Whether option `o` carries prefix information.
pub open spec fn is_prefix_option(o: RouterAdvertisementOption) -> bool {
    o is PrefixInformation
}

/// The cooked form of prefix information `p`.
pub open spec fn cooked(p: PrefixInformation) -> PrefixInformationCooked {
    PrefixInformationCooked {
        prefix_length: p.prefix_length,
        valid_lifetime: p.valid_lifetime as u64,
        preferred_lifetime: p.preferred_lifetime as u64,
        prefix: p.prefix,
    }
}

/// The prefix information of the first option in `opts` that carries one.
pub open spec fn first_prefix(opts: Seq<RouterAdvertisementOption>) -> Option<
    PrefixInformationCooked,
>
    decreases opts.len(),
{
    if opts.len() == 0 {
        None
    } else {
        match opts[0] {
            RouterAdvertisementOption::PrefixInformation(p) => Some(cooked(p)),
            _ => first_prefix(opts.drop_first()),
        }
    }
}

/// A host that is told to take addresses from DHCPv6 also takes its other
/// configuration from there.
pub proof fn lemma_managed_implies_supplemental(flags1: u8)
    ensures
        managed_flag(flags1) ==> supplemental_flag(flags1),
{
    assert(flags1 & 0x80 != 0 ==> flags1 & 0xc0 != 0) by (bit_vector);
}

/// The first prefix information of `opts` is the cooked form of an option of
/// `opts` that carries one, with none before it; where there is none, no
/// option carries one.
pub proof fn lemma_first_prefix(opts: Seq<RouterAdvertisementOption>)
    ensures
        match first_prefix(opts) {
            Some(c) => exists|i: int|
                0 <= i < opts.len() && (#[trigger] opts[i] matches RouterAdvertisementOption::PrefixInformation(p) && c == cooked(p))
                    && (forall|j: int| 0 <= j < i ==> !is_prefix_option(#[trigger] opts[j])),
            None => forall|j: int| 0 <= j < opts.len() ==> !is_prefix_option(#[trigger] opts[j]),
        },
    decreases opts.len(),
{
    if opts.len() > 0 {
        lemma_first_prefix(opts.drop_first());
        match first_prefix(opts.drop_first()) {
            Some(c) => {
                if !is_prefix_option(opts[0]) {
                    let i = choose|i: int|
                        0 <= i < opts.drop_first().len() && (#[trigger] opts.drop_first()[i] matches RouterAdvertisementOption::PrefixInformation(p) && c == cooked(p))
                            && (forall|j: int| 0 <= j < i ==> !is_prefix_option(#[trigger] opts.drop_first()[j]));
                    assert(opts[i + 1] == opts.drop_first()[i]);
                    assert forall|j: int| 0 <= j < i + 1 implies !is_prefix_option(#[trigger] opts[j]) by {
                        if j > 0 {
                            assert(opts[j] == opts.drop_first()[j - 1]);
                        }
                    }
                }
            },
            None => {
                assert forall|j: int| 0 < j < opts.len() implies !is_prefix_option(#[trigger] opts[j]) by {
                    assert(opts[j] == opts.drop_first()[j - 1]);
                }
            },
        }
    }
}

impl AdvertisementWrapped {
    /// Whether hosts should take their addresses from DHCPv6.
    pub fn is_managed(&self) -> (r: bool)
        ensures
            r == managed_flag(self.advertisement.flags1),
    {
        self.advertisement.flags1 & 0x80 != 0
    }

    /// Whether DHCPv6 can be used to find other servers on the network, such
    /// as DNS and time servers; always so where `is_managed` holds.
    pub fn has_supplemental_configuration(&self) -> (r: bool)
        ensures
            r == supplemental_flag(self.advertisement.flags1),
    {
        self.advertisement.flags1 & 0xc0 != 0
    }

    /// Whether the advertisement suggests no DHCPv6 at all.
    pub fn slaac_only(&self) -> (r: bool)
        ensures
            r == !supplemental_flag(self.advertisement.flags1),
    {
        self.advertisement.flags1 & 0xc0 == 0
    }

    /// The first prefix information the advertisement carries.
    pub fn prefix_information(&self) -> (r: Option<PrefixInformationCooked>)
        ensures
            r == first_prefix(self.advertisement.options@),
    {
        let opts = &self.advertisement.options;
        let mut i: usize = 0;
        assert(opts@.skip(0) =~= opts@);
        while i < opts.len()
            invariant
                0 <= i <= opts@.len(),
                opts@ == self.advertisement.options@,
                first_prefix(opts@) == first_prefix(opts@.skip(i as int)),
            decreases opts@.len() - i,
        {
            assert(opts@.skip(i as int).drop_first() =~= opts@.skip(i as int + 1));
            assert(opts@.skip(i as int)[0] == opts@[i as int]);
            if let RouterAdvertisementOption::PrefixInformation(pref) = &opts[i] {
                let c = PrefixInformationCooked {
                    prefix_length: pref.prefix_length,
                    valid_lifetime: pref.valid_lifetime as u64,
                    preferred_lifetime: pref.preferred_lifetime as u64,
                    prefix: pref.prefix,
                };
                assert(c == cooked(*pref));
                return Some(c);
            }
            i = i + 1;
        }
        assert(opts@.skip(i as int) =~= Seq::<RouterAdvertisementOption>::empty());
        None
    }

    /// When the prefix stops being valid, in milliseconds: its valid
    /// lifetime after the capture; `None` where no prefix is advertised.
    pub fn valid_until(&self) -> (r: Option<u64>)
        requires
            self.capture_instant <= u64::MAX - MAX_LIFETIME_MS,
        ensures
            r == (match first_prefix(self.advertisement.options@) {
                Some(c) => Some((self.capture_instant + c.valid_lifetime * 1000) as u64),
                None => None::<u64>,
            }),
    {
        proof {
            lemma_first_prefix(self.advertisement.options@);
        }
        let cooked = self.prefix_information()?;
        Some(self.capture_instant + cooked.valid_lifetime * 1000)
    }

    /// When the prefix stops being preferred, in milliseconds: its preferred
    /// lifetime after the capture; `None` where no prefix is advertised.
    pub fn preferred_until(&self) -> (r: Option<u64>)
        requires
            self.capture_instant <= u64::MAX - MAX_LIFETIME_MS,
        ensures
            r == (match first_prefix(self.advertisement.options@) {
                Some(c) => Some((self.capture_instant + c.preferred_lifetime * 1000) as u64),
                None => None::<u64>,
            }),
    {
        proof {
            lemma_first_prefix(self.advertisement.options@);
        }
        let cooked = self.prefix_information()?;
        Some(self.capture_instant + cooked.preferred_lifetime * 1000)
    }
}

} // verus!
