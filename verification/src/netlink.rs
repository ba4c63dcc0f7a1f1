//! Requests and responses of the netlink route calls the network manager makes,
//! and the decisions that turn netlink attributes into interface and address records.

use std::time::Duration;

use vstd::prelude::*;

use crate::strings::{dec, push_decimal, string_from_chars};

verus! {

/// A link-layer address of up to eight bytes.
#[derive(Clone, Debug)]
pub struct HardwareAddress {
    pub data: [u8; 8],
    pub length: usize,
}

/// The largest hardware address length that is kept.
pub const HARDWARE_ADDRESS_MAX_LENGTH: usize = 8;

impl HardwareAddress {
    /// The bytes of the address.
    pub open spec fn bytes(&self) -> Seq<u8> {
        self.data@.take(self.length as int)
    }

    /// The address bytes.
    pub fn as_slice(&self) -> (r: &[u8])
        requires
            self.length <= HARDWARE_ADDRESS_MAX_LENGTH,
        ensures
            r@ == self.bytes(),
    {
        let r = &self.data.as_slice()[0..self.length];
        assert(r@ =~= self.bytes());
        r
    }

    /// The address made of the bytes `data`.
    pub fn from_slice(data: &[u8]) -> (r: HardwareAddress)
        requires
            data@.len() <= HARDWARE_ADDRESS_MAX_LENGTH,
        ensures
            r.length == data@.len(),
            r.bytes() == data@,
            forall|k: int| data@.len() <= k < 8 ==> #[trigger] r.data@[k] == 0,
    {
        let mut address = HardwareAddress::default();
        let mut k: usize = 0;
        while k < data.len()
            invariant
                data@.len() <= 8,
                0 <= k <= data@.len(),
                forall|j: int| 0 <= j < k ==> #[trigger] address.data@[j] == data@[j],
                forall|j: int| k <= j < 8 ==> #[trigger] address.data@[j] == 0,
            decreases data@.len() - k,
        {
            address.data[k] = data[k];
            k = k + 1;
        }
        address.length = data.len();
        assert(address.bytes() =~= data@);
        address
    }
}

impl Default for HardwareAddress {
    /// The empty address.
    fn default() -> (r: HardwareAddress)
        ensures
            r.length == 0,
            forall|k: int| 0 <= k < 8 ==> #[trigger] r.data@[k] == 0,
    {
        HardwareAddress { data: [0u8; 8], length: 0 }
    }
}

/// Asks for every network interface.
pub struct ListInterfaceRequest {}

impl Default for ListInterfaceRequest {
    /// The request for every interface.
    fn default() -> (r: ListInterfaceRequest) {
        ListInterfaceRequest {  }
    }
}

/// The interfaces the kernel reported.
#[derive(Debug)]
pub struct ListInterfaceResponse {
    pub interfaces: Vec<InterfaceInfo>,
}

/// One network interface.
#[derive(Clone, Debug)]
pub struct InterfaceInfo {
    pub index: u32,
    pub name: String,
    pub address: HardwareAddress,
}

/// An attribute of a link message, as far as the manager reads it.
pub enum LinkAttribute {
    IfName(String),
    Address(Vec<u8>),
    Other,
}

/// The name and address that the attributes `attrs[..k]` leave: the last of each kind wins.
pub open spec fn link_summary(attrs: Seq<LinkAttribute>, k: int) -> (Seq<char>, Seq<u8>)
    decreases k,
{
    if k <= 0 {
        (Seq::empty(), Seq::empty())
    } else {
        let prev = link_summary(attrs, k - 1);
        match attrs[k - 1] {
            LinkAttribute::IfName(n) => (n@, prev.1),
            LinkAttribute::Address(a) => (prev.0, a@),
            LinkAttribute::Other => prev,
        }
    }
}

/// The interface record that a new-link message of interface `index` describes.
pub fn interface_info_from_link(index: u32, attrs: &Vec<LinkAttribute>) -> (r: InterfaceInfo)
    requires
        forall|k: int|
            0 <= k < attrs@.len() ==> (#[trigger] attrs@[k] matches LinkAttribute::Address(a) ==> a@.len()
                <= HARDWARE_ADDRESS_MAX_LENGTH),
    ensures
        r.index == index,
        r.name@ == link_summary(attrs@, attrs@.len() as int).0,
        r.address.bytes() == link_summary(attrs@, attrs@.len() as int).1,
        r.address.length <= HARDWARE_ADDRESS_MAX_LENGTH,
{
    let mut ifname = String::new();
    let mut address = HardwareAddress::default();
    proof {
        assert(address.bytes() =~= Seq::<u8>::empty());
    }
    let mut k: usize = 0;
    while k < attrs.len()
        invariant
            0 <= k <= attrs@.len(),
            forall|j: int|
                0 <= j < attrs@.len() ==> (#[trigger] attrs@[j] matches LinkAttribute::Address(a)
                    ==> a@.len() <= HARDWARE_ADDRESS_MAX_LENGTH),
            ifname@ == link_summary(attrs@, k as int).0,
            address.bytes() == link_summary(attrs@, k as int).1,
            address.length <= HARDWARE_ADDRESS_MAX_LENGTH,
        decreases attrs@.len() - k,
    {
        match &attrs[k] {
            LinkAttribute::IfName(n) => {
                ifname = n.clone();
            },
            LinkAttribute::Address(a) => {
                address = HardwareAddress::from_slice(a.as_slice());
            },
            LinkAttribute::Other => {},
        }
        k = k + 1;
    }
    InterfaceInfo { index, name: ifname, address }
}

/// Asks to add a route; not issued by the manager yet.
#[derive(Debug)]
pub struct AddRouteRequest {
    pub source_address: Option<[u8; 16]>,
}

/// The kernel accepted a route.
#[derive(Debug)]
pub struct AddRouteResponse {}

/// Asks to bring the interface `interface_index` up.
#[derive(Debug)]
pub struct InterfaceBringUpRequest {
    pub interface_index: u32,
}

/// The interface was brought up.
#[derive(Debug)]
pub struct InterfaceBringUpResponse {}

/// Flags of a link message that brings an interface up (IFF_UP).
pub const IFF_UP: u32 = 1;
/// ARPHRD_NETROM, the link-layer type the bring-up message carries.
pub const ARPHRD_NETROM: u16 = 0;
/// AF_UNSPEC.
pub const AF_UNSPEC: u8 = 0;

/// The header fields of the link message that brings an interface up.
#[derive(Debug, Clone, Copy, PartialEq, Eq)]
pub struct LinkHeaderModel {
    pub interface_family: u8,
    pub index: u32,
    pub link_layer_type: u16,
    pub flags: u32,
    pub change_mask: u32,
}

/// The link message header that asks the kernel to bring `lreq`'s interface up.
pub fn bring_up_link_header(lreq: &InterfaceBringUpRequest) -> (r: LinkHeaderModel)
    ensures
        r == (LinkHeaderModel {
            interface_family: AF_UNSPEC,
            index: lreq.interface_index,
            link_layer_type: ARPHRD_NETROM,
            flags: IFF_UP,
            change_mask: IFF_UP,
        }),
{
    LinkHeaderModel {
        interface_family: AF_UNSPEC,
        index: lreq.interface_index,
        link_layer_type: ARPHRD_NETROM,
        flags: IFF_UP,
        change_mask: IFF_UP,
    }
}

/// A lifetime in seconds, as netlink carries it; all ones means forever.
#[derive(Debug, Copy, Clone)]
pub struct ValidityPeriod(pub u32);

/// The lifetime value that means forever.
pub const VALIDITY_PERIOD_INFINITE: u32 = 0xFFFF_FFFF;

/// A longer lifetime never becomes fewer seconds: forever becomes the most.
pub proof fn lemma_seconds_monotone(a: ValidityPeriod, b: ValidityPeriod)
    requires
        a.0 <= b.0,
    ensures
        a.seconds() <= b.seconds(),
        b.0 == VALIDITY_PERIOD_INFINITE ==> b.seconds() == u64::MAX,
{
}

/// `Duration::new(secs, 0)`, as a value determined by `secs`.
pub uninterp spec fn duration_of_secs(secs: u64) -> Duration;

/// `Duration::new` (std) with no nanoseconds: the duration of `secs` seconds.
#[verifier::external_body]
fn duration_new_secs(secs: u64) -> (r: Duration)
    ensures
        r == duration_of_secs(secs),
{
    Duration::new(secs, 0)
}

impl ValidityPeriod {
    /// Whether the lifetime is forever.
    pub fn is_infinite(&self) -> (r: bool)
        ensures
            r == (self.0 == VALIDITY_PERIOD_INFINITE),
    {
        self.0 == VALIDITY_PERIOD_INFINITE
    }

    /// The lifetime in seconds; forever becomes `u64::MAX` seconds.
    pub open spec fn seconds(&self) -> u64 {
        if self.0 == VALIDITY_PERIOD_INFINITE {
            u64::MAX
        } else {
            self.0 as u64
        }
    }

    /// The lifetime as a duration; forever becomes `u64::MAX` seconds.
    pub fn as_duration(&self) -> (r: Duration)
        ensures
            r == duration_of_secs(self.seconds()),
    {
        if self.is_infinite() {
            duration_new_secs(u64::MAX)
        } else {
            duration_new_secs(self.0 as u64)
        }
    }

    /// The lifetime as shown to people: `forever`, or the seconds followed by `s`.
    pub fn to_display_string(&self) -> (r: String)
        ensures
            r@ == if self.0 == VALIDITY_PERIOD_INFINITE {
                seq!['f', 'o', 'r', 'e', 'v', 'e', 'r']
            } else {
                dec(self.0 as nat).push('s')
            },
    {
        let mut out: Vec<char> = Vec::new();
        if self.is_infinite() {
            out.push('f');
            out.push('o');
            out.push('r');
            out.push('e');
            out.push('v');
            out.push('e');
            out.push('r');
            assert(out@ =~= seq!['f', 'o', 'r', 'e', 'v', 'e', 'r']);
        } else {
            push_decimal(&mut out, self.0 as u64);
            out.push('s');
            assert(out@ =~= dec(self.0 as nat).push('s'));
        }
        string_from_chars(out.as_slice())
    }
}

/// The kernel's `rta_cacheinfo` record of a route.
pub struct RtaCacheInfo {
    rta_clntref: u32,
    rta_lastuse: u32,
    rta_expires: u32,
    rta_error: u32,
    rta_used: u32,
    rta_id: u32,
    rta_ts: u32,
    rta_tsage: u32,
}

} // verus!
