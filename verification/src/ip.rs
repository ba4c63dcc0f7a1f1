//! Stateless address autoconfiguration (RFC 4862) from a 48-bit MAC address.

use vstd::prelude::*;

verus! {

/// The interface identifier byte `k` (0..8) that EUI-64 derives from the MAC `mac`:
/// the MAC's first three bytes (universal/local bit flipped), `ff fe`, then its last three.
pub open spec fn eui64_byte(mac: Seq<u8>, k: int) -> u8 {
    if k == 0 {
        mac[0] ^ 0x02
    } else if k == 1 || k == 2 {
        mac[k]
    } else if k == 3 {
        0xFF
    } else if k == 4 {
        0xFE
    } else {
        mac[k - 2]
    }
}

/// The address formed from the first 64 bits of `prefix` and the EUI-64
/// interface identifier of the MAC address `mac`.
pub fn slaac_autoconfig_mac48(mac: &[u8], prefix: &[u8; 16]) -> (r: [u8; 16])
    requires
        mac@.len() == 6,
    ensures
        forall|k: int| 0 <= k < 8 ==> #[trigger] r@[k] == prefix@[k],
        forall|k: int| 8 <= k < 16 ==> #[trigger] r@[k] == eui64_byte(mac@, k - 8),
{
    let fixed: [u8; 2] = [0xFF, 0xFE];
    let mut buf: [u8; 16] = *prefix;
    let mut idx: usize = 0;
    while idx < 8
        invariant
            mac@.len() == 6,
            fixed@ == seq![0xFFu8, 0xFEu8],
            0 <= idx <= 8,
            forall|k: int| 0 <= k < 8 ==> #[trigger] buf@[k] == prefix@[k],
            forall|k: int| 8 <= k < 8 + idx ==> #[trigger] buf@[k] == eui64_byte(mac@, k - 8),
        decreases 8 - idx,
    {
        let octet: u8 = if idx == 0 {
            mac[idx] ^ 0x02
        } else if idx == 1 || idx == 2 {
            mac[idx]
        } else if idx == 3 || idx == 4 {
            fixed[idx - 3]
        } else {
            mac[idx - 2]
        };
        buf[8 + idx] = octet;
        idx = idx + 1;
    }
    buf
}

} // verus!
