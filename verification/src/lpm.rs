//! Longest-prefix-match allow-lists: a source address is allowed when any
//! stored prefix covers it.

use vstd::prelude::*;
use crate::types::{LpmKey, LpmKeyV6};

verus! {

/// Bit `j` of the byte string `s`, counting from the most significant bit
/// of the first byte.
pub open spec fn bit_at(s: Seq<u8>, j: int) -> u8 {
    (s[j / 8] >> ((7 - j % 8) as u8)) & 1u8
}

/// The first `prefixlen` bits of `net` and `addr` agree; a prefix longer
/// than the address never covers it.
pub open spec fn prefix_covers(prefixlen: u32, net: Seq<u8>, addr: Seq<u8>) -> bool {
    &&& net.len() == addr.len()
    &&& prefixlen <= 8 * addr.len()
    &&& forall|j: int| 0 <= j < prefixlen ==> bit_at(net, j) == bit_at(addr, j)
}

/// Some entry of the IPv4 allow-list covers `addr`.
pub open spec fn vip4_contains(list: Seq<LpmKey>, addr: Seq<u8>) -> bool {
    exists|i: int| 0 <= i < list.len() && prefix_covers(list[i].prefixlen, list[i].data@, addr)
}

/// Some entry of the IPv6 allow-list covers `addr`.
pub open spec fn vip6_contains(list: Seq<LpmKeyV6>, addr: Seq<u8>) -> bool {
    exists|i: int| 0 <= i < list.len() && prefix_covers(list[i].prefixlen, list[i].data@, addr)
}

pub fn prefix_matches(prefixlen: u32, net: &[u8], addr: &[u8]) -> (r: bool)
    requires
        addr@.len() <= 16,
    ensures
        r == prefix_covers(prefixlen, net@, addr@),
{
    if net.len() != addr.len() {
        return false;
    }
    let nbits: u32 = (addr.len() as u32) * 8;
    if prefixlen > nbits {
        return false;
    }
    let mut j: u32 = 0;
    while j < prefixlen
        invariant
            j <= prefixlen <= nbits,
            nbits == 8 * addr@.len(),
            net@.len() == addr@.len(),
            forall|k: int| 0 <= k < j ==> bit_at(net@, k) == bit_at(addr@, k),
        decreases prefixlen - j,
    {
        let idx: usize = (j / 8) as usize;
        let sh: u8 = (7 - j % 8) as u8;
        let a = (net[idx] >> sh) & 1u8;
        let b = (addr[idx] >> sh) & 1u8;
        if a != b {
            assert(bit_at(net@, j as int) != bit_at(addr@, j as int));
            return false;
        }
        j = j + 1;
    }
    true
}

/// Longest-prefix-match lookup of a full IPv4 address in the allow-list.
pub fn vip4_lookup(list: &Vec<LpmKey>, addr: &[u8; 4]) -> (r: bool)
    ensures
        r == vip4_contains(list@, addr@),
{
    let mut i: usize = 0;
    while i < list.len()
        invariant
            i <= list@.len(),
            forall|k: int| 0 <= k < i ==> !prefix_covers(list@[k].prefixlen, list@[k].data@, addr@),
        decreases list@.len() - i,
    {
        let key = list[i];
        if prefix_matches(key.prefixlen, &key.data, addr) {
            return true;
        }
        i = i + 1;
    }
    false
}

/// Longest-prefix-match lookup of a full IPv6 address in the allow-list.
pub fn vip6_lookup(list: &Vec<LpmKeyV6>, addr: &[u8; 16]) -> (r: bool)
    ensures
        r == vip6_contains(list@, addr@),
{
    let mut i: usize = 0;
    while i < list.len()
        invariant
            i <= list@.len(),
            forall|k: int| 0 <= k < i ==> !prefix_covers(list@[k].prefixlen, list@[k].data@, addr@),
        decreases list@.len() - i,
    {
        let key = list[i];
        if prefix_matches(key.prefixlen, &key.data, addr) {
            return true;
        }
        i = i + 1;
    }
    false
}

} // verus!
