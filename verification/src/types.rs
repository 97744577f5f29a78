//! Plain data records shared between the packet filter and its controller.

use vstd::prelude::*;

verus! {

/// XDP action code: drop the frame.
pub const XDP_DROP: u32 = 1;

/// XDP action code: hand the frame to the kernel network stack.
pub const XDP_PASS: u32 = 2;

/// IPv4 key of the longest-prefix-match allow-list: a prefix length and
/// the four address bytes in network order.
#[derive(Clone, Copy, Debug)]
pub struct LpmKey {
    pub prefixlen: u32,
    pub data: [u8; 4],
}

/// IPv6 key of the longest-prefix-match allow-list.
#[derive(Clone, Copy, Debug)]
pub struct LpmKeyV6 {
    pub prefixlen: u32,
    pub data: [u8; 16],
}

/// Run-time configuration read by the packet filter.
/// `alert_mode == 1` selects the panic limit for IP sources.
#[derive(Clone, Copy, PartialEq, Eq, Structural, Debug)]
pub struct GlobalConfig {
    pub alert_mode: u32,
    pub normal_mode_limit: u32,
    pub panic_mode_limit: u32,
    pub _padding: u32,
    pub ban_duration_sec: u64,
    pub arp_mode_limit: u32,
    pub mac_mode_limit: u32,
}

/// Global packet and drop counters.
#[derive(Clone, Copy, PartialEq, Eq, Structural, Debug)]
pub struct GlobalStats {
    pub pkt_count: u64,
    pub drop_count: u64,
}

/// Per-source rate-limit record: `tokens` counts the frames seen in the
/// current one-second window, which started at `last_ts` (nanoseconds).
#[derive(Clone, Copy, PartialEq, Eq, Structural, Debug)]
pub struct IPStats {
    pub tokens: u32,
    pub _padding: u32,
    pub last_ts: u64,
}

/// Report of a mitigation decision sent from the filter to the controller.
#[derive(Clone, Copy, Debug)]
pub struct MitigationEvent {
    pub src_ip: [u8; 16],
    pub src_mac: [u8; 6],
    pub dest_port: u16,
    pub protocol: u8,
    pub action: u8,
    pub ip_version: u8,
}

/// Ethernet header; `h_proto` holds the EtherType as a number.
#[allow(non_camel_case_types)]
#[derive(Clone, Copy, Debug)]
pub struct ethhdr {
    pub h_dest: [u8; 6],
    pub h_source: [u8; 6],
    pub h_proto: u16,
}

/// ARP header for Ethernet/IPv4; multi-byte fields hold numbers.
#[allow(non_camel_case_types)]
#[derive(Clone, Copy, Debug)]
pub struct arphdr {
    pub ar_hrd: u16,
    pub ar_pro: u16,
    pub ar_hln: u8,
    pub ar_pln: u8,
    pub ar_op: u16,
    pub ar_sha: [u8; 6],
    pub ar_sip: [u8; 4],
    pub ar_tha: [u8; 6],
    pub ar_tip: [u8; 4],
}

/// Fixed part of the IPv4 header; `_bitfield_1` is the version/IHL byte,
/// multi-byte fields hold numbers.
#[allow(non_camel_case_types)]
#[derive(Clone, Copy, PartialEq, Eq, Structural, Debug)]
pub struct iphdr {
    pub _bitfield_1: u8,
    pub tos: u8,
    pub tot_len: u16,
    pub id: u16,
    pub frag_off: u16,
    pub ttl: u8,
    pub protocol: u8,
    pub check: u16,
    pub saddr: u32,
    pub daddr: u32,
}

/// IPv6 header.
#[allow(non_camel_case_types)]
#[derive(Clone, Copy, Debug)]
pub struct ipv6hdr {
    pub version_class_flow: [u8; 4],
    pub payload_len: u16,
    pub nexthdr: u8,
    pub hop_limit: u8,
    pub saddr: [u8; 16],
    pub daddr: [u8; 16],
}

/// TCP header; `_bitfield_1` holds data offset and flags.
#[allow(non_camel_case_types)]
#[derive(Clone, Copy, PartialEq, Eq, Structural, Debug)]
pub struct tcphdr {
    pub source: u16,
    pub dest: u16,
    pub seq: u32,
    pub ack_seq: u32,
    pub _bitfield_1: u16,
    pub window: u16,
    pub check: u16,
    pub urg_ptr: u16,
}

/// UDP header.
#[allow(non_camel_case_types)]
#[derive(Clone, Copy, PartialEq, Eq, Structural, Debug)]
pub struct udphdr {
    pub source: u16,
    pub dest: u16,
    pub len: u16,
    pub check: u16,
}

/// Reads a big-endian 16-bit number at `off`.
pub open spec fn be16(b: Seq<u8>, off: int) -> u16 {
    (b[off] as int * 256 + b[off + 1] as int) as u16
}

pub fn read_be16(b: &[u8], off: usize) -> (r: u16)
    requires
        off + 2 <= b@.len(),
    ensures
        r == be16(b@, off as int),
{
    (b[off] as u16) * 256 + (b[off + 1] as u16)
}

} // verus!
