//! Wire-format readers for the Ethernet, ARP, IPv4, IPv6, TCP and UDP
//! headers, and the classification of a whole frame.

use vstd::prelude::*;
use crate::types::{be16, read_be16, ethhdr, arphdr, iphdr, ipv6hdr, tcphdr, udphdr};

verus! {

/// Big-endian 32-bit number at `off`.
pub open spec fn be32(b: Seq<u8>, off: int) -> u32 {
    (b[off] as int * 0x100_0000 + b[off + 1] as int * 0x1_0000 + b[off + 2] as int * 0x100
        + b[off + 3] as int) as u32
}

pub fn read_be32(b: &[u8], off: usize) -> (r: u32)
    requires
        off + 4 <= b@.len(),
    ensures
        r == be32(b@, off as int),
{
    (b[off] as u32) * 0x100_0000 + (b[off + 1] as u32) * 0x1_0000 + (b[off + 2] as u32) * 0x100
        + (b[off + 3] as u32)
}

pub fn read_mac(b: &[u8], off: usize) -> (r: [u8; 6])
    requires
        off + 6 <= b@.len(),
    ensures
        r@ == b@.subrange(off as int, off + 6),
{
    let r = [b[off], b[off + 1], b[off + 2], b[off + 3], b[off + 4], b[off + 5]];
    assert(r@ =~= b@.subrange(off as int, off + 6));
    r
}


pub fn read_ipv4(b: &[u8], off: usize) -> (r: [u8; 4])
    requires
        off + 4 <= b@.len(),
    ensures
        r@ == b@.subrange(off as int, off + 4),
{
    let r = [b[off], b[off + 1], b[off + 2], b[off + 3]];
    assert(r@ =~= b@.subrange(off as int, off + 4));
    r
}

pub fn read_ipv6(b: &[u8], off: usize) -> (r: [u8; 16])
    requires
        off + 16 <= b@.len(),
    ensures
        r@ == b@.subrange(off as int, off + 16),
{
    let r = [
        b[off], b[off + 1], b[off + 2], b[off + 3], b[off + 4], b[off + 5], b[off + 6], b[off + 7],
        b[off + 8], b[off + 9], b[off + 10], b[off + 11], b[off + 12], b[off + 13], b[off + 14],
        b[off + 15],
    ];
    assert(r@ =~= b@.subrange(off as int, off + 16));
    r
}

/// Length in bytes of each header on the wire.
pub const ETH_HLEN: usize = 14;
pub const ARP_HLEN: usize = 28;
pub const IPV4_HLEN: usize = 20;
pub const IPV6_HLEN: usize = 40;
pub const TCP_HLEN: usize = 20;
pub const UDP_HLEN: usize = 8;

/// `h` is the Ethernet header stored at `off` in `b`.
pub open spec fn ethhdr_at(h: ethhdr, b: Seq<u8>, off: int) -> bool {
    &&& h.h_dest@ == b.subrange(off, off + 6)
    &&& h.h_source@ == b.subrange(off + 6, off + 12)
    &&& h.h_proto == be16(b, off + 12)
}

pub open spec fn arphdr_at(h: arphdr, b: Seq<u8>, off: int) -> bool {
    &&& h.ar_hrd == be16(b, off)
    &&& h.ar_pro == be16(b, off + 2)
    &&& h.ar_hln == b[off + 4]
    &&& h.ar_pln == b[off + 5]
    &&& h.ar_op == be16(b, off + 6)
    &&& h.ar_sha@ == b.subrange(off + 8, off + 14)
    &&& h.ar_sip@ == b.subrange(off + 14, off + 18)
    &&& h.ar_tha@ == b.subrange(off + 18, off + 24)
    &&& h.ar_tip@ == b.subrange(off + 24, off + 28)
}

pub open spec fn iphdr_at(h: iphdr, b: Seq<u8>, off: int) -> bool {
    &&& h._bitfield_1 == b[off]
    &&& h.tos == b[off + 1]
    &&& h.tot_len == be16(b, off + 2)
    &&& h.id == be16(b, off + 4)
    &&& h.frag_off == be16(b, off + 6)
    &&& h.ttl == b[off + 8]
    &&& h.protocol == b[off + 9]
    &&& h.check == be16(b, off + 10)
    &&& h.saddr == be32(b, off + 12)
    &&& h.daddr == be32(b, off + 16)
}

pub open spec fn ipv6hdr_at(h: ipv6hdr, b: Seq<u8>, off: int) -> bool {
    &&& h.version_class_flow@ == b.subrange(off, off + 4)
    &&& h.payload_len == be16(b, off + 4)
    &&& h.nexthdr == b[off + 6]
    &&& h.hop_limit == b[off + 7]
    &&& h.saddr@ == b.subrange(off + 8, off + 24)
    &&& h.daddr@ == b.subrange(off + 24, off + 40)
}

pub open spec fn tcphdr_at(h: tcphdr, b: Seq<u8>, off: int) -> bool {
    &&& h.source == be16(b, off)
    &&& h.dest == be16(b, off + 2)
    &&& h.seq == be32(b, off + 4)
    &&& h.ack_seq == be32(b, off + 8)
    &&& h._bitfield_1 == be16(b, off + 12)
    &&& h.window == be16(b, off + 14)
    &&& h.check == be16(b, off + 16)
    &&& h.urg_ptr == be16(b, off + 18)
}

pub open spec fn udphdr_at(h: udphdr, b: Seq<u8>, off: int) -> bool {
    &&& h.source == be16(b, off)
    &&& h.dest == be16(b, off + 2)
    &&& h.len == be16(b, off + 4)
    &&& h.check == be16(b, off + 6)
}

impl ethhdr {
    /// Reads the header at `off`; `None` when it does not fit in `b`.
    pub fn read(b: &[u8], off: usize) -> (r: Option<ethhdr>)
        ensures
            r is Some <==> off + ETH_HLEN <= b@.len(),
            r matches Some(h) ==> ethhdr_at(h, b@, off as int),
    {
        if off > b.len() || b.len() - off < ETH_HLEN {
            return None;
        }
        Some(ethhdr { h_dest: read_mac(b, off), h_source: read_mac(b, off + 6), h_proto: read_be16(b, off + 12) })
    }
}

impl arphdr {
    pub fn read(b: &[u8], off: usize) -> (r: Option<arphdr>)
        ensures
            r is Some <==> off + ARP_HLEN <= b@.len(),
            r matches Some(h) ==> arphdr_at(h, b@, off as int),
    {
        if off > b.len() || b.len() - off < ARP_HLEN {
            return None;
        }
        Some(arphdr {
            ar_hrd: read_be16(b, off),
            ar_pro: read_be16(b, off + 2),
            ar_hln: b[off + 4],
            ar_pln: b[off + 5],
            ar_op: read_be16(b, off + 6),
            ar_sha: read_mac(b, off + 8),
            ar_sip: read_ipv4(b, off + 14),
            ar_tha: read_mac(b, off + 18),
            ar_tip: read_ipv4(b, off + 24),
        })
    }
}

impl iphdr {
    pub fn read(b: &[u8], off: usize) -> (r: Option<iphdr>)
        ensures
            r is Some <==> off + IPV4_HLEN <= b@.len(),
            r matches Some(h) ==> iphdr_at(h, b@, off as int),
    {
        if off > b.len() || b.len() - off < IPV4_HLEN {
            return None;
        }
        Some(iphdr {
            _bitfield_1: b[off],
            tos: b[off + 1],
            tot_len: read_be16(b, off + 2),
            id: read_be16(b, off + 4),
            frag_off: read_be16(b, off + 6),
            ttl: b[off + 8],
            protocol: b[off + 9],
            check: read_be16(b, off + 10),
            saddr: read_be32(b, off + 12),
            daddr: read_be32(b, off + 16),
        })
    }
}

impl ipv6hdr {
    pub fn read(b: &[u8], off: usize) -> (r: Option<ipv6hdr>)
        ensures
            r is Some <==> off + IPV6_HLEN <= b@.len(),
            r matches Some(h) ==> ipv6hdr_at(h, b@, off as int),
    {
        if off > b.len() || b.len() - off < IPV6_HLEN {
            return None;
        }
        Some(ipv6hdr {
            version_class_flow: read_ipv4(b, off),
            payload_len: read_be16(b, off + 4),
            nexthdr: b[off + 6],
            hop_limit: b[off + 7],
            saddr: read_ipv6(b, off + 8),
            daddr: read_ipv6(b, off + 24),
        })
    }
}

impl tcphdr {
    pub fn read(b: &[u8], off: usize) -> (r: Option<tcphdr>)
        ensures
            r is Some <==> off + TCP_HLEN <= b@.len(),
            r matches Some(h) ==> tcphdr_at(h, b@, off as int),
    {
        if off > b.len() || b.len() - off < TCP_HLEN {
            return None;
        }
        Some(tcphdr {
            source: read_be16(b, off),
            dest: read_be16(b, off + 2),
            seq: read_be32(b, off + 4),
            ack_seq: read_be32(b, off + 8),
            _bitfield_1: read_be16(b, off + 12),
            window: read_be16(b, off + 14),
            check: read_be16(b, off + 16),
            urg_ptr: read_be16(b, off + 18),
        })
    }
}

impl udphdr {
    pub fn read(b: &[u8], off: usize) -> (r: Option<udphdr>)
        ensures
            r is Some <==> off + UDP_HLEN <= b@.len(),
            r matches Some(h) ==> udphdr_at(h, b@, off as int),
    {
        if off > b.len() || b.len() - off < UDP_HLEN {
            return None;
        }
        Some(udphdr {
            source: read_be16(b, off),
            dest: read_be16(b, off + 2),
            len: read_be16(b, off + 4),
            check: read_be16(b, off + 6),
        })
    }
}


/// EtherType numbers that the filter distinguishes.
pub const ETH_P_IP: u16 = 0x0800;
pub const ETH_P_ARP: u16 = 0x0806;
pub const ETH_P_IPV6: u16 = 0x86DD;

/// IP protocol numbers whose destination port is read.
pub const IPPROTO_TCP: u8 = 6;
pub const IPPROTO_UDP: u8 = 17;

/// What the filter reads above the Ethernet header.
#[allow(inconsistent_fields)]
#[derive(Clone, Copy, Debug)]
pub enum L3Info {
    /// IPv4 with a well-formed header length: source address, protocol and
    /// the TCP/UDP destination port (0 when absent or truncated).
    Ipv4 { src: [u8; 4], protocol: u8, dest_port: u16 },
    Ipv6 { src: [u8; 16], protocol: u8, dest_port: u16 },
    /// ARP: the sender protocol address.
    Arp { sender_ip: [u8; 4] },
    /// IPv4, IPv6 or ARP whose header does not fit in the frame, or an
    /// IPv4 header length below 20 bytes or beyond the frame.
    Truncated,
    /// Any other EtherType.
    Other,
}

/// The parts of a frame that drive the filter's decisions.
#[derive(Clone, Copy, Debug)]
pub struct FrameInfo {
    pub src_mac: [u8; 6],
    pub ether_type: u16,
    pub l3: L3Info,
}

/// Mathematical form of [`L3Info`].
pub enum L3Spec {
    Ipv4 { src: Seq<u8>, protocol: u8, dest_port: u16 },
    Ipv6 { src: Seq<u8>, protocol: u8, dest_port: u16 },
    Arp { sender_ip: Seq<u8> },
    Truncated,
    Other,
}

pub struct FrameSpec {
    pub src_mac: Seq<u8>,
    pub ether_type: u16,
    pub l3: L3Spec,
}

impl L3Info {
    pub open spec fn spec_of(self) -> L3Spec {
        match self {
            L3Info::Ipv4 { src, protocol, dest_port } => L3Spec::Ipv4 { src: src@, protocol, dest_port },
            L3Info::Ipv6 { src, protocol, dest_port } => L3Spec::Ipv6 { src: src@, protocol, dest_port },
            L3Info::Arp { sender_ip } => L3Spec::Arp { sender_ip: sender_ip@ },
            L3Info::Truncated => L3Spec::Truncated,
            L3Info::Other => L3Spec::Other,
        }
    }
}

impl FrameInfo {
    pub open spec fn spec_of(self) -> FrameSpec {
        FrameSpec { src_mac: self.src_mac@, ether_type: self.ether_type, l3: self.l3.spec_of() }
    }
}

/// IPv4 header length in bytes, from the IHL nibble at offset 14.
pub open spec fn ipv4_ihl(f: Seq<u8>) -> int {
    (f[14] % 16) as int * 4
}

/// Destination port of the TCP or UDP header at `off`, or 0 when the
/// protocol is neither or the header does not fit.
pub open spec fn l4_dest_port(f: Seq<u8>, off: int, protocol: u8) -> u16 {
    if protocol == IPPROTO_TCP && off + TCP_HLEN <= f.len() {
        be16(f, off + 2)
    } else if protocol == IPPROTO_UDP && off + UDP_HLEN <= f.len() {
        be16(f, off + 2)
    } else {
        0
    }
}

pub open spec fn spec_l3(f: Seq<u8>) -> L3Spec {
    let et = be16(f, 12);
    if et == ETH_P_IP {
        if f.len() < 34 || ipv4_ihl(f) < 20 || 14 + ipv4_ihl(f) > f.len() {
            L3Spec::Truncated
        } else {
            L3Spec::Ipv4 {
                src: f.subrange(26, 30),
                protocol: f[23],
                dest_port: l4_dest_port(f, 14 + ipv4_ihl(f), f[23]),
            }
        }
    } else if et == ETH_P_IPV6 {
        if f.len() < 54 {
            L3Spec::Truncated
        } else {
            L3Spec::Ipv6 { src: f.subrange(22, 38), protocol: f[20], dest_port: l4_dest_port(f, 54, f[20]) }
        }
    } else if et == ETH_P_ARP {
        if f.len() < 42 {
            L3Spec::Truncated
        } else {
            L3Spec::Arp { sender_ip: f.subrange(28, 32) }
        }
    } else {
        L3Spec::Other
    }
}

/// What the filter reads from a frame; `None` when the frame is shorter
/// than an Ethernet header.
pub open spec fn spec_classify(f: Seq<u8>) -> Option<FrameSpec> {
    if f.len() < ETH_HLEN {
        None
    } else {
        Some(FrameSpec { src_mac: f.subrange(6, 12), ether_type: be16(f, 12), l3: spec_l3(f) })
    }
}

fn dest_port_at(f: &[u8], off: usize, protocol: u8) -> (r: u16)
    requires
        off <= f@.len(),
    ensures
        r == l4_dest_port(f@, off as int, protocol),
{
    if protocol == IPPROTO_TCP {
        match tcphdr::read(f, off) {
            Some(t) => t.dest,
            None => 0,
        }
    } else if protocol == IPPROTO_UDP {
        match udphdr::read(f, off) {
            Some(u) => u.dest,
            None => 0,
        }
    } else {
        0
    }
}

/// Reads the source MAC, the EtherType and the network-layer fields of a
/// frame.
pub fn classify_frame(f: &[u8]) -> (r: Option<FrameInfo>)
    ensures
        r is Some <==> spec_classify(f@) is Some,
        r matches Some(info) ==> Some(info.spec_of()) == spec_classify(f@),
{
    let eth = match ethhdr::read(f, 0) {
        Some(h) => h,
        None => return None,
    };
    let et = eth.h_proto;
    let l3 = if et == ETH_P_IP {
        match iphdr::read(f, ETH_HLEN) {
            None => L3Info::Truncated,
            Some(ip) => {
                let ihl = (ip._bitfield_1 % 16) as usize * 4;
                if ihl < 20 || ihl > f.len() - ETH_HLEN {
                    L3Info::Truncated
                } else {
                    let src = read_ipv4(f, 26);
                    let port = dest_port_at(f, ETH_HLEN + ihl, ip.protocol);
                    L3Info::Ipv4 { src, protocol: ip.protocol, dest_port: port }
                }
            }
        }
    } else if et == ETH_P_IPV6 {
        match ipv6hdr::read(f, ETH_HLEN) {
            None => L3Info::Truncated,
            Some(ip6) => {
                let port = dest_port_at(f, ETH_HLEN + IPV6_HLEN, ip6.nexthdr);
                L3Info::Ipv6 { src: ip6.saddr, protocol: ip6.nexthdr, dest_port: port }
            }
        }
    } else if et == ETH_P_ARP {
        match arphdr::read(f, ETH_HLEN) {
            None => L3Info::Truncated,
            Some(arp) => L3Info::Arp { sender_ip: arp.ar_sip },
        }
    } else {
        L3Info::Other
    };
    let info = FrameInfo { src_mac: eth.h_source, ether_type: et, l3 };
    assert(info.spec_of().l3 == spec_l3(f@));
    Some(info)
}


/// The big-endian 16-bit number in bytes `off` and `off + 1`.
pub open spec fn wire16(f: Seq<u8>, off: int) -> int {
    f[off] as int * 256 + f[off + 1] as int
}

/// An IPv6 frame (EtherType 0x86DD, at least the 14 + 40 bytes of its two
/// headers) is read from its bytes: source MAC at 6..12, source address at
/// 22..38, next header at 20; the destination port is the big-endian word at
/// 56 when a whole TCP (20 bytes) or UDP (8 bytes) header follows, else 0.
pub proof fn law_classify_ipv6(f: Seq<u8>)
    requires
        f.len() >= 54,
        f[12] == 0x86,
        f[13] == 0xDD,
    ensures
        spec_classify(f) is Some,
        spec_classify(f).unwrap().src_mac == f.subrange(6, 12),
        spec_classify(f).unwrap().ether_type == 0x86DD,
        spec_classify(f).unwrap().l3 is Ipv6,
        spec_classify(f).unwrap().l3->Ipv6_src == f.subrange(22, 38),
        spec_classify(f).unwrap().l3->Ipv6_protocol == f[20],
        (f[20] == 6 && f.len() >= 74) || (f[20] == 17 && f.len() >= 62)
            ==> spec_classify(f).unwrap().l3->Ipv6_dest_port == wire16(f, 56),
        !((f[20] == 6 && f.len() >= 74) || (f[20] == 17 && f.len() >= 62))
            ==> spec_classify(f).unwrap().l3->Ipv6_dest_port == 0,
{
    assert(be16(f, 12) == 0x86DD);
}

/// An IPv6 frame shorter than its two headers is truncated.
pub proof fn law_classify_ipv6_short(f: Seq<u8>)
    requires
        14 <= f.len() < 54,
        f[12] == 0x86,
        f[13] == 0xDD,
    ensures
        spec_classify(f) is Some,
        spec_classify(f).unwrap().l3 is Truncated,
{
    assert(be16(f, 12) == 0x86DD);
}

/// An IPv4 frame (EtherType 0x0800) whose header length `h` (low nibble of
/// byte 14, in 32-bit words) is at least 20 bytes and fits in the frame is
/// read from its bytes: source address at 26..30, protocol at 23; the
/// destination port is the big-endian word at 14 + h + 2 when a whole TCP or
/// UDP header follows, else 0.
pub proof fn law_classify_ipv4(f: Seq<u8>)
    requires
        f.len() >= 34,
        f[12] == 0x08,
        f[13] == 0x00,
        (f[14] % 16) * 4 >= 20,
        14 + (f[14] % 16) * 4 <= f.len(),
    ensures
        ({
            let h = (f[14] % 16) * 4;
            let fr = spec_classify(f).unwrap();
            &&& spec_classify(f) is Some
            &&& fr.src_mac == f.subrange(6, 12)
            &&& fr.ether_type == 0x0800
            &&& fr.l3 is Ipv4
            &&& fr.l3->Ipv4_src == f.subrange(26, 30)
            &&& fr.l3->Ipv4_protocol == f[23]
            &&& (f[23] == 6 && 14 + h + 20 <= f.len()) || (f[23] == 17 && 14 + h + 8 <= f.len())
                ==> fr.l3->Ipv4_dest_port == wire16(f, 14 + h + 2)
            &&& !((f[23] == 6 && 14 + h + 20 <= f.len()) || (f[23] == 17 && 14 + h + 8 <= f.len()))
                ==> fr.l3->Ipv4_dest_port == 0
        }),
{
    assert(be16(f, 12) == 0x0800);
}

/// An IPv4 frame too short for its header, or with a header length below
/// 20 bytes, is truncated.
pub proof fn law_classify_ipv4_malformed(f: Seq<u8>)
    requires
        f.len() >= 14,
        f[12] == 0x08,
        f[13] == 0x00,
        f.len() < 34 || (f[14] % 16) * 4 < 20 || 14 + (f[14] % 16) * 4 > f.len(),
    ensures
        spec_classify(f) is Some,
        spec_classify(f).unwrap().l3 is Truncated,
{
    assert(be16(f, 12) == 0x0800);
}

/// An ARP frame (EtherType 0x0806) of at least 14 + 28 bytes gives the
/// sender protocol address at 28..32; a shorter one is truncated.
pub proof fn law_classify_arp(f: Seq<u8>)
    requires
        f.len() >= 14,
        f[12] == 0x08,
        f[13] == 0x06,
    ensures
        spec_classify(f) is Some,
        spec_classify(f).unwrap().src_mac == f.subrange(6, 12),
        f.len() >= 42 ==> spec_classify(f).unwrap().l3 == (L3Spec::Arp { sender_ip: f.subrange(28, 32) }),
        f.len() < 42 ==> spec_classify(f).unwrap().l3 is Truncated,
{
    assert(be16(f, 12) == 0x0806);
}

/// A frame shorter than an Ethernet header gives nothing; any other
/// EtherType than IPv4, IPv6 or ARP gives no network-layer fields.
pub proof fn law_classify_other(f: Seq<u8>)
    ensures
        f.len() < 14 <==> spec_classify(f) is None,
        f.len() >= 14 && !(f[12] == 0x08 && f[13] == 0x00) && !(f[12] == 0x86 && f[13] == 0xDD)
            && !(f[12] == 0x08 && f[13] == 0x06) ==> spec_classify(f).unwrap().l3 is Other
            && spec_classify(f).unwrap().ether_type == wire16(f, 12),
{
    if f.len() >= 14 {
        assert(0 <= wire16(f, 12) < 0x10000);
        assert(be16(f, 12) == wire16(f, 12));
        if be16(f, 12) == 0x0800 {
            assert(f[12] == 0x08 && f[13] == 0x00);
        }
        if be16(f, 12) == 0x86DD {
            assert(f[12] == 0x86 && f[13] == 0xDD);
        }
        if be16(f, 12) == 0x0806 {
            assert(f[12] == 0x08 && f[13] == 0x06);
        }
    }
}

} // verus!
