//! Labels under which the controller reports mitigation events.

use vstd::prelude::*;
use crate::types::MitigationEvent;
use crate::shield::{ACTION_BAN, ACTION_DROP, PROTO_ARP_EVENT};

verus! {

/// Name of the transport protocol of an event: by IP version, TCP/UDP and
/// ICMP (IPv4) or ICMPv6 (IPv6); for frames without IP, ARP or RAW.
pub open spec fn spec_protocol_label(ip_version: u8, protocol: u8) -> Seq<char> {
    if ip_version == 4 {
        if protocol == 6 { "TCP"@ } else if protocol == 17 { "UDP"@ } else if protocol == 1 { "ICMP"@ } else { "OTHER"@ }
    } else if ip_version == 6 {
        if protocol == 6 { "TCP"@ } else if protocol == 17 { "UDP"@ } else if protocol == 58 { "ICMPv6"@ } else { "OTHER"@ }
    } else {
        if protocol == PROTO_ARP_EVENT { "ARP"@ } else { "RAW"@ }
    }
}

pub fn protocol_label(ip_version: u8, protocol: u8) -> (r: &'static str)
    ensures
        r@ == spec_protocol_label(ip_version, protocol),
{
    if ip_version == 4 {
        if protocol == 6 { "TCP" } else if protocol == 17 { "UDP" } else if protocol == 1 { "ICMP" } else { "OTHER" }
    } else if ip_version == 6 {
        if protocol == 6 { "TCP" } else if protocol == 17 { "UDP" } else if protocol == 58 { "ICMPv6" } else { "OTHER" }
    } else {
        if protocol == PROTO_ARP_EVENT { "ARP" } else { "RAW" }
    }
}

/// Name of the action of an event.
pub open spec fn spec_action_label(action: u8) -> Seq<char> {
    if action == ACTION_DROP { "DROP"@ } else if action == ACTION_BAN { "BAN"@ } else { "UNKNOWN"@ }
}

pub fn action_label(action: u8) -> (r: &'static str)
    ensures
        r@ == spec_action_label(action),
{
    if action == ACTION_DROP { "DROP" } else if action == ACTION_BAN { "BAN" } else { "UNKNOWN" }
}

/// How the source of an event is shown.
#[derive(Clone, Copy, Debug)]
pub enum EventSource {
    /// The first four address bytes, for IPv4 events.
    Ipv4([u8; 4]),
    /// All sixteen address bytes, for IPv6 events.
    Ipv6([u8; 16]),
    /// A frame without IP address to show.
    L2Frame,
}

/// The source of an event by its IP version.
pub fn event_source(e: &MitigationEvent) -> (r: EventSource)
    ensures
        e.ip_version == 4 ==> (r matches EventSource::Ipv4(a) && a@ == e.src_ip@.take(4)),
        e.ip_version == 6 ==> (r matches EventSource::Ipv6(a) && a@ == e.src_ip@),
        e.ip_version != 4 && e.ip_version != 6 ==> r is L2Frame,
{
    if e.ip_version == 4 {
        let a = [e.src_ip[0], e.src_ip[1], e.src_ip[2], e.src_ip[3]];
        assert(a@ =~= e.src_ip@.take(4));
        EventSource::Ipv4(a)
    } else if e.ip_version == 6 {
        EventSource::Ipv6(e.src_ip)
    } else {
        EventSource::L2Frame
    }
}

} // verus!
