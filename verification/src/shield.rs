//! The packet filter: per-frame decisions over the allow-lists, the ban
//! lists and the per-source rate-limit tables.

use vstd::prelude::*;
use std::hash::Hash;
use vstd::std_specs::hash::obeys_key_model;
use vstd::wrapping::u64_specs;
use vstd::wrapping::u32_specs;
use crate::types::{
    GlobalConfig, GlobalStats, IPStats, LpmKey, LpmKeyV6, MitigationEvent, XDP_DROP, XDP_PASS,
};
use crate::keys::{addr_key, pack_addr};
use crate::lru::{settles, LruTable};
use crate::lpm::{vip4_contains, vip6_contains, vip4_lookup, vip6_lookup};
use crate::packet::{
    be32, read_be32, classify_frame, spec_classify, FrameInfo, FrameSpec, L3Info, L3Spec,
};

verus! {

broadcast use vstd::std_specs::hash::group_hash_axioms;

/// Length of a rate-limit window in nanoseconds.
pub const WINDOW_NS: u64 = 1_000_000_000;

/// Nanoseconds per second.
pub const NS_PER_SEC: u64 = 1_000_000_000;

/// `action` of an event that reports a new ban.
pub const ACTION_BAN: u8 = 2;

/// `action` of an event that reports a single drop.
pub const ACTION_DROP: u8 = 1;

/// `protocol` of an event that reports a ban caused by ARP traffic.
pub const PROTO_ARP_EVENT: u8 = 20;

/// Limits in force for one frame.
#[derive(Clone, Copy, PartialEq, Eq, Structural, Debug)]
pub struct Limits {
    pub ip_limit: u32,
    pub ban_duration_ns: u64,
    pub arp_limit: u32,
    pub mac_limit: u32,
}

/// The limits that a configuration selects; without a configuration,
/// 2000 frames per second per IP, 300 s bans, 50 ARP and 6000 L2 frames
/// per second per MAC.
pub open spec fn spec_limits(config: Option<GlobalConfig>) -> Limits {
    match config {
        Some(c) => Limits {
            ip_limit: if c.alert_mode == 1 { c.panic_mode_limit } else { c.normal_mode_limit },
            ban_duration_ns: u64_specs::wrapping_mul(c.ban_duration_sec, NS_PER_SEC),
            arp_limit: c.arp_mode_limit,
            mac_limit: c.mac_mode_limit,
        },
        None => Limits {
            ip_limit: 2000,
            ban_duration_ns: 300_000_000_000,
            arp_limit: 50,
            mac_limit: 6000,
        },
    }
}

pub fn effective_limits(config: Option<GlobalConfig>) -> (r: Limits)
    ensures
        r == spec_limits(config),
{
    match config {
        Some(c) => {
            let limit = if c.alert_mode == 1 { c.panic_mode_limit } else { c.normal_mode_limit };
            Limits {
                ip_limit: limit,
                ban_duration_ns: c.ban_duration_sec.wrapping_mul(NS_PER_SEC),
                arp_limit: c.arp_mode_limit,
                mac_limit: c.mac_mode_limit,
            }
        },
        None => Limits {
            ip_limit: 2000,
            ban_duration_ns: 300_000_000_000,
            arp_limit: 50,
            mac_limit: 6000,
        },
    }
}

/// The entry of `k` in `m`, if any.
pub open spec fn lookup<K, V>(m: Map<K, V>, k: K) -> Option<V> {
    if m.contains_key(k) {
        Some(m[k])
    } else {
        None
    }
}

/// `k` is banned and the ban has not expired at `now`.
pub open spec fn ban_active<K>(bl: Map<K, u64>, k: K, now: u64) -> bool {
    bl.contains_key(k) && now < bl[k]
}

/// One frame from a source in its fixed one-second window: the new record
/// and whether the count now exceeds `limit`.  A first frame or a frame
/// after the window opens a new window with a count of 1.
pub open spec fn window_step(entry: Option<IPStats>, now: u64, limit: u32) -> (IPStats, bool) {
    match entry {
        None => (IPStats { tokens: 1, _padding: 0, last_ts: now }, false),
        Some(st) => if u64_specs::wrapping_sub(now, st.last_ts) < WINDOW_NS {
            let c = u32_specs::wrapping_add(st.tokens, 1);
            (IPStats { tokens: c, ..st }, c > limit)
        } else {
            (IPStats { tokens: 1, last_ts: now, ..st }, false)
        },
    }
}

/// Mathematical form of [`MitigationEvent`].
#[verifier::ext_equal]
pub struct EventSpec {
    pub src_ip: Seq<u8>,
    pub src_mac: Seq<u8>,
    pub dest_port: u16,
    pub protocol: u8,
    pub action: u8,
    pub ip_version: u8,
}

impl MitigationEvent {
    pub open spec fn spec_of(self) -> EventSpec {
        EventSpec {
            src_ip: self.src_ip@,
            src_mac: self.src_mac@,
            dest_port: self.dest_port,
            protocol: self.protocol,
            action: self.action,
            ip_version: self.ip_version,
        }
    }
}

pub open spec fn event_spec_of(e: Option<MitigationEvent>) -> Option<EventSpec> {
    match e {
        Some(ev) => Some(ev.spec_of()),
        None => None,
    }
}

/// A four-byte address padded with zeros to sixteen bytes.
pub open spec fn pad_ipv4(a: Seq<u8>) -> Seq<u8> {
    a + Seq::new(12, |i: int| 0u8)
}

/// Capacity of the ban lists and of the IP and MAC rate-limit tables.
pub const TABLE_CAPACITY: usize = 524288;

/// Capacity of the ARP rate-limit table.
pub const ARP_TABLE_CAPACITY: usize = 1024;

/// Capacity of the MAC allow-list.
pub const VIP_MAC_CAPACITY: usize = 256;

/// The filter's tables.  Addresses of six (MAC) or sixteen (IPv6) bytes
/// are keyed by [`addr_key`], IPv4 addresses by their number.  The ban
/// lists, the rate-limit tables and the MAC allow-list are bounded: a new
/// key in a full table evicts an older entry.
pub struct ShieldMaps {
    pub vip_list: Vec<LpmKey>,
    pub vip_list_v6: Vec<LpmKeyV6>,
    pub vip_list_mac: LruTable<u128, u32>,
    pub config: Option<GlobalConfig>,
    pub stats: GlobalStats,
    pub blacklist: LruTable<u32, u64>,
    pub blacklist_v6: LruTable<u128, u64>,
    pub blacklist_mac: LruTable<u128, u64>,
    pub traffic: LruTable<u32, IPStats>,
    pub traffic_v6: LruTable<u128, IPStats>,
    pub traffic_mac: LruTable<u128, IPStats>,
    pub traffic_arp: LruTable<u128, IPStats>,
}

/// Capacities of the bounded tables.
pub struct TableCaps {
    pub vip_list_mac: nat,
    pub blacklist: nat,
    pub blacklist_v6: nat,
    pub blacklist_mac: nat,
    pub traffic: nat,
    pub traffic_v6: nat,
    pub traffic_mac: nat,
    pub traffic_arp: nat,
}

#[verifier::ext_equal]
pub struct ShieldView {
    pub vip_list: Seq<LpmKey>,
    pub vip_list_v6: Seq<LpmKeyV6>,
    pub vip_list_mac: Map<u128, u32>,
    pub config: Option<GlobalConfig>,
    pub stats: GlobalStats,
    pub blacklist: Map<u32, u64>,
    pub blacklist_v6: Map<u128, u64>,
    pub blacklist_mac: Map<u128, u64>,
    pub traffic: Map<u32, IPStats>,
    pub traffic_v6: Map<u128, IPStats>,
    pub traffic_mac: Map<u128, IPStats>,
    pub traffic_arp: Map<u128, IPStats>,
    pub caps: TableCaps,
}

impl View for ShieldMaps {
    type V = ShieldView;

    open spec fn view(&self) -> ShieldView {
        ShieldView {
            vip_list: self.vip_list@,
            vip_list_v6: self.vip_list_v6@,
            vip_list_mac: self.vip_list_mac@,
            config: self.config,
            stats: self.stats,
            blacklist: self.blacklist@,
            blacklist_v6: self.blacklist_v6@,
            blacklist_mac: self.blacklist_mac@,
            traffic: self.traffic@,
            traffic_v6: self.traffic_v6@,
            traffic_mac: self.traffic_mac@,
            traffic_arp: self.traffic_arp@,
            caps: TableCaps {
                vip_list_mac: self.vip_list_mac.capacity(),
                blacklist: self.blacklist.capacity(),
                blacklist_v6: self.blacklist_v6.capacity(),
                blacklist_mac: self.blacklist_mac.capacity(),
                traffic: self.traffic.capacity(),
                traffic_v6: self.traffic_v6.capacity(),
                traffic_mac: self.traffic_mac.capacity(),
                traffic_arp: self.traffic_arp.capacity(),
            },
        }
    }
}

impl ShieldMaps {
    /// Every bounded table is consistent.
    pub open spec fn wf(self) -> bool {
        &&& self.vip_list_mac.wf()
        &&& self.blacklist.wf()
        &&& self.blacklist_v6.wf()
        &&& self.blacklist_mac.wf()
        &&& self.traffic.wf()
        &&& self.traffic_v6.wf()
        &&& self.traffic_mac.wf()
        &&& self.traffic_arp.wf()
    }

    /// Empty tables with the filter's capacities and the given
    /// configuration.
    pub fn new(config: Option<GlobalConfig>) -> (r: ShieldMaps)
        ensures
            r.wf(),
            r@.vip_list.len() == 0,
            r@.vip_list_v6.len() == 0,
            r@.vip_list_mac == Map::<u128, u32>::empty(),
            r@.config == config,
            r@.stats == (GlobalStats { pkt_count: 0, drop_count: 0 }),
            r@.blacklist == Map::<u32, u64>::empty(),
            r@.blacklist_v6 == Map::<u128, u64>::empty(),
            r@.blacklist_mac == Map::<u128, u64>::empty(),
            r@.traffic == Map::<u32, IPStats>::empty(),
            r@.traffic_v6 == Map::<u128, IPStats>::empty(),
            r@.traffic_mac == Map::<u128, IPStats>::empty(),
            r@.traffic_arp == Map::<u128, IPStats>::empty(),
            r@.caps == (TableCaps {
                vip_list_mac: VIP_MAC_CAPACITY as nat,
                blacklist: TABLE_CAPACITY as nat,
                blacklist_v6: TABLE_CAPACITY as nat,
                blacklist_mac: TABLE_CAPACITY as nat,
                traffic: TABLE_CAPACITY as nat,
                traffic_v6: TABLE_CAPACITY as nat,
                traffic_mac: TABLE_CAPACITY as nat,
                traffic_arp: ARP_TABLE_CAPACITY as nat,
            }),
    {
        ShieldMaps {
            vip_list: Vec::new(),
            vip_list_v6: Vec::new(),
            vip_list_mac: LruTable::new(VIP_MAC_CAPACITY),
            config,
            stats: GlobalStats { pkt_count: 0, drop_count: 0 },
            blacklist: LruTable::new(TABLE_CAPACITY),
            blacklist_v6: LruTable::new(TABLE_CAPACITY),
            blacklist_mac: LruTable::new(TABLE_CAPACITY),
            traffic: LruTable::new(TABLE_CAPACITY),
            traffic_v6: LruTable::new(TABLE_CAPACITY),
            traffic_mac: LruTable::new(TABLE_CAPACITY),
            traffic_arp: LruTable::new(ARP_TABLE_CAPACITY),
        }
    }
}

/// Each bounded table holds at most its capacity.
pub open spec fn within_caps(s: ShieldView) -> bool {
    &&& s.vip_list_mac.len() <= s.caps.vip_list_mac
    &&& s.blacklist.len() <= s.caps.blacklist
    &&& s.blacklist_v6.len() <= s.caps.blacklist_v6
    &&& s.blacklist_mac.len() <= s.caps.blacklist_mac
    &&& s.traffic.len() <= s.caps.traffic
    &&& s.traffic_v6.len() <= s.caps.traffic_v6
    &&& s.traffic_mac.len() <= s.caps.traffic_mac
    &&& s.traffic_arp.len() <= s.caps.traffic_arp
    &&& s.vip_list_mac.dom().finite()
    &&& s.blacklist.dom().finite()
    &&& s.blacklist_v6.dom().finite()
    &&& s.blacklist_mac.dom().finite()
    &&& s.traffic.dom().finite()
    &&& s.traffic_v6.dom().finite()
    &&& s.traffic_mac.dom().finite()
    &&& s.traffic_arp.dom().finite()
}

/// The tables after a step whose unbounded result is `ideal`: each bounded
/// table settles (see [`settles`]) against its capacity, everything else is
/// as in `ideal`.
pub open spec fn shield_settles(old: ShieldView, ideal: ShieldView, fin: ShieldView) -> bool {
    &&& fin.vip_list == ideal.vip_list
    &&& fin.vip_list_v6 == ideal.vip_list_v6
    &&& fin.vip_list_mac == ideal.vip_list_mac
    &&& fin.config == ideal.config
    &&& fin.stats == ideal.stats
    &&& fin.caps == old.caps
    &&& settles(old.blacklist, ideal.blacklist, fin.blacklist, old.caps.blacklist)
    &&& settles(old.blacklist_v6, ideal.blacklist_v6, fin.blacklist_v6, old.caps.blacklist_v6)
    &&& settles(old.blacklist_mac, ideal.blacklist_mac, fin.blacklist_mac, old.caps.blacklist_mac)
    &&& settles(old.traffic, ideal.traffic, fin.traffic, old.caps.traffic)
    &&& settles(old.traffic_v6, ideal.traffic_v6, fin.traffic_v6, old.caps.traffic_v6)
    &&& settles(old.traffic_mac, ideal.traffic_mac, fin.traffic_mac, old.caps.traffic_mac)
    &&& settles(old.traffic_arp, ideal.traffic_arp, fin.traffic_arp, old.caps.traffic_arp)
}

/// Result of one frame: the tables afterwards, the XDP action and the
/// event reported to the controller, if any.
pub struct ShieldStep {
    pub state: ShieldView,
    pub action: u32,
    pub event: Option<EventSpec>,
}

pub open spec fn count_packet(s: GlobalStats) -> GlobalStats {
    GlobalStats { pkt_count: u64_specs::wrapping_add(s.pkt_count, 1), ..s }
}

pub open spec fn count_drop(s: GlobalStats) -> GlobalStats {
    GlobalStats { drop_count: u64_specs::wrapping_add(s.drop_count, 1), ..s }
}

pub open spec fn pass_step(s: ShieldView) -> ShieldStep {
    ShieldStep { state: s, action: XDP_PASS, event: None }
}

pub open spec fn drop_step(s: ShieldView, event: Option<EventSpec>) -> ShieldStep {
    ShieldStep { state: ShieldView { stats: count_drop(s.stats), ..s }, action: XDP_DROP, event }
}

pub open spec fn ban_event(src_ip: Seq<u8>, src_mac: Seq<u8>, dest_port: u16, protocol: u8, ip_version: u8) -> EventSpec {
    EventSpec { src_ip, src_mac, dest_port, protocol, action: ACTION_BAN, ip_version }
}

/// The network-layer stage, after the MAC stage let the frame through.
pub open spec fn l3_stage(s: ShieldView, fr: FrameSpec, lim: Limits, vip_mac: bool, now: u64) -> ShieldStep {
    let mac = addr_key(fr.src_mac);
    match fr.l3 {
        L3Spec::Ipv4 { src, protocol, dest_port } => {
            let k = be32(src, 0);
            if vip4_contains(s.vip_list, src) {
                pass_step(s)
            } else if ban_active(s.blacklist, k, now) {
                drop_step(s, None)
            } else {
                let (st, exceeded) = window_step(lookup(s.traffic, k), now, lim.ip_limit);
                let s1 = ShieldView { traffic: s.traffic.insert(k, st), ..s };
                if exceeded {
                    drop_step(
                        ShieldView { blacklist: s1.blacklist.insert(k, u64_specs::wrapping_add(now, lim.ban_duration_ns)), ..s1 },
                        Some(ban_event(pad_ipv4(src), fr.src_mac, dest_port, protocol, 4)),
                    )
                } else {
                    pass_step(s1)
                }
            }
        },
        L3Spec::Ipv6 { src, protocol, dest_port } => {
            let k = addr_key(src);
            if vip6_contains(s.vip_list_v6, src) {
                pass_step(s)
            } else if ban_active(s.blacklist_v6, k, now) {
                drop_step(s, None)
            } else {
                let (st, exceeded) = window_step(lookup(s.traffic_v6, k), now, lim.ip_limit);
                let s1 = ShieldView { traffic_v6: s.traffic_v6.insert(k, st), ..s };
                if exceeded {
                    drop_step(
                        ShieldView { blacklist_v6: s1.blacklist_v6.insert(k, u64_specs::wrapping_add(now, lim.ban_duration_ns)), ..s1 },
                        Some(ban_event(src, fr.src_mac, dest_port, protocol, 6)),
                    )
                } else {
                    pass_step(s1)
                }
            }
        },
        L3Spec::Arp { sender_ip } => {
            if vip_mac {
                pass_step(s)
            } else {
                let (st, exceeded) = window_step(lookup(s.traffic_arp, mac), now, lim.arp_limit);
                let s1 = ShieldView { traffic_arp: s.traffic_arp.insert(mac, st), ..s };
                if exceeded {
                    drop_step(
                        ShieldView { blacklist_mac: s1.blacklist_mac.insert(mac, u64_specs::wrapping_add(now, lim.ban_duration_ns)), ..s1 },
                        Some(ban_event(pad_ipv4(sender_ip), fr.src_mac, 0, PROTO_ARP_EVENT, 0)),
                    )
                } else {
                    pass_step(s1)
                }
            }
        },
        L3Spec::Truncated => pass_step(s),
        L3Spec::Other => pass_step(s),
    }
}

/// What the filter does with frame `f` arriving at `now` (nanoseconds).
pub open spec fn spec_apex_shield(s: ShieldView, f: Seq<u8>, now: u64) -> ShieldStep {
    let s0 = ShieldView { stats: count_packet(s.stats), ..s };
    match spec_classify(f) {
        None => pass_step(s0),
        Some(fr) => {
            let mac = addr_key(fr.src_mac);
            let lim = spec_limits(s.config);
            let vip_mac = s.vip_list_mac.contains_key(mac);
            if vip_mac {
                l3_stage(s0, fr, lim, true, now)
            } else if ban_active(s.blacklist_mac, mac, now) {
                drop_step(s0, None)
            } else {
                let (st, exceeded) = window_step(lookup(s.traffic_mac, mac), now, lim.mac_limit);
                let s1 = ShieldView { traffic_mac: s0.traffic_mac.insert(mac, st), ..s0 };
                if exceeded {
                    drop_step(
                        ShieldView { blacklist_mac: s1.blacklist_mac.insert(mac, u64_specs::wrapping_add(now, lim.ban_duration_ns)), ..s1 },
                        Some(ban_event(Seq::new(16, |i: int| 0u8), fr.src_mac, 0, 0, 0)),
                    )
                } else {
                    l3_stage(s1, fr, lim, false, now)
                }
            }
        },
    }
}

/// Counts a dropped frame and returns the drop action.
pub fn drop_and_count(stats: &mut GlobalStats) -> (r: u32)
    ensures
        *final(stats) == count_drop(*old(stats)),
        r == XDP_DROP,
{
    stats.drop_count = stats.drop_count.wrapping_add(1);
    XDP_DROP
}

/// Applies one frame to a rate-limit table; returns whether the source
/// exceeded `limit` in its current window.
fn rate_limit<K: Hash + Eq + Copy>(table: &mut LruTable<K, IPStats>, key: K, now: u64, limit: u32) -> (exceeded: bool)
    requires
        old(table).wf(),
        obeys_key_model::<K>(),
    ensures
        final(table).wf(),
        final(table).capacity() == old(table).capacity(),
        settles(old(table)@, old(table)@.insert(key, window_step(lookup(old(table)@, key), now, limit).0), final(table)@, old(table).capacity()),
        exceeded == window_step(lookup(old(table)@, key), now, limit).1,
{
    let entry = match table.get(&key) {
        Some(st) => Some(*st),
        None => None,
    };
    assert(entry == lookup(old(table)@, key));
    match entry {
        None => {
            table.insert(key, IPStats { tokens: 1, _padding: 0, last_ts: now });
            false
        },
        Some(st) => {
            if now.wrapping_sub(st.last_ts) < WINDOW_NS {
                let c = st.tokens.wrapping_add(1);
                table.insert(key, IPStats { tokens: c, ..st });
                c > limit
            } else {
                table.insert(key, IPStats { tokens: 1, last_ts: now, ..st });
                false
            }
        },
    }
}

/// `k` is banned and the ban has not expired at `now`.
fn is_banned<K: Hash + Eq + Copy>(bl: &LruTable<K, u64>, k: &K, now: u64) -> (r: bool)
    requires
        obeys_key_model::<K>(),
    ensures
        r == ban_active(bl@, *k, now),
{
    match bl.get(k) {
        Some(ts) => now < *ts,
        None => false,
    }
}

proof fn lemma_maps_within_caps(m: &ShieldMaps)
    requires
        m.wf(),
    ensures
        within_caps(m@),
{
    m.vip_list_mac.lemma_within_capacity();
    m.blacklist.lemma_within_capacity();
    m.blacklist_v6.lemma_within_capacity();
    m.blacklist_mac.lemma_within_capacity();
    m.traffic.lemma_within_capacity();
    m.traffic_v6.lemma_within_capacity();
    m.traffic_mac.lemma_within_capacity();
    m.traffic_arp.lemma_within_capacity();
}

/// The network-layer stage never reads or writes the MAC rate-limit table.
proof fn lemma_l3_ignores_traffic_mac(x: ShieldView, y: ShieldView, fr: FrameSpec, lim: Limits, vip_mac: bool, now: u64)
    requires
        x == (ShieldView { traffic_mac: x.traffic_mac, ..y }),
    ensures
        l3_stage(x, fr, lim, vip_mac, now).state == (ShieldView { traffic_mac: x.traffic_mac, ..l3_stage(y, fr, lim, vip_mac, now).state }),
        l3_stage(x, fr, lim, vip_mac, now).state.traffic_mac == x.traffic_mac,
        l3_stage(y, fr, lim, vip_mac, now).state.traffic_mac == y.traffic_mac,
        l3_stage(x, fr, lim, vip_mac, now).action == l3_stage(y, fr, lim, vip_mac, now).action,
        l3_stage(x, fr, lim, vip_mac, now).event == l3_stage(y, fr, lim, vip_mac, now).event,
{
}

/// Outcome of one frame.
#[derive(Clone, Copy, Debug)]
pub struct XdpOutcome {
    pub action: u32,
    pub event: Option<MitigationEvent>,
}


fn pad4(a: [u8; 4]) -> (r: [u8; 16])
    ensures
        r@ == pad_ipv4(a@),
{
    let r = [a[0], a[1], a[2], a[3], 0, 0, 0, 0, 0, 0, 0, 0, 0, 0, 0, 0];
    assert(r@ =~= pad_ipv4(a@));
    r
}

fn make_ban_event(src_ip: [u8; 16], src_mac: [u8; 6], dest_port: u16, protocol: u8, ip_version: u8) -> (r: MitigationEvent)
    ensures
        r.spec_of() == ban_event(src_ip@, src_mac@, dest_port, protocol, ip_version),
{
    MitigationEvent { src_ip, src_mac, dest_port, protocol, action: ACTION_BAN, ip_version }
}

fn l3_stage_exec(maps: &mut ShieldMaps, info: &FrameInfo, lim: Limits, vip_mac: bool, now: u64) -> (r: XdpOutcome)
    requires
        old(maps).wf(),
    ensures
        final(maps).wf(),
        shield_settles(old(maps)@, l3_stage(old(maps)@, info.spec_of(), lim, vip_mac, now).state, final(maps)@),
        r.action == l3_stage(old(maps)@, info.spec_of(), lim, vip_mac, now).action,
        event_spec_of(r.event) == l3_stage(old(maps)@, info.spec_of(), lim, vip_mac, now).event,
{
    proof {
        lemma_maps_within_caps(maps);
    }
    let mac = pack_addr(&info.src_mac);
    match info.l3 {
        L3Info::Ipv4 { src, protocol, dest_port } => {
            if vip4_lookup(&maps.vip_list, &src) {
                return XdpOutcome { action: XDP_PASS, event: None };
            }
            let k = read_be32(&src, 0);
            if is_banned(&maps.blacklist, &k, now) {
                let a = drop_and_count(&mut maps.stats);
                return XdpOutcome { action: a, event: None };
            }
            if rate_limit(&mut maps.traffic, k, now, lim.ip_limit) {
                maps.blacklist.insert(k, now.wrapping_add(lim.ban_duration_ns));
                let ev = make_ban_event(pad4(src), info.src_mac, dest_port, protocol, 4);
                let a = drop_and_count(&mut maps.stats);
                return XdpOutcome { action: a, event: Some(ev) };
            }
            XdpOutcome { action: XDP_PASS, event: None }
        },
        L3Info::Ipv6 { src, protocol, dest_port } => {
            if vip6_lookup(&maps.vip_list_v6, &src) {
                return XdpOutcome { action: XDP_PASS, event: None };
            }
            let k = pack_addr(&src);
            if is_banned(&maps.blacklist_v6, &k, now) {
                let a = drop_and_count(&mut maps.stats);
                return XdpOutcome { action: a, event: None };
            }
            if rate_limit(&mut maps.traffic_v6, k, now, lim.ip_limit) {
                maps.blacklist_v6.insert(k, now.wrapping_add(lim.ban_duration_ns));
                let ev = make_ban_event(src, info.src_mac, dest_port, protocol, 6);
                let a = drop_and_count(&mut maps.stats);
                return XdpOutcome { action: a, event: Some(ev) };
            }
            XdpOutcome { action: XDP_PASS, event: None }
        },
        L3Info::Arp { sender_ip } => {
            if vip_mac {
                return XdpOutcome { action: XDP_PASS, event: None };
            }
            if rate_limit(&mut maps.traffic_arp, mac, now, lim.arp_limit) {
                maps.blacklist_mac.insert(mac, now.wrapping_add(lim.ban_duration_ns));
                let ev = make_ban_event(pad4(sender_ip), info.src_mac, 0, PROTO_ARP_EVENT, 0);
                let a = drop_and_count(&mut maps.stats);
                return XdpOutcome { action: a, event: Some(ev) };
            }
            XdpOutcome { action: XDP_PASS, event: None }
        },
        L3Info::Truncated => XdpOutcome { action: XDP_PASS, event: None },
        L3Info::Other => XdpOutcome { action: XDP_PASS, event: None },
    }
}

/// Decides the fate of one Ethernet frame `frame` arriving at `now`
/// (nanoseconds of a monotonic clock) and updates the tables: the global
/// counters, the allow-list bypasses, the ban lists and the per-source
/// one-second rate limits for MAC, ARP, IPv4 and IPv6 sources.
pub fn apex_shield(maps: &mut ShieldMaps, frame: &[u8], now: u64) -> (r: XdpOutcome)
    requires
        old(maps).wf(),
    ensures
        final(maps).wf(),
        shield_settles(old(maps)@, spec_apex_shield(old(maps)@, frame@, now).state, final(maps)@),
        r.action == spec_apex_shield(old(maps)@, frame@, now).action,
        event_spec_of(r.event) == spec_apex_shield(old(maps)@, frame@, now).event,
{
    proof {
        lemma_maps_within_caps(maps);
    }
    maps.stats.pkt_count = maps.stats.pkt_count.wrapping_add(1);
    let info = match classify_frame(frame) {
        Some(i) => i,
        None => return XdpOutcome { action: XDP_PASS, event: None },
    };
    let mac = pack_addr(&info.src_mac);
    let lim = effective_limits(maps.config);
    let vip_mac = maps.vip_list_mac.contains_key(&mac);
    if !vip_mac {
        if is_banned(&maps.blacklist_mac, &mac, now) {
            let a = drop_and_count(&mut maps.stats);
            return XdpOutcome { action: a, event: None };
        }
        let ghost before = maps@;
        if rate_limit(&mut maps.traffic_mac, mac, now, lim.mac_limit) {
            maps.blacklist_mac.insert(mac, now.wrapping_add(lim.ban_duration_ns));
            let ev = make_ban_event([0u8; 16], info.src_mac, 0, 0, 0);
            let a = drop_and_count(&mut maps.stats);
            return XdpOutcome { action: a, event: Some(ev) };
        }
        let ghost mid = maps@;
        proof {
            let fr = info.spec_of();
            let (st, _) = window_step(lookup(before.traffic_mac, mac as u128), now, lim.mac_limit);
            let ideal1 = ShieldView { traffic_mac: before.traffic_mac.insert(mac, st), ..before };
            lemma_maps_within_caps(maps);
            lemma_l3_ignores_traffic_mac(mid, ideal1, fr, lim, false, now);
        }
        let r = l3_stage_exec(maps, &info, lim, vip_mac, now);
        proof {
            lemma_maps_within_caps(maps);
        }
        return r;
    }
    l3_stage_exec(maps, &info, lim, vip_mac, now)
}

} // verus!
