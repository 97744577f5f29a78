//! Properties of the packet filter that hold for every frame and every
//! state of the tables.

use vstd::prelude::*;
use vstd::wrapping::u64_specs;
use vstd::wrapping::u32_specs;
use crate::types::{GlobalConfig, IPStats, XDP_DROP, XDP_PASS};
use crate::keys::addr_key;
use crate::lru::{lemma_settle_same, lemma_settle_written, settles};
use crate::lpm::{vip4_contains, vip6_contains};
use crate::packet::{
    be32, law_classify_arp, law_classify_ipv4, law_classify_ipv6, spec_classify, wire16, L3Spec,
};
use crate::shield::{
    ban_active, count_packet, l3_stage, lookup, shield_settles, spec_apex_shield, spec_limits, window_step,
    within_caps, ShieldView, ACTION_BAN, WINDOW_NS,
};

verus! {

/// Every frame is counted once; the drop counter grows by one exactly when
/// the action is a drop, and the action is always pass or drop.
pub proof fn law_counters(s: ShieldView, f: Seq<u8>, now: u64)
    ensures
        ({
            let r = spec_apex_shield(s, f, now);
            &&& r.action == XDP_PASS || r.action == XDP_DROP
            &&& r.state.stats.pkt_count == u64_specs::wrapping_add(s.stats.pkt_count, 1)
            &&& r.action == XDP_DROP ==> r.state.stats.drop_count == u64_specs::wrapping_add(s.stats.drop_count, 1)
            &&& r.action == XDP_PASS ==> r.state.stats.drop_count == s.stats.drop_count
        }),
{
}

/// The allow-lists and the configuration are only read by the filter.
pub proof fn law_allow_lists_unchanged(s: ShieldView, f: Seq<u8>, now: u64)
    ensures
        ({
            let r = spec_apex_shield(s, f, now);
            &&& r.state.vip_list == s.vip_list
            &&& r.state.vip_list_v6 == s.vip_list_v6
            &&& r.state.vip_list_mac == s.vip_list_mac
            &&& r.state.config == s.config
        }),
{
}

/// Every new ban is reported, and every report is a ban that comes with a
/// drop: without an event the ban lists stay as they were.
pub proof fn law_bans_are_reported(s: ShieldView, f: Seq<u8>, now: u64)
    ensures
        ({
            let r = spec_apex_shield(s, f, now);
            &&& r.event is None ==> {
                &&& r.state.blacklist == s.blacklist
                &&& r.state.blacklist_v6 == s.blacklist_v6
                &&& r.state.blacklist_mac == s.blacklist_mac
            }
            &&& r.event matches Some(e) ==> r.action == XDP_DROP && e.action == ACTION_BAN
        }),
{
}

/// A frame too short for an Ethernet header passes and is only counted.
pub proof fn law_runt_frames_pass(s: ShieldView, f: Seq<u8>, now: u64)
    requires
        f.len() < 14,
    ensures
        ({
            let r = spec_apex_shield(s, f, now);
            &&& r.action == XDP_PASS
            &&& r.event is None
            &&& r.state == ShieldView { stats: r.state.stats, ..s }
        }),
{
}

/// An ARP frame from an allow-listed MAC always passes and changes nothing
/// but the frame counter.
pub proof fn law_allowed_mac_arp_passes(s: ShieldView, f: Seq<u8>, now: u64)
    requires
        spec_classify(f) matches Some(fr) && fr.l3 is Arp && s.vip_list_mac.contains_key(addr_key(fr.src_mac)),
    ensures
        ({
            let r = spec_apex_shield(s, f, now);
            &&& r.action == XDP_PASS
            &&& r.event is None
            &&& r.state == ShieldView { stats: r.state.stats, ..s }
            &&& r.state.stats.drop_count == s.stats.drop_count
        }),
{
}

/// A MAC source whose ban is still running is dropped, unless allow-listed,
/// and nothing but the counters changes.
pub proof fn law_banned_mac_dropped(s: ShieldView, f: Seq<u8>, now: u64)
    requires
        spec_classify(f) matches Some(fr) && !s.vip_list_mac.contains_key(addr_key(fr.src_mac))
            && ban_active(s.blacklist_mac, addr_key(fr.src_mac), now),
    ensures
        ({
            let r = spec_apex_shield(s, f, now);
            &&& r.action == XDP_DROP
            &&& r.event is None
            &&& r.state == ShieldView { stats: r.state.stats, ..s }
        }),
{
}

/// An IPv4 source that is not allow-listed and whose ban is still running
/// is dropped.
pub proof fn law_banned_ipv4_dropped(s: ShieldView, f: Seq<u8>, now: u64)
    requires
        spec_classify(f) matches Some(fr) && fr.l3 matches L3Spec::Ipv4 { src, .. }
            && !vip4_contains(s.vip_list, src) && ban_active(s.blacklist, be32(src, 0), now),
    ensures
        spec_apex_shield(s, f, now).action == XDP_DROP,
{
}

/// An IPv6 source that is not allow-listed and whose ban is still running
/// is dropped.
pub proof fn law_banned_ipv6_dropped(s: ShieldView, f: Seq<u8>, now: u64)
    requires
        spec_classify(f) matches Some(fr) && fr.l3 matches L3Spec::Ipv6 { src, .. }
            && !vip6_contains(s.vip_list_v6, src) && ban_active(s.blacklist_v6, addr_key(src), now),
    ensures
        spec_apex_shield(s, f, now).action == XDP_DROP,
{
}

/// An allow-listed IPv4 source passes whenever the MAC stage lets its frame
/// through (allow-listed MAC, or a MAC neither banned nor over its limit),
/// and its rate-limit and ban tables are left alone.
pub proof fn law_allowed_ipv4_passes(s: ShieldView, f: Seq<u8>, now: u64)
    requires
        spec_classify(f) matches Some(fr) && fr.l3 matches L3Spec::Ipv4 { src, .. }
            && vip4_contains(s.vip_list, src) && ({
                let mac = addr_key(fr.src_mac);
                s.vip_list_mac.contains_key(mac) || (!ban_active(s.blacklist_mac, mac, now)
                    && !window_step(lookup(s.traffic_mac, mac), now, spec_limits(s.config).mac_limit).1)
            }),
    ensures
        ({
            let r = spec_apex_shield(s, f, now);
            &&& r.action == XDP_PASS
            &&& r.state.traffic == s.traffic
            &&& r.state.blacklist == s.blacklist
        }),
{
}

/// An allow-listed IPv6 source passes whenever the MAC stage lets its frame
/// through, and its rate-limit and ban tables are left alone.
pub proof fn law_allowed_ipv6_passes(s: ShieldView, f: Seq<u8>, now: u64)
    requires
        spec_classify(f) matches Some(fr) && fr.l3 matches L3Spec::Ipv6 { src, .. }
            && vip6_contains(s.vip_list_v6, src) && ({
                let mac = addr_key(fr.src_mac);
                s.vip_list_mac.contains_key(mac) || (!ban_active(s.blacklist_mac, mac, now)
                    && !window_step(lookup(s.traffic_mac, mac), now, spec_limits(s.config).mac_limit).1)
            }),
    ensures
        ({
            let r = spec_apex_shield(s, f, now);
            &&& r.action == XDP_PASS
            &&& r.state.traffic_v6 == s.traffic_v6
            &&& r.state.blacklist_v6 == s.blacklist_v6
        }),
{
}

/// IPv4 rate limit: for a source that reaches the IP stage, not allow-listed
/// and not banned, the frame is dropped exactly when the source's count in
/// the current window goes past the limit, and then the source is banned
/// until `now` plus the ban duration.
pub proof fn law_ipv4_rate_limit(s: ShieldView, f: Seq<u8>, now: u64)
    requires
        spec_classify(f) matches Some(fr) && fr.l3 matches L3Spec::Ipv4 { src, .. }
            && !vip4_contains(s.vip_list, src) && !ban_active(s.blacklist, be32(src, 0), now) && ({
                let mac = addr_key(fr.src_mac);
                s.vip_list_mac.contains_key(mac) || (!ban_active(s.blacklist_mac, mac, now)
                    && !window_step(lookup(s.traffic_mac, mac), now, spec_limits(s.config).mac_limit).1)
            }),
    ensures
        ({
            let fr = spec_classify(f).unwrap();
            let src = fr.l3->Ipv4_src;
            let k = be32(src, 0);
            let r = spec_apex_shield(s, f, now);
            let over = window_step(lookup(s.traffic, k), now, spec_limits(s.config).ip_limit).1;
            &&& r.state.traffic[k] == window_step(lookup(s.traffic, k), now, spec_limits(s.config).ip_limit).0
            &&& (r.action == XDP_DROP <==> over)
            &&& over ==> r.state.blacklist == s.blacklist.insert(k, u64_specs::wrapping_add(now, spec_limits(s.config).ban_duration_ns))
            &&& over ==> (r.event matches Some(e) && e.ip_version == 4 && e.src_ip.subrange(0, 4) == src)
        }),
{
    let fr = spec_classify(f).unwrap();
    let src = fr.l3->Ipv4_src;
    assert(fr.l3 == (L3Spec::Ipv4 { src, protocol: fr.l3->Ipv4_protocol, dest_port: fr.l3->Ipv4_dest_port }));
    let r = spec_apex_shield(s, f, now);
    if window_step(lookup(s.traffic, be32(src, 0)), now, spec_limits(s.config).ip_limit).1 {
        assert(r.event.unwrap().src_ip.subrange(0, 4) =~= src);
    }
}

/// A ban holds: once a frame got its IPv4 source banned, the next frame
/// from that source that is not allow-listed, arriving before the ban
/// expires, is dropped, whatever the bounded tables evicted on the way.
pub proof fn law_ipv4_ban_holds(s: ShieldView, f1: Seq<u8>, now1: u64, s1: ShieldView, f2: Seq<u8>, now2: u64)
    requires
        within_caps(s),
        shield_step(s, f1, now1, s1),
        spec_classify(f1) matches Some(fr) && fr.l3 matches L3Spec::Ipv4 { src, .. }
            && spec_apex_shield(s, f1, now1).event matches Some(e) && e.ip_version == 4,
        spec_classify(f2) matches Some(fr2) && fr2.l3 matches L3Spec::Ipv4 { src: src2, .. }
            && src2 == spec_classify(f1).unwrap().l3->Ipv4_src
            && !vip4_contains(s.vip_list, src2),
        now1 as int + spec_limits(s.config).ban_duration_ns <= u64::MAX,
        now1 <= now2 < now1 + spec_limits(s.config).ban_duration_ns,
    ensures
        spec_apex_shield(s1, f2, now2).action == XDP_DROP,
{
    let ideal = spec_apex_shield(s, f1, now1).state;
    let fr2 = spec_classify(f2).unwrap();
    let src2 = fr2.l3->Ipv4_src;
    let k = be32(src2, 0);
    let exp = u64_specs::wrapping_add(now1, spec_limits(s.config).ban_duration_ns);
    assert(ideal.blacklist == s.blacklist.insert(k, exp));
    lemma_settle_written(s.blacklist, k, exp, s1.blacklist, s.caps.blacklist);
    assert(s1.vip_list == s.vip_list);
    law_banned_ipv4_dropped(s1, f2, now2);
}

/// An allow-listed MAC is never counted or banned at layer 2: its MAC and
/// ARP rate-limit records and the MAC ban list stay as they were.
pub proof fn law_allowed_mac_not_limited(s: ShieldView, f: Seq<u8>, now: u64)
    requires
        spec_classify(f) matches Some(fr) && s.vip_list_mac.contains_key(addr_key(fr.src_mac)),
    ensures
        ({
            let r = spec_apex_shield(s, f, now);
            &&& r.state.traffic_mac == s.traffic_mac
            &&& r.state.traffic_arp == s.traffic_arp
            &&& r.state.blacklist_mac == s.blacklist_mac
        }),
{
}

/// MAC rate limit: a MAC that is not allow-listed and not banned has its
/// frame dropped by the MAC stage exactly when its count in the current
/// window goes past the MAC limit, and is then banned until `now` plus the
/// ban duration.
pub proof fn law_mac_rate_limit(s: ShieldView, f: Seq<u8>, now: u64)
    requires
        spec_classify(f) matches Some(fr) && !s.vip_list_mac.contains_key(addr_key(fr.src_mac))
            && !ban_active(s.blacklist_mac, addr_key(fr.src_mac), now),
    ensures
        ({
            let fr = spec_classify(f).unwrap();
            let mac = addr_key(fr.src_mac);
            let lim = spec_limits(s.config);
            let (st, over) = window_step(lookup(s.traffic_mac, mac), now, lim.mac_limit);
            let r = spec_apex_shield(s, f, now);
            &&& r.state.traffic_mac[mac] == st
            &&& over ==> r.action == XDP_DROP
            &&& over ==> r.state.blacklist_mac == s.blacklist_mac.insert(mac, u64_specs::wrapping_add(now, lim.ban_duration_ns))
            &&& over ==> (r.event matches Some(e) && e.ip_version == 0 && e.protocol == 0 && e.src_mac == fr.src_mac)
        }),
{
}

/// ARP guard: an ARP frame from a MAC that is not allow-listed and that the
/// MAC stage lets through is dropped exactly when the MAC's ARP count in
/// the current window goes past the ARP limit; the MAC is then banned.
pub proof fn law_arp_rate_limit(s: ShieldView, f: Seq<u8>, now: u64)
    requires
        spec_classify(f) matches Some(fr) && fr.l3 is Arp && !s.vip_list_mac.contains_key(addr_key(fr.src_mac))
            && !ban_active(s.blacklist_mac, addr_key(fr.src_mac), now)
            && !window_step(lookup(s.traffic_mac, addr_key(fr.src_mac)), now, spec_limits(s.config).mac_limit).1,
    ensures
        ({
            let fr = spec_classify(f).unwrap();
            let mac = addr_key(fr.src_mac);
            let lim = spec_limits(s.config);
            let (st, over) = window_step(lookup(s.traffic_arp, mac), now, lim.arp_limit);
            let r = spec_apex_shield(s, f, now);
            &&& r.state.traffic_arp[mac] == st
            &&& (r.action == XDP_DROP <==> over)
            &&& over ==> r.state.blacklist_mac == s.blacklist_mac.insert(mac, u64_specs::wrapping_add(now, lim.ban_duration_ns))
            &&& over ==> (r.event matches Some(e) && e.protocol == 20 && e.ip_version == 0)
        }),
{
}

/// IPv6 rate limit, as for IPv4.
pub proof fn law_ipv6_rate_limit(s: ShieldView, f: Seq<u8>, now: u64)
    requires
        spec_classify(f) matches Some(fr) && fr.l3 matches L3Spec::Ipv6 { src, .. }
            && !vip6_contains(s.vip_list_v6, src) && !ban_active(s.blacklist_v6, addr_key(src), now) && ({
                let mac = addr_key(fr.src_mac);
                s.vip_list_mac.contains_key(mac) || (!ban_active(s.blacklist_mac, mac, now)
                    && !window_step(lookup(s.traffic_mac, mac), now, spec_limits(s.config).mac_limit).1)
            }),
    ensures
        ({
            let fr = spec_classify(f).unwrap();
            let src = fr.l3->Ipv6_src;
            let k = addr_key(src);
            let lim = spec_limits(s.config);
            let (st, over) = window_step(lookup(s.traffic_v6, k), now, lim.ip_limit);
            let r = spec_apex_shield(s, f, now);
            &&& r.state.traffic_v6[k] == st
            &&& (r.action == XDP_DROP <==> over)
            &&& over ==> r.state.blacklist_v6 == s.blacklist_v6.insert(k, u64_specs::wrapping_add(now, lim.ban_duration_ns))
            &&& over ==> (r.event matches Some(e) && e.ip_version == 6 && e.src_ip == src)
        }),
{
    let fr = spec_classify(f).unwrap();
    assert(fr.l3 == (L3Spec::Ipv6 { src: fr.l3->Ipv6_src, protocol: fr.l3->Ipv6_protocol, dest_port: fr.l3->Ipv6_dest_port }));
}

/// Windows: a source's first frame, or a frame a full window after its
/// window opened, opens a new window with a count of one and is never over
/// the limit; within the window each frame adds one.
pub proof fn law_window(entry: Option<IPStats>, now: u64, limit: u32)
    ensures
        (entry is None || u64_specs::wrapping_sub(now, entry.unwrap().last_ts) >= WINDOW_NS) ==> {
            &&& window_step(entry, now, limit).0.tokens == 1
            &&& window_step(entry, now, limit).0.last_ts == now
            &&& !window_step(entry, now, limit).1
        },
        (entry is Some && u64_specs::wrapping_sub(now, entry.unwrap().last_ts) < WINDOW_NS && entry.unwrap().tokens < u32::MAX) ==> {
            &&& window_step(entry, now, limit).0.tokens == entry.unwrap().tokens + 1
            &&& window_step(entry, now, limit).0.last_ts == entry.unwrap().last_ts
            &&& window_step(entry, now, limit).1 == (entry.unwrap().tokens + 1 > limit)
        },
{
}

/// The panic limit applies to IP sources exactly when the configuration's
/// alert mode is 1.
pub proof fn law_limits_follow_mode(c: GlobalConfig)
    ensures
        spec_limits(Some(c)).ip_limit == if c.alert_mode == 1 { c.panic_mode_limit } else { c.normal_mode_limit },
        spec_limits(Some(c)).arp_limit == c.arp_mode_limit,
        spec_limits(Some(c)).mac_limit == c.mac_mode_limit,
        c.ban_duration_sec <= 18_446_744_073 ==> spec_limits(Some(c)).ban_duration_ns == c.ban_duration_sec * 1_000_000_000,
{
    if c.ban_duration_sec <= 18_446_744_073 {
        assert(c.ban_duration_sec * 1_000_000_000 <= 18_446_744_073_000_000_000) by (nonlinear_arith)
            requires
                c.ban_duration_sec <= 18_446_744_073,
        ;
        assert((c.ban_duration_sec as nat * 1_000_000_000nat) % 0x1_0000_0000_0000_0000nat == c.ban_duration_sec * 1_000_000_000);
    }
}


/// `fin` is a state the tables can be in after frame `f` at `now` from `s`:
/// the unbounded result, settled against the tables' capacities.
pub open spec fn shield_step(s: ShieldView, f: Seq<u8>, now: u64, fin: ShieldView) -> bool {
    shield_settles(s, spec_apex_shield(s, f, now).state, fin)
}

/// `states` is a run of the same frame `f` arriving at each of `times`, in
/// order, from `s`: `states[i + 1]` is a state after the `i`-th frame.
pub open spec fn is_run(s: ShieldView, f: Seq<u8>, times: Seq<u64>, states: Seq<ShieldView>) -> bool {
    &&& states.len() == times.len() + 1
    &&& states[0] == s
    &&& forall|i: int| 0 <= i < times.len() ==> shield_step(#[trigger] states[i], f, times[i], states[i + 1])
}

/// What happened to the `i`-th frame of a run.
pub open spec fn run_action(f: Seq<u8>, times: Seq<u64>, states: Seq<ShieldView>, i: int) -> u32 {
    spec_apex_shield(states[i], f, times[i]).action
}

/// A table holds at most `cap` entries.
pub open spec fn fits<K, V>(m: Map<K, V>, cap: nat) -> bool {
    m.len() <= cap && m.dom().finite()
}

proof fn lemma_settle_subset<K, V>(old: Map<K, V>, ideal: Map<K, V>, fin: Map<K, V>, cap: nat)
    requires
        settles(old, ideal, fin, cap),
    ensures
        forall|x: K| #[trigger] fin.contains_key(x) ==> ideal.contains_key(x),
{
}

/// The conditions of [`law_ipv4_flood_banned`]: an IPv4 frame from a source
/// that is neither allow-listed, banned nor counted yet, arriving at times
/// that all fall in the first one-second window; an IP limit of at least 1
/// (a source's first frame is never over the limit); and a MAC that is
/// allow-listed or fresh with a MAC limit above the IP limit.
pub open spec fn fresh_ipv4_flood(s: ShieldView, f: Seq<u8>, times: Seq<u64>) -> bool {
    &&& spec_classify(f) matches Some(fr)
    &&& fr.l3 is Ipv4
    &&& {
        let fr = spec_classify(f).unwrap();
        let src = fr.l3->Ipv4_src;
        let k = be32(src, 0);
        let mac = addr_key(fr.src_mac);
        let lim = spec_limits(s.config);
        &&& !vip4_contains(s.vip_list, src)
        &&& !s.blacklist.contains_key(k)
        &&& !s.traffic.contains_key(k)
        &&& 1 <= lim.ip_limit < u32::MAX
        &&& (s.vip_list_mac.contains_key(mac) || (!s.blacklist_mac.contains_key(mac)
            && !s.traffic_mac.contains_key(mac) && lim.mac_limit > lim.ip_limit))
        &&& times.len() > 0
        &&& forall|i: int| 0 <= i < times.len() ==> times[0] <= #[trigger] times[i] < times[0] + WINDOW_NS
    }
}

/// One frame of a flood from a source counted `c` times in the window that
/// opened at `t0` (with `c == 0`: not counted yet).
pub open spec fn ipv4_flood_pre(prev: ShieldView, f: Seq<u8>, t: u64, c: u32, t0: u64) -> bool {
    &&& spec_classify(f) matches Some(fr)
    &&& fr.l3 is Ipv4
    &&& {
        let fr = spec_classify(f).unwrap();
        let src = fr.l3->Ipv4_src;
        let k = be32(src, 0);
        let mac = addr_key(fr.src_mac);
        let lim = spec_limits(prev.config);
        let rec = IPStats { tokens: c, _padding: 0, last_ts: t0 };
        &&& !vip4_contains(prev.vip_list, src)
        &&& !prev.blacklist.contains_key(k)
        &&& c < u32::MAX
        &&& t0 <= t < t0 + WINDOW_NS
        &&& fits(prev.traffic, prev.caps.traffic)
        &&& fits(prev.traffic_mac, prev.caps.traffic_mac)
        &&& fits(prev.blacklist, prev.caps.blacklist)
        &&& c == 0 ==> t0 == t && !prev.traffic.contains_key(k)
        &&& c > 0 ==> prev.traffic.contains_key(k) && prev.traffic[k] == rec
        &&& (prev.vip_list_mac.contains_key(mac) || ({
            &&& !prev.blacklist_mac.contains_key(mac)
            &&& c + 1 <= lim.mac_limit
            &&& c == 0 ==> !prev.traffic_mac.contains_key(mac)
            &&& c > 0 ==> prev.traffic_mac.contains_key(mac) && prev.traffic_mac[mac] == rec
        }))
    }
}

#[verifier::spinoff_prover]
#[verifier::rlimit(40)]
proof fn lemma_flood_step(prev: ShieldView, f: Seq<u8>, t: u64, c: u32, t0: u64, next: ShieldView)
    requires
        ipv4_flood_pre(prev, f, t, c, t0),
        shield_step(prev, f, t, next),
    ensures
        ({
            let fr = spec_classify(f).unwrap();
            let k = be32(fr.l3->Ipv4_src, 0);
            let mac = addr_key(fr.src_mac);
            let lim = spec_limits(prev.config);
            let rec = IPStats { tokens: (c + 1) as u32, _padding: 0, last_ts: t0 };
            let r = spec_apex_shield(prev, f, t);
            &&& next.vip_list == prev.vip_list
            &&& next.vip_list_mac == prev.vip_list_mac
            &&& next.config == prev.config
            &&& next.caps == prev.caps
            &&& fits(next.traffic, next.caps.traffic)
            &&& fits(next.traffic_mac, next.caps.traffic_mac)
            &&& next.traffic.contains_key(k) && next.traffic[k] == rec
            &&& !prev.blacklist_mac.contains_key(mac) ==> !next.blacklist_mac.contains_key(mac)
            &&& !prev.vip_list_mac.contains_key(mac) ==> next.traffic_mac.contains_key(mac) && next.traffic_mac[mac] == rec
            &&& (c == 0 || c + 1 <= lim.ip_limit) ==> r.action == XDP_PASS && next.blacklist == prev.blacklist
            &&& (c > 0 && c + 1 > lim.ip_limit) ==> r.action == XDP_DROP && next.blacklist.contains_key(k)
        }),
{
    let fr = spec_classify(f).unwrap();
    let src = fr.l3->Ipv4_src;
    let k = be32(src, 0);
    let mac = addr_key(fr.src_mac);
    let lim = spec_limits(prev.config);
    assert(fr.l3 == (L3Spec::Ipv4 { src, protocol: fr.l3->Ipv4_protocol, dest_port: fr.l3->Ipv4_dest_port }));
    assert(u64_specs::wrapping_sub(t, t0) == t - t0);
    assert(u32_specs::wrapping_add(c, 1) == c + 1);
    let rec = IPStats { tokens: (c + 1) as u32, _padding: 0, last_ts: t0 };
    let s0 = ShieldView { stats: count_packet(prev.stats), ..prev };
    assert(window_step(lookup(prev.traffic, k), t, lim.ip_limit) == (rec, c > 0 && c + 1 > lim.ip_limit));
    let r = spec_apex_shield(prev, f, t);
    if prev.vip_list_mac.contains_key(mac) {
        assert(r == l3_stage(s0, fr, lim, true, t));
        assert(r.state.traffic_mac == prev.traffic_mac);
        lemma_settle_same(prev.traffic_mac, next.traffic_mac, prev.caps.traffic_mac);
    } else {
        assert(window_step(lookup(prev.traffic_mac, mac), t, lim.mac_limit) == (rec, false));
        let s1 = ShieldView { traffic_mac: s0.traffic_mac.insert(mac, rec), ..s0 };
        assert(r == l3_stage(s1, fr, lim, false, t));
        assert(r.state.traffic_mac == prev.traffic_mac.insert(mac, rec));
        lemma_settle_written(prev.traffic_mac, mac, rec, next.traffic_mac, prev.caps.traffic_mac);
    }
    assert(r.state.blacklist_mac == prev.blacklist_mac);
    lemma_settle_subset(prev.blacklist_mac, r.state.blacklist_mac, next.blacklist_mac, prev.caps.blacklist_mac);
    assert(r.state.traffic == prev.traffic.insert(k, rec));
    lemma_settle_written(prev.traffic, k, rec, next.traffic, prev.caps.traffic);
    if c > 0 && c + 1 > lim.ip_limit {
        let v = u64_specs::wrapping_add(t, lim.ban_duration_ns);
        assert(r.state.blacklist == prev.blacklist.insert(k, v));
        lemma_settle_written(prev.blacklist, k, v, next.blacklist, prev.caps.blacklist);
    } else {
        assert(r.state.blacklist == prev.blacklist);
        lemma_settle_same(prev.blacklist, next.blacklist, prev.caps.blacklist);
    }
}

#[verifier::spinoff_prover]
#[verifier::rlimit(40)]
proof fn lemma_flood_prefix(s: ShieldView, f: Seq<u8>, times: Seq<u64>, states: Seq<ShieldView>, n: int)
    requires
        fresh_ipv4_flood(s, f, times),
        within_caps(s),
        is_run(s, f, times, states),
        0 <= n <= times.len(),
        n <= spec_limits(s.config).ip_limit,
    ensures
        ({
            let fr = spec_classify(f).unwrap();
            let k = be32(fr.l3->Ipv4_src, 0);
            let mac = addr_key(fr.src_mac);
            let rec = IPStats { tokens: n as u32, _padding: 0, last_ts: times[0] };
            let st = states[n];
            &&& st.vip_list == s.vip_list
            &&& st.vip_list_mac == s.vip_list_mac
            &&& st.config == s.config
            &&& st.caps == s.caps
            &&& st.blacklist == s.blacklist
            &&& fits(st.traffic, st.caps.traffic)
            &&& fits(st.traffic_mac, st.caps.traffic_mac)
            &&& !s.blacklist_mac.contains_key(mac) ==> !st.blacklist_mac.contains_key(mac)
            &&& n == 0 ==> !st.traffic.contains_key(k) && st.traffic_mac == s.traffic_mac
            &&& n > 0 ==> st.traffic.contains_key(k) && st.traffic[k] == rec
            &&& (n > 0 && !s.vip_list_mac.contains_key(mac)) ==> st.traffic_mac.contains_key(mac) && st.traffic_mac[mac] == rec
            &&& forall|i: int| 0 <= i < n ==> run_action(f, times, states, i) == XDP_PASS
        }),
    decreases n,
{
    if n > 0 {
        lemma_flood_prefix(s, f, times, states, n - 1);
        let t = times[n - 1];
        assert(times[0] <= t < times[0] + WINDOW_NS);
        assert(shield_step(states[n - 1], f, t, states[n]));
        lemma_flood_step(states[n - 1], f, t, (n - 1) as u32, times[0], states[n]);
    }
}

/// Flood protection: a source that is neither allow-listed nor banned and
/// sends more frames within one second than the IP limit gets its first
/// `limit` frames through, then its next frame dropped and itself banned,
/// whatever entries the bounded tables evict on the way.
#[verifier::spinoff_prover]
#[verifier::rlimit(40)]
pub proof fn law_ipv4_flood_banned(s: ShieldView, f: Seq<u8>, times: Seq<u64>, states: Seq<ShieldView>)
    requires
        fresh_ipv4_flood(s, f, times),
        within_caps(s),
        is_run(s, f, times, states),
        times.len() == spec_limits(s.config).ip_limit + 1,
    ensures
        forall|i: int| 0 <= i < times.len() - 1 ==> run_action(f, times, states, i) == XDP_PASS,
        run_action(f, times, states, times.len() - 1) == XDP_DROP,
        states.last().blacklist.contains_key(be32(spec_classify(f).unwrap().l3->Ipv4_src, 0)),
{
    let n = times.len() - 1;
    lemma_flood_prefix(s, f, times, states, n);
    let t = times[n];
    assert(times[0] <= t < times[0] + WINDOW_NS);
    assert(shield_step(states[n], f, t, states[n + 1]));
    lemma_flood_step(states[n], f, t, n as u32, times[0], states[n + 1]);
}

/// The conditions of [`law_ipv6_flood_banned`]: an IPv6 frame from a source
/// that is neither allow-listed, banned nor counted yet, arriving at times
/// that all fall in the first one-second window; an IP limit of at least 1
/// (a source's first frame is never over the limit); and a MAC that is
/// allow-listed or fresh with a MAC limit above the IP limit.
pub open spec fn fresh_ipv6_flood(s: ShieldView, f: Seq<u8>, times: Seq<u64>) -> bool {
    &&& spec_classify(f) matches Some(fr)
    &&& fr.l3 is Ipv6
    &&& {
        let fr = spec_classify(f).unwrap();
        let src = fr.l3->Ipv6_src;
        let k = addr_key(src);
        let mac = addr_key(fr.src_mac);
        let lim = spec_limits(s.config);
        &&& !vip6_contains(s.vip_list_v6, src)
        &&& !s.blacklist_v6.contains_key(k)
        &&& !s.traffic_v6.contains_key(k)
        &&& 1 <= lim.ip_limit < u32::MAX
        &&& (s.vip_list_mac.contains_key(mac) || (!s.blacklist_mac.contains_key(mac)
            && !s.traffic_mac.contains_key(mac) && lim.mac_limit > lim.ip_limit))
        &&& times.len() > 0
        &&& forall|i: int| 0 <= i < times.len() ==> times[0] <= #[trigger] times[i] < times[0] + WINDOW_NS
    }
}

/// One frame of a flood from a source counted `c` times in the window that
/// opened at `t0` (with `c == 0`: not counted yet).
pub open spec fn ipv6_flood_pre(prev: ShieldView, f: Seq<u8>, t: u64, c: u32, t0: u64) -> bool {
    &&& spec_classify(f) matches Some(fr)
    &&& fr.l3 is Ipv6
    &&& {
        let fr = spec_classify(f).unwrap();
        let src = fr.l3->Ipv6_src;
        let k = addr_key(src);
        let mac = addr_key(fr.src_mac);
        let lim = spec_limits(prev.config);
        let rec = IPStats { tokens: c, _padding: 0, last_ts: t0 };
        &&& !vip6_contains(prev.vip_list_v6, src)
        &&& !prev.blacklist_v6.contains_key(k)
        &&& c < u32::MAX
        &&& t0 <= t < t0 + WINDOW_NS
        &&& fits(prev.traffic_v6, prev.caps.traffic_v6)
        &&& fits(prev.traffic_mac, prev.caps.traffic_mac)
        &&& fits(prev.blacklist_v6, prev.caps.blacklist_v6)
        &&& c == 0 ==> t0 == t && !prev.traffic_v6.contains_key(k)
        &&& c > 0 ==> prev.traffic_v6.contains_key(k) && prev.traffic_v6[k] == rec
        &&& (prev.vip_list_mac.contains_key(mac) || ({
            &&& !prev.blacklist_mac.contains_key(mac)
            &&& c + 1 <= lim.mac_limit
            &&& c == 0 ==> !prev.traffic_mac.contains_key(mac)
            &&& c > 0 ==> prev.traffic_mac.contains_key(mac) && prev.traffic_mac[mac] == rec
        }))
    }
}

#[verifier::spinoff_prover]
#[verifier::rlimit(40)]
proof fn lemma_flood6_step(prev: ShieldView, f: Seq<u8>, t: u64, c: u32, t0: u64, next: ShieldView)
    requires
        ipv6_flood_pre(prev, f, t, c, t0),
        shield_step(prev, f, t, next),
    ensures
        ({
            let fr = spec_classify(f).unwrap();
            let k = addr_key(fr.l3->Ipv6_src);
            let mac = addr_key(fr.src_mac);
            let lim = spec_limits(prev.config);
            let rec = IPStats { tokens: (c + 1) as u32, _padding: 0, last_ts: t0 };
            let r = spec_apex_shield(prev, f, t);
            &&& next.vip_list_v6 == prev.vip_list_v6
            &&& next.vip_list_mac == prev.vip_list_mac
            &&& next.config == prev.config
            &&& next.caps == prev.caps
            &&& fits(next.traffic_v6, next.caps.traffic_v6)
            &&& fits(next.traffic_mac, next.caps.traffic_mac)
            &&& next.traffic_v6.contains_key(k) && next.traffic_v6[k] == rec
            &&& !prev.blacklist_mac.contains_key(mac) ==> !next.blacklist_mac.contains_key(mac)
            &&& !prev.vip_list_mac.contains_key(mac) ==> next.traffic_mac.contains_key(mac) && next.traffic_mac[mac] == rec
            &&& (c == 0 || c + 1 <= lim.ip_limit) ==> r.action == XDP_PASS && next.blacklist_v6 == prev.blacklist_v6
            &&& (c > 0 && c + 1 > lim.ip_limit) ==> r.action == XDP_DROP && next.blacklist_v6.contains_key(k)
        }),
{
    let fr = spec_classify(f).unwrap();
    let src = fr.l3->Ipv6_src;
    let k = addr_key(src);
    let mac = addr_key(fr.src_mac);
    let lim = spec_limits(prev.config);
    assert(fr.l3 == (L3Spec::Ipv6 { src, protocol: fr.l3->Ipv6_protocol, dest_port: fr.l3->Ipv6_dest_port }));
    assert(u64_specs::wrapping_sub(t, t0) == t - t0);
    assert(u32_specs::wrapping_add(c, 1) == c + 1);
    let rec = IPStats { tokens: (c + 1) as u32, _padding: 0, last_ts: t0 };
    let s0 = ShieldView { stats: count_packet(prev.stats), ..prev };
    assert(window_step(lookup(prev.traffic_v6, k), t, lim.ip_limit) == (rec, c > 0 && c + 1 > lim.ip_limit));
    let r = spec_apex_shield(prev, f, t);
    if prev.vip_list_mac.contains_key(mac) {
        assert(r == l3_stage(s0, fr, lim, true, t));
        assert(r.state.traffic_mac == prev.traffic_mac);
        lemma_settle_same(prev.traffic_mac, next.traffic_mac, prev.caps.traffic_mac);
    } else {
        assert(window_step(lookup(prev.traffic_mac, mac), t, lim.mac_limit) == (rec, false));
        let s1 = ShieldView { traffic_mac: s0.traffic_mac.insert(mac, rec), ..s0 };
        assert(r == l3_stage(s1, fr, lim, false, t));
        assert(r.state.traffic_mac == prev.traffic_mac.insert(mac, rec));
        lemma_settle_written(prev.traffic_mac, mac, rec, next.traffic_mac, prev.caps.traffic_mac);
    }
    assert(r.state.blacklist_mac == prev.blacklist_mac);
    lemma_settle_subset(prev.blacklist_mac, r.state.blacklist_mac, next.blacklist_mac, prev.caps.blacklist_mac);
    assert(r.state.traffic_v6 == prev.traffic_v6.insert(k, rec));
    lemma_settle_written(prev.traffic_v6, k, rec, next.traffic_v6, prev.caps.traffic_v6);
    if c > 0 && c + 1 > lim.ip_limit {
        let v = u64_specs::wrapping_add(t, lim.ban_duration_ns);
        assert(r.state.blacklist_v6 == prev.blacklist_v6.insert(k, v));
        lemma_settle_written(prev.blacklist_v6, k, v, next.blacklist_v6, prev.caps.blacklist_v6);
    } else {
        assert(r.state.blacklist_v6 == prev.blacklist_v6);
        lemma_settle_same(prev.blacklist_v6, next.blacklist_v6, prev.caps.blacklist_v6);
    }
}

#[verifier::spinoff_prover]
#[verifier::rlimit(40)]
proof fn lemma_flood6_prefix(s: ShieldView, f: Seq<u8>, times: Seq<u64>, states: Seq<ShieldView>, n: int)
    requires
        fresh_ipv6_flood(s, f, times),
        within_caps(s),
        is_run(s, f, times, states),
        0 <= n <= times.len(),
        n <= spec_limits(s.config).ip_limit,
    ensures
        ({
            let fr = spec_classify(f).unwrap();
            let k = addr_key(fr.l3->Ipv6_src);
            let mac = addr_key(fr.src_mac);
            let rec = IPStats { tokens: n as u32, _padding: 0, last_ts: times[0] };
            let st = states[n];
            &&& st.vip_list_v6 == s.vip_list_v6
            &&& st.vip_list_mac == s.vip_list_mac
            &&& st.config == s.config
            &&& st.caps == s.caps
            &&& st.blacklist_v6 == s.blacklist_v6
            &&& fits(st.traffic_v6, st.caps.traffic_v6)
            &&& fits(st.traffic_mac, st.caps.traffic_mac)
            &&& !s.blacklist_mac.contains_key(mac) ==> !st.blacklist_mac.contains_key(mac)
            &&& n == 0 ==> !st.traffic_v6.contains_key(k) && st.traffic_mac == s.traffic_mac
            &&& n > 0 ==> st.traffic_v6.contains_key(k) && st.traffic_v6[k] == rec
            &&& (n > 0 && !s.vip_list_mac.contains_key(mac)) ==> st.traffic_mac.contains_key(mac) && st.traffic_mac[mac] == rec
            &&& forall|i: int| 0 <= i < n ==> run_action(f, times, states, i) == XDP_PASS
        }),
    decreases n,
{
    if n > 0 {
        lemma_flood6_prefix(s, f, times, states, n - 1);
        let t = times[n - 1];
        assert(times[0] <= t < times[0] + WINDOW_NS);
        assert(shield_step(states[n - 1], f, t, states[n]));
        lemma_flood6_step(states[n - 1], f, t, (n - 1) as u32, times[0], states[n]);
    }
}

/// Flood protection for IPv6: a source that is neither allow-listed nor banned and
/// sends more frames within one second than the IP limit gets its first
/// `limit` frames through, then its next frame dropped and itself banned,
/// whatever entries the bounded tables evict on the way.
#[verifier::spinoff_prover]
#[verifier::rlimit(40)]
pub proof fn law_ipv6_flood_banned(s: ShieldView, f: Seq<u8>, times: Seq<u64>, states: Seq<ShieldView>)
    requires
        fresh_ipv6_flood(s, f, times),
        within_caps(s),
        is_run(s, f, times, states),
        times.len() == spec_limits(s.config).ip_limit + 1,
    ensures
        forall|i: int| 0 <= i < times.len() - 1 ==> run_action(f, times, states, i) == XDP_PASS,
        run_action(f, times, states, times.len() - 1) == XDP_DROP,
        states.last().blacklist_v6.contains_key(addr_key(spec_classify(f).unwrap().l3->Ipv6_src)),
{
    let n = times.len() - 1;
    lemma_flood6_prefix(s, f, times, states, n);
    let t = times[n];
    assert(times[0] <= t < times[0] + WINDOW_NS);
    assert(shield_step(states[n], f, t, states[n + 1]));
    lemma_flood6_step(states[n], f, t, n as u32, times[0], states[n + 1]);
}

/// The conditions of [`law_arp_flood_banned`]: an ARP frame from a MAC that
/// is neither allow-listed, banned nor counted yet, arriving at times that
/// all fall in the first one-second window, with an ARP limit of at least 1
/// and a MAC limit above the ARP limit.
pub open spec fn fresh_arp_flood(s: ShieldView, f: Seq<u8>, times: Seq<u64>) -> bool {
    &&& spec_classify(f) matches Some(fr)
    &&& fr.l3 is Arp
    &&& {
        let fr = spec_classify(f).unwrap();
        let mac = addr_key(fr.src_mac);
        let lim = spec_limits(s.config);
        &&& !s.vip_list_mac.contains_key(mac)
        &&& !s.blacklist_mac.contains_key(mac)
        &&& !s.traffic_mac.contains_key(mac)
        &&& !s.traffic_arp.contains_key(mac)
        &&& 1 <= lim.arp_limit < lim.mac_limit
        &&& times.len() > 0
        &&& forall|i: int| 0 <= i < times.len() ==> times[0] <= #[trigger] times[i] < times[0] + WINDOW_NS
    }
}

/// One ARP frame of a flood from a MAC counted `c` times in the window that
/// opened at `t0`.
pub open spec fn arp_flood_pre(prev: ShieldView, f: Seq<u8>, t: u64, c: u32, t0: u64) -> bool {
    &&& spec_classify(f) matches Some(fr)
    &&& fr.l3 is Arp
    &&& {
        let fr = spec_classify(f).unwrap();
        let mac = addr_key(fr.src_mac);
        let lim = spec_limits(prev.config);
        let rec = IPStats { tokens: c, _padding: 0, last_ts: t0 };
        &&& !prev.vip_list_mac.contains_key(mac)
        &&& !prev.blacklist_mac.contains_key(mac)
        &&& c + 1 <= lim.mac_limit
        &&& t0 <= t < t0 + WINDOW_NS
        &&& fits(prev.traffic_mac, prev.caps.traffic_mac)
        &&& fits(prev.traffic_arp, prev.caps.traffic_arp)
        &&& fits(prev.blacklist_mac, prev.caps.blacklist_mac)
        &&& c == 0 ==> t0 == t && !prev.traffic_mac.contains_key(mac) && !prev.traffic_arp.contains_key(mac)
        &&& c > 0 ==> prev.traffic_mac.contains_key(mac) && prev.traffic_mac[mac] == rec
            && prev.traffic_arp.contains_key(mac) && prev.traffic_arp[mac] == rec
    }
}

#[verifier::spinoff_prover]
#[verifier::rlimit(40)]
proof fn lemma_arp_flood_step(prev: ShieldView, f: Seq<u8>, t: u64, c: u32, t0: u64, next: ShieldView)
    requires
        arp_flood_pre(prev, f, t, c, t0),
        shield_step(prev, f, t, next),
    ensures
        ({
            let fr = spec_classify(f).unwrap();
            let mac = addr_key(fr.src_mac);
            let lim = spec_limits(prev.config);
            let rec = IPStats { tokens: (c + 1) as u32, _padding: 0, last_ts: t0 };
            let r = spec_apex_shield(prev, f, t);
            &&& next.vip_list_mac == prev.vip_list_mac
            &&& next.config == prev.config
            &&& next.caps == prev.caps
            &&& fits(next.traffic_mac, next.caps.traffic_mac)
            &&& fits(next.traffic_arp, next.caps.traffic_arp)
            &&& next.traffic_mac.contains_key(mac) && next.traffic_mac[mac] == rec
            &&& next.traffic_arp.contains_key(mac) && next.traffic_arp[mac] == rec
            &&& (c == 0 || c + 1 <= lim.arp_limit) ==> r.action == XDP_PASS && next.blacklist_mac == prev.blacklist_mac
            &&& (c > 0 && c + 1 > lim.arp_limit) ==> r.action == XDP_DROP && next.blacklist_mac.contains_key(mac)
        }),
{
    let fr = spec_classify(f).unwrap();
    let mac = addr_key(fr.src_mac);
    let lim = spec_limits(prev.config);
    assert(fr.l3 == (L3Spec::Arp { sender_ip: fr.l3->sender_ip }));
    assert(u64_specs::wrapping_sub(t, t0) == t - t0);
    assert(u32_specs::wrapping_add(c, 1) == c + 1);
    let rec = IPStats { tokens: (c + 1) as u32, _padding: 0, last_ts: t0 };
    let s0 = ShieldView { stats: count_packet(prev.stats), ..prev };
    assert(window_step(lookup(prev.traffic_mac, mac), t, lim.mac_limit) == (rec, false));
    let s1 = ShieldView { traffic_mac: s0.traffic_mac.insert(mac, rec), ..s0 };
    assert(window_step(lookup(s1.traffic_arp, mac), t, lim.arp_limit) == (rec, c > 0 && c + 1 > lim.arp_limit));
    let r = spec_apex_shield(prev, f, t);
    assert(r == l3_stage(s1, fr, lim, false, t));
    assert(r.state.traffic_mac == prev.traffic_mac.insert(mac, rec));
    lemma_settle_written(prev.traffic_mac, mac, rec, next.traffic_mac, prev.caps.traffic_mac);
    assert(r.state.traffic_arp == prev.traffic_arp.insert(mac, rec));
    lemma_settle_written(prev.traffic_arp, mac, rec, next.traffic_arp, prev.caps.traffic_arp);
    if c > 0 && c + 1 > lim.arp_limit {
        let v = u64_specs::wrapping_add(t, lim.ban_duration_ns);
        assert(r.state.blacklist_mac == prev.blacklist_mac.insert(mac, v));
        lemma_settle_written(prev.blacklist_mac, mac, v, next.blacklist_mac, prev.caps.blacklist_mac);
    } else {
        assert(r.state.blacklist_mac == prev.blacklist_mac);
        lemma_settle_same(prev.blacklist_mac, next.blacklist_mac, prev.caps.blacklist_mac);
    }
}

#[verifier::spinoff_prover]
#[verifier::rlimit(40)]
proof fn lemma_arp_flood_prefix(s: ShieldView, f: Seq<u8>, times: Seq<u64>, states: Seq<ShieldView>, n: int)
    requires
        fresh_arp_flood(s, f, times),
        within_caps(s),
        is_run(s, f, times, states),
        0 <= n <= times.len(),
        n <= spec_limits(s.config).arp_limit,
    ensures
        ({
            let fr = spec_classify(f).unwrap();
            let mac = addr_key(fr.src_mac);
            let rec = IPStats { tokens: n as u32, _padding: 0, last_ts: times[0] };
            let st = states[n];
            &&& st.vip_list_mac == s.vip_list_mac
            &&& st.config == s.config
            &&& st.caps == s.caps
            &&& st.blacklist_mac == s.blacklist_mac
            &&& fits(st.traffic_mac, st.caps.traffic_mac)
            &&& fits(st.traffic_arp, st.caps.traffic_arp)
            &&& n == 0 ==> !st.traffic_mac.contains_key(mac) && !st.traffic_arp.contains_key(mac)
            &&& n > 0 ==> st.traffic_mac.contains_key(mac) && st.traffic_mac[mac] == rec
                && st.traffic_arp.contains_key(mac) && st.traffic_arp[mac] == rec
            &&& forall|i: int| 0 <= i < n ==> run_action(f, times, states, i) == XDP_PASS
        }),
    decreases n,
{
    if n > 0 {
        lemma_arp_flood_prefix(s, f, times, states, n - 1);
        let t = times[n - 1];
        assert(times[0] <= t < times[0] + WINDOW_NS);
        assert(shield_step(states[n - 1], f, t, states[n]));
        lemma_arp_flood_step(states[n - 1], f, t, (n - 1) as u32, times[0], states[n]);
    }
}

/// ARP guard against spoofing floods: a MAC that is neither allow-listed
/// nor banned and sends more ARP frames within one second than the ARP limit
/// gets its first `limit` frames through, then its next frame dropped and
/// itself banned, whatever entries the bounded tables evict on the way.
#[verifier::spinoff_prover]
#[verifier::rlimit(40)]
pub proof fn law_arp_flood_banned(s: ShieldView, f: Seq<u8>, times: Seq<u64>, states: Seq<ShieldView>)
    requires
        fresh_arp_flood(s, f, times),
        within_caps(s),
        is_run(s, f, times, states),
        times.len() == spec_limits(s.config).arp_limit + 1,
    ensures
        forall|i: int| 0 <= i < times.len() - 1 ==> run_action(f, times, states, i) == XDP_PASS,
        run_action(f, times, states, times.len() - 1) == XDP_DROP,
        states.last().blacklist_mac.contains_key(addr_key(spec_classify(f).unwrap().src_mac)),
{
    let n = times.len() - 1;
    lemma_arp_flood_prefix(s, f, times, states, n);
    let t = times[n];
    assert(times[0] <= t < times[0] + WINDOW_NS);
    assert(shield_step(states[n], f, t, states[n + 1]));
    lemma_arp_flood_step(states[n], f, t, n as u32, times[0], states[n + 1]);
}

/// The conditions of [`law_mac_flood_banned`]: a frame that carries no IP
/// or ARP payload (another EtherType, or one too short for its header), from
/// a MAC that is neither allow-listed, banned nor counted yet, arriving at
/// times that all fall in the first one-second window, with a MAC limit of
/// at least 1.
pub open spec fn fresh_mac_flood(s: ShieldView, f: Seq<u8>, times: Seq<u64>) -> bool {
    &&& spec_classify(f) matches Some(fr)
    &&& (fr.l3 is Other || fr.l3 is Truncated)
    &&& {
        let fr = spec_classify(f).unwrap();
        let mac = addr_key(fr.src_mac);
        let lim = spec_limits(s.config);
        &&& !s.vip_list_mac.contains_key(mac)
        &&& !s.blacklist_mac.contains_key(mac)
        &&& !s.traffic_mac.contains_key(mac)
        &&& 1 <= lim.mac_limit < u32::MAX
        &&& times.len() > 0
        &&& forall|i: int| 0 <= i < times.len() ==> times[0] <= #[trigger] times[i] < times[0] + WINDOW_NS
    }
}

/// One frame of an L2 flood from a MAC counted `c` times in the window that
/// opened at `t0`.
pub open spec fn mac_flood_pre(prev: ShieldView, f: Seq<u8>, t: u64, c: u32, t0: u64) -> bool {
    &&& spec_classify(f) matches Some(fr)
    &&& (fr.l3 is Other || fr.l3 is Truncated)
    &&& {
        let fr = spec_classify(f).unwrap();
        let mac = addr_key(fr.src_mac);
        let rec = IPStats { tokens: c, _padding: 0, last_ts: t0 };
        &&& !prev.vip_list_mac.contains_key(mac)
        &&& !prev.blacklist_mac.contains_key(mac)
        &&& c < u32::MAX
        &&& t0 <= t < t0 + WINDOW_NS
        &&& fits(prev.traffic_mac, prev.caps.traffic_mac)
        &&& fits(prev.blacklist_mac, prev.caps.blacklist_mac)
        &&& c == 0 ==> t0 == t && !prev.traffic_mac.contains_key(mac)
        &&& c > 0 ==> prev.traffic_mac.contains_key(mac) && prev.traffic_mac[mac] == rec
    }
}

#[verifier::spinoff_prover]
#[verifier::rlimit(40)]
proof fn lemma_mac_flood_step(prev: ShieldView, f: Seq<u8>, t: u64, c: u32, t0: u64, next: ShieldView)
    requires
        mac_flood_pre(prev, f, t, c, t0),
        shield_step(prev, f, t, next),
    ensures
        ({
            let fr = spec_classify(f).unwrap();
            let mac = addr_key(fr.src_mac);
            let lim = spec_limits(prev.config);
            let rec = IPStats { tokens: (c + 1) as u32, _padding: 0, last_ts: t0 };
            let r = spec_apex_shield(prev, f, t);
            &&& next.vip_list_mac == prev.vip_list_mac
            &&& next.config == prev.config
            &&& next.caps == prev.caps
            &&& fits(next.traffic_mac, next.caps.traffic_mac)
            &&& next.traffic_mac.contains_key(mac) && next.traffic_mac[mac] == rec
            &&& (c == 0 || c + 1 <= lim.mac_limit) ==> r.action == XDP_PASS && next.blacklist_mac == prev.blacklist_mac
            &&& (c > 0 && c + 1 > lim.mac_limit) ==> r.action == XDP_DROP && next.blacklist_mac.contains_key(mac)
        }),
{
    let fr = spec_classify(f).unwrap();
    let mac = addr_key(fr.src_mac);
    let lim = spec_limits(prev.config);
    assert(u64_specs::wrapping_sub(t, t0) == t - t0);
    assert(u32_specs::wrapping_add(c, 1) == c + 1);
    let rec = IPStats { tokens: (c + 1) as u32, _padding: 0, last_ts: t0 };
    assert(window_step(lookup(prev.traffic_mac, mac), t, lim.mac_limit) == (rec, c > 0 && c + 1 > lim.mac_limit));
    let r = spec_apex_shield(prev, f, t);
    assert(r.state.traffic_mac == prev.traffic_mac.insert(mac, rec));
    lemma_settle_written(prev.traffic_mac, mac, rec, next.traffic_mac, prev.caps.traffic_mac);
    if c > 0 && c + 1 > lim.mac_limit {
        let v = u64_specs::wrapping_add(t, lim.ban_duration_ns);
        assert(r.state.blacklist_mac == prev.blacklist_mac.insert(mac, v));
        lemma_settle_written(prev.blacklist_mac, mac, v, next.blacklist_mac, prev.caps.blacklist_mac);
    } else {
        assert(r.state.blacklist_mac == prev.blacklist_mac);
        lemma_settle_same(prev.blacklist_mac, next.blacklist_mac, prev.caps.blacklist_mac);
    }
}

#[verifier::spinoff_prover]
#[verifier::rlimit(40)]
proof fn lemma_mac_flood_prefix(s: ShieldView, f: Seq<u8>, times: Seq<u64>, states: Seq<ShieldView>, n: int)
    requires
        fresh_mac_flood(s, f, times),
        within_caps(s),
        is_run(s, f, times, states),
        0 <= n <= times.len(),
        n <= spec_limits(s.config).mac_limit,
    ensures
        ({
            let fr = spec_classify(f).unwrap();
            let mac = addr_key(fr.src_mac);
            let rec = IPStats { tokens: n as u32, _padding: 0, last_ts: times[0] };
            let st = states[n];
            &&& st.vip_list_mac == s.vip_list_mac
            &&& st.config == s.config
            &&& st.caps == s.caps
            &&& st.blacklist_mac == s.blacklist_mac
            &&& fits(st.traffic_mac, st.caps.traffic_mac)
            &&& n == 0 ==> !st.traffic_mac.contains_key(mac)
            &&& n > 0 ==> st.traffic_mac.contains_key(mac) && st.traffic_mac[mac] == rec
            &&& forall|i: int| 0 <= i < n ==> run_action(f, times, states, i) == XDP_PASS
        }),
    decreases n,
{
    if n > 0 {
        lemma_mac_flood_prefix(s, f, times, states, n - 1);
        let t = times[n - 1];
        assert(times[0] <= t < times[0] + WINDOW_NS);
        assert(shield_step(states[n - 1], f, t, states[n]));
        lemma_mac_flood_step(states[n - 1], f, t, (n - 1) as u32, times[0], states[n]);
    }
}

/// L2 flood guard: a MAC that is neither allow-listed nor banned and sends
/// more frames without an IP or ARP payload within one second than the MAC
/// limit gets its first `limit` frames through, then its next frame dropped
/// and itself banned, whatever entries the bounded tables evict on the way.
#[verifier::spinoff_prover]
#[verifier::rlimit(40)]
pub proof fn law_mac_flood_banned(s: ShieldView, f: Seq<u8>, times: Seq<u64>, states: Seq<ShieldView>)
    requires
        fresh_mac_flood(s, f, times),
        within_caps(s),
        is_run(s, f, times, states),
        times.len() == spec_limits(s.config).mac_limit + 1,
    ensures
        forall|i: int| 0 <= i < times.len() - 1 ==> run_action(f, times, states, i) == XDP_PASS,
        run_action(f, times, states, times.len() - 1) == XDP_DROP,
        states.last().blacklist_mac.contains_key(addr_key(spec_classify(f).unwrap().src_mac)),
{
    let n = times.len() - 1;
    lemma_mac_flood_prefix(s, f, times, states, n);
    let t = times[n];
    assert(times[0] <= t < times[0] + WINDOW_NS);
    assert(shield_step(states[n], f, t, states[n + 1]));
    lemma_mac_flood_step(states[n], f, t, n as u32, times[0], states[n + 1]);
}

/// An expired IPv4 ban blocks nothing: with an entry whose expiry is not
/// after `now` the filter decides and reports as without it, changes the
/// other tables alike, and leaves the entry as it was unless it bans the
/// address anew.
#[verifier::spinoff_prover]
#[verifier::rlimit(50)]
pub proof fn law_expired_ipv4_ban_inert(s: ShieldView, k: u32, f: Seq<u8>, now: u64)
    requires
        s.blacklist.contains_key(k),
        s.blacklist[k] <= now,
    ensures
        ({
            let s2 = ShieldView { blacklist: s.blacklist.remove(k), ..s };
            let r = spec_apex_shield(s, f, now);
            let r2 = spec_apex_shield(s2, f, now);
            &&& r.action == r2.action
            &&& r.event == r2.event
            &&& r.state == ShieldView { blacklist: r.state.blacklist, ..r2.state }
            &&& r2.state.blacklist.contains_key(k) ==> r.state.blacklist == r2.state.blacklist
            &&& !r2.state.blacklist.contains_key(k) ==> r.state.blacklist == r2.state.blacklist.insert(k, s.blacklist[k])
        }),
{
    let s2 = ShieldView { blacklist: s.blacklist.remove(k), ..s };
    let r = spec_apex_shield(s, f, now);
    let r2 = spec_apex_shield(s2, f, now);
    assert(s.blacklist =~= s2.blacklist.insert(k, s.blacklist[k]));
    assert forall|j: u32| ban_active(s.blacklist, j, now) == ban_active(s2.blacklist, j, now) by {}
    if r2.state.blacklist.contains_key(k) {
        assert(r.state.blacklist =~= r2.state.blacklist);
    } else {
        assert(r.state.blacklist =~= r2.state.blacklist.insert(k, s.blacklist[k]));
    }
}

/// An expired IPv6 ban blocks nothing.
#[verifier::spinoff_prover]
#[verifier::rlimit(50)]
pub proof fn law_expired_ipv6_ban_inert(s: ShieldView, k: u128, f: Seq<u8>, now: u64)
    requires
        s.blacklist_v6.contains_key(k),
        s.blacklist_v6[k] <= now,
    ensures
        ({
            let s2 = ShieldView { blacklist_v6: s.blacklist_v6.remove(k), ..s };
            let r = spec_apex_shield(s, f, now);
            let r2 = spec_apex_shield(s2, f, now);
            &&& r.action == r2.action
            &&& r.event == r2.event
            &&& r.state == ShieldView { blacklist_v6: r.state.blacklist_v6, ..r2.state }
            &&& r2.state.blacklist_v6.contains_key(k) ==> r.state.blacklist_v6 == r2.state.blacklist_v6
            &&& !r2.state.blacklist_v6.contains_key(k) ==> r.state.blacklist_v6 == r2.state.blacklist_v6.insert(k, s.blacklist_v6[k])
        }),
{
    let s2 = ShieldView { blacklist_v6: s.blacklist_v6.remove(k), ..s };
    let r = spec_apex_shield(s, f, now);
    let r2 = spec_apex_shield(s2, f, now);
    assert(s.blacklist_v6 =~= s2.blacklist_v6.insert(k, s.blacklist_v6[k]));
    assert forall|j: u128| ban_active(s.blacklist_v6, j, now) == ban_active(s2.blacklist_v6, j, now) by {}
    if r2.state.blacklist_v6.contains_key(k) {
        assert(r.state.blacklist_v6 =~= r2.state.blacklist_v6);
    } else {
        assert(r.state.blacklist_v6 =~= r2.state.blacklist_v6.insert(k, s.blacklist_v6[k]));
    }
}

/// An expired MAC ban blocks nothing.
#[verifier::spinoff_prover]
#[verifier::rlimit(50)]
pub proof fn law_expired_mac_ban_inert(s: ShieldView, k: u128, f: Seq<u8>, now: u64)
    requires
        s.blacklist_mac.contains_key(k),
        s.blacklist_mac[k] <= now,
    ensures
        ({
            let s2 = ShieldView { blacklist_mac: s.blacklist_mac.remove(k), ..s };
            let r = spec_apex_shield(s, f, now);
            let r2 = spec_apex_shield(s2, f, now);
            &&& r.action == r2.action
            &&& r.event == r2.event
            &&& r.state == ShieldView { blacklist_mac: r.state.blacklist_mac, ..r2.state }
            &&& r2.state.blacklist_mac.contains_key(k) ==> r.state.blacklist_mac == r2.state.blacklist_mac
            &&& !r2.state.blacklist_mac.contains_key(k) ==> r.state.blacklist_mac == r2.state.blacklist_mac.insert(k, s.blacklist_mac[k])
        }),
{
    let s2 = ShieldView { blacklist_mac: s.blacklist_mac.remove(k), ..s };
    let r = spec_apex_shield(s, f, now);
    let r2 = spec_apex_shield(s2, f, now);
    assert(s.blacklist_mac =~= s2.blacklist_mac.insert(k, s.blacklist_mac[k]));
    assert forall|j: u128| ban_active(s.blacklist_mac, j, now) == ban_active(s2.blacklist_mac, j, now) by {}
    if r2.state.blacklist_mac.contains_key(k) {
        assert(r.state.blacklist_mac =~= r2.state.blacklist_mac);
    } else {
        assert(r.state.blacklist_mac =~= r2.state.blacklist_mac.insert(k, s.blacklist_mac[k]));
    }
}


/// A ban holds for IPv6 sources too: the next frame from a banned IPv6
/// source that is not allow-listed, arriving before the ban expires, is
/// dropped, whatever the bounded tables evicted on the way.
pub proof fn law_ipv6_ban_holds(s: ShieldView, f1: Seq<u8>, now1: u64, s1: ShieldView, f2: Seq<u8>, now2: u64)
    requires
        within_caps(s),
        shield_step(s, f1, now1, s1),
        spec_classify(f1) matches Some(fr) && fr.l3 matches L3Spec::Ipv6 { src, .. }
            && spec_apex_shield(s, f1, now1).event matches Some(e) && e.ip_version == 6,
        spec_classify(f2) matches Some(fr2) && fr2.l3 matches L3Spec::Ipv6 { src: src2, .. }
            && src2 == spec_classify(f1).unwrap().l3->Ipv6_src
            && !vip6_contains(s.vip_list_v6, src2),
        now1 as int + spec_limits(s.config).ban_duration_ns <= u64::MAX,
        now1 <= now2 < now1 + spec_limits(s.config).ban_duration_ns,
    ensures
        spec_apex_shield(s1, f2, now2).action == XDP_DROP,
{
    let ideal = spec_apex_shield(s, f1, now1).state;
    let fr2 = spec_classify(f2).unwrap();
    let src2 = fr2.l3->Ipv6_src;
    let k = addr_key(src2);
    let exp = u64_specs::wrapping_add(now1, spec_limits(s.config).ban_duration_ns);
    assert(ideal.blacklist_v6 == s.blacklist_v6.insert(k, exp));
    lemma_settle_written(s.blacklist_v6, k, exp, s1.blacklist_v6, s.caps.blacklist_v6);
    assert(s1.vip_list_v6 == s.vip_list_v6);
    law_banned_ipv6_dropped(s1, f2, now2);
}

/// A MAC ban holds: once a frame got its MAC banned (by the MAC limit or the
/// ARP guard), the next frame from that MAC, unless allow-listed, arriving
/// before the ban expires, is dropped, whatever the bounded tables evicted
/// on the way.
pub proof fn law_mac_ban_holds(s: ShieldView, f1: Seq<u8>, now1: u64, s1: ShieldView, f2: Seq<u8>, now2: u64)
    requires
        within_caps(s),
        shield_step(s, f1, now1, s1),
        spec_classify(f1) is Some,
        spec_apex_shield(s, f1, now1).event matches Some(e) && e.ip_version == 0,
        spec_classify(f2) matches Some(fr2) && fr2.src_mac == spec_classify(f1).unwrap().src_mac
            && !s.vip_list_mac.contains_key(addr_key(fr2.src_mac)),
        now1 as int + spec_limits(s.config).ban_duration_ns <= u64::MAX,
        now1 <= now2 < now1 + spec_limits(s.config).ban_duration_ns,
    ensures
        spec_apex_shield(s1, f2, now2).action == XDP_DROP,
{
    let ideal = spec_apex_shield(s, f1, now1).state;
    let fr1 = spec_classify(f1).unwrap();
    let mac = addr_key(fr1.src_mac);
    let exp = u64_specs::wrapping_add(now1, spec_limits(s.config).ban_duration_ns);
    if fr1.l3 is Ipv4 {
        assert(fr1.l3 == (L3Spec::Ipv4 { src: fr1.l3->Ipv4_src, protocol: fr1.l3->Ipv4_protocol, dest_port: fr1.l3->Ipv4_dest_port }));
    } else if fr1.l3 is Ipv6 {
        assert(fr1.l3 == (L3Spec::Ipv6 { src: fr1.l3->Ipv6_src, protocol: fr1.l3->Ipv6_protocol, dest_port: fr1.l3->Ipv6_dest_port }));
    }
    assert(ideal.blacklist_mac == s.blacklist_mac.insert(mac, exp));
    lemma_settle_written(s.blacklist_mac, mac, exp, s1.blacklist_mac, s.caps.blacklist_mac);
    assert(s1.vip_list_mac == s.vip_list_mac);
    law_banned_mac_dropped(s1, f2, now2);
}


/// What a ban report says of an IPv6 frame, read from the frame's bytes: a
/// ban of the MAC (version 0) carries no address, port or protocol; a ban of
/// the IPv6 source (version 6) carries the source address (bytes 22..38),
/// the next header (byte 20) as protocol and the TCP or UDP destination port
/// (the big-endian word at 56, when the whole header is there; else 0).
pub proof fn law_ipv6_ban_event(s: ShieldView, f: Seq<u8>, now: u64)
    requires
        f.len() >= 54,
        f[12] == 0x86,
        f[13] == 0xDD,
        spec_apex_shield(s, f, now).event is Some,
    ensures
        ({
            let e = spec_apex_shield(s, f, now).event.unwrap();
            &&& e.action == ACTION_BAN
            &&& e.src_mac == f.subrange(6, 12)
            &&& e.ip_version == 0 || e.ip_version == 6
            &&& e.ip_version == 0 ==> e.protocol == 0 && e.dest_port == 0 && e.src_ip == Seq::new(16, |i: int| 0u8)
            &&& e.ip_version == 6 ==> e.protocol == f[20] && e.src_ip == f.subrange(22, 38)
            &&& e.ip_version == 6 && ((f[20] == 6 && f.len() >= 74) || (f[20] == 17 && f.len() >= 62))
                ==> e.dest_port == wire16(f, 56)
            &&& e.ip_version == 6 && !((f[20] == 6 && f.len() >= 74) || (f[20] == 17 && f.len() >= 62))
                ==> e.dest_port == 0
        }),
{
    law_classify_ipv6(f);
    let fr = spec_classify(f).unwrap();
    assert(fr.l3 == (L3Spec::Ipv6 { src: fr.l3->Ipv6_src, protocol: fr.l3->Ipv6_protocol, dest_port: fr.l3->Ipv6_dest_port }));
}

/// What a ban report says of a well-formed IPv4 frame, read from the
/// frame's bytes: a ban of the MAC (version 0) carries no address, port or
/// protocol; a ban of the IPv4 source (version 4) carries the source
/// address (bytes 26..30, padded with twelve zeros), the protocol (byte 23)
/// and the TCP or UDP destination port after the header.
pub proof fn law_ipv4_ban_event(s: ShieldView, f: Seq<u8>, now: u64)
    requires
        f.len() >= 34,
        f[12] == 0x08,
        f[13] == 0x00,
        (f[14] % 16) * 4 >= 20,
        14 + (f[14] % 16) * 4 <= f.len(),
        spec_apex_shield(s, f, now).event is Some,
    ensures
        ({
            let e = spec_apex_shield(s, f, now).event.unwrap();
            let h = (f[14] % 16) * 4;
            &&& e.action == ACTION_BAN
            &&& e.src_mac == f.subrange(6, 12)
            &&& e.ip_version == 0 || e.ip_version == 4
            &&& e.ip_version == 0 ==> e.protocol == 0 && e.dest_port == 0 && e.src_ip == Seq::new(16, |i: int| 0u8)
            &&& e.ip_version == 4 ==> e.protocol == f[23] && e.src_ip == f.subrange(26, 30) + Seq::new(12, |i: int| 0u8)
            &&& e.ip_version == 4 && ((f[23] == 6 && 14 + h + 20 <= f.len()) || (f[23] == 17 && 14 + h + 8 <= f.len()))
                ==> e.dest_port == wire16(f, 14 + h + 2)
            &&& e.ip_version == 4 && !((f[23] == 6 && 14 + h + 20 <= f.len()) || (f[23] == 17 && 14 + h + 8 <= f.len()))
                ==> e.dest_port == 0
        }),
{
    law_classify_ipv4(f);
    let fr = spec_classify(f).unwrap();
    assert(fr.l3 == (L3Spec::Ipv4 { src: fr.l3->Ipv4_src, protocol: fr.l3->Ipv4_protocol, dest_port: fr.l3->Ipv4_dest_port }));
}

/// What a ban report says of an ARP frame: either a ban of the MAC by the
/// MAC limit (protocol 0, no address), or a ban by the ARP guard (protocol
/// 20) that carries the sender address (bytes 28..32, padded with twelve
/// zeros); neither carries a port.
pub proof fn law_arp_ban_event(s: ShieldView, f: Seq<u8>, now: u64)
    requires
        f.len() >= 42,
        f[12] == 0x08,
        f[13] == 0x06,
        spec_apex_shield(s, f, now).event is Some,
    ensures
        ({
            let e = spec_apex_shield(s, f, now).event.unwrap();
            &&& e.action == ACTION_BAN
            &&& e.src_mac == f.subrange(6, 12)
            &&& e.ip_version == 0
            &&& e.dest_port == 0
            &&& e.protocol == 0 || e.protocol == 20
            &&& e.protocol == 0 ==> e.src_ip == Seq::new(16, |i: int| 0u8)
            &&& e.protocol == 20 ==> e.src_ip == f.subrange(28, 32) + Seq::new(12, |i: int| 0u8)
        }),
{
    law_classify_arp(f);
}

} // verus!
