use aegis::keys::pack_addr;
use aegis::lru::LruTable;
use aegis::shield::{
    apex_shield, effective_limits, ShieldMaps, ACTION_BAN, ARP_TABLE_CAPACITY, TABLE_CAPACITY, VIP_MAC_CAPACITY,
};
use aegis::types::{GlobalConfig, GlobalStats, LpmKey, LpmKeyV6, XDP_DROP, XDP_PASS};

const SEC: u64 = 1_000_000_000;

fn maps_with(config: Option<GlobalConfig>) -> ShieldMaps {
    ShieldMaps::new(config)
}

fn config(alert_mode: u32, normal: u32, panic: u32, ban_sec: u64, arp: u32, mac: u32) -> GlobalConfig {
    GlobalConfig {
        alert_mode,
        normal_mode_limit: normal,
        panic_mode_limit: panic,
        _padding: 0,
        ban_duration_sec: ban_sec,
        arp_mode_limit: arp,
        mac_mode_limit: mac,
    }
}

const MAC_A: [u8; 6] = [0x02, 0x11, 0x22, 0x33, 0x44, 0x55];
const MAC_B: [u8; 6] = [0x02, 0xaa, 0xbb, 0xcc, 0xdd, 0xee];

fn eth(src: [u8; 6], ether_type: u16) -> Vec<u8> {
    let mut f = vec![0xff, 0xff, 0xff, 0xff, 0xff, 0xff];
    f.extend_from_slice(&src);
    f.push((ether_type >> 8) as u8);
    f.push(ether_type as u8);
    f
}

fn ipv4_udp(src_mac: [u8; 6], src: [u8; 4], dport: u16) -> Vec<u8> {
    let mut f = eth(src_mac, 0x0800);
    f.extend_from_slice(&[0x45, 0, 0, 28, 0, 0, 0, 0, 64, 17, 0, 0]);
    f.extend_from_slice(&src);
    f.extend_from_slice(&[10, 0, 0, 1]);
    f.extend_from_slice(&[0x30, 0x39, (dport >> 8) as u8, dport as u8, 0, 8, 0, 0]);
    f
}

fn ipv4_tcp(src_mac: [u8; 6], src: [u8; 4], dport: u16) -> Vec<u8> {
    let mut f = eth(src_mac, 0x0800);
    f.extend_from_slice(&[0x45, 0, 0, 40, 0, 0, 0, 0, 64, 6, 0, 0]);
    f.extend_from_slice(&src);
    f.extend_from_slice(&[10, 0, 0, 1]);
    f.extend_from_slice(&[0x30, 0x39, (dport >> 8) as u8, dport as u8]);
    f.extend_from_slice(&[0; 16]);
    f
}

fn ipv6_udp(src_mac: [u8; 6], src: [u8; 16], dport: u16) -> Vec<u8> {
    let mut f = eth(src_mac, 0x86DD);
    f.extend_from_slice(&[0x60, 0, 0, 0, 0, 8, 17, 64]);
    f.extend_from_slice(&src);
    f.extend_from_slice(&[0; 16]);
    f.extend_from_slice(&[0x30, 0x39, (dport >> 8) as u8, dport as u8, 0, 8, 0, 0]);
    f
}

fn arp(src_mac: [u8; 6], sender_ip: [u8; 4]) -> Vec<u8> {
    let mut f = eth(src_mac, 0x0806);
    f.extend_from_slice(&[0, 1, 8, 0, 6, 4, 0, 1]);
    f.extend_from_slice(&src_mac);
    f.extend_from_slice(&sender_ip);
    f.extend_from_slice(&[0; 6]);
    f.extend_from_slice(&[10, 0, 0, 1]);
    f
}

const V6_SRC: [u8; 16] = [0x20, 0x01, 0x0d, 0xb8, 0, 0, 0, 0, 0, 0, 0, 0, 0, 0, 0, 7];

#[test]
fn runt_frame_passes_and_is_counted() {
    let mut m = maps_with(None);
    let out = apex_shield(&mut m, &[0u8; 10], 5);
    assert_eq!(out.action, XDP_PASS);
    assert!(out.event.is_none());
    assert_eq!(m.stats.pkt_count, 1);
    assert_eq!(m.stats.drop_count, 0);
    assert!(m.traffic_mac.is_empty());
}

#[test]
fn defaults_without_config() {
    let l = effective_limits(None);
    assert_eq!(l.ip_limit, 2000);
    assert_eq!(l.ban_duration_ns, 300_000_000_000);
    assert_eq!(l.arp_limit, 50);
    assert_eq!(l.mac_limit, 6000);
}

#[test]
fn panic_mode_selects_panic_limit() {
    let l = effective_limits(Some(config(1, 2000, 200, 300, 50, 6000)));
    assert_eq!(l.ip_limit, 200);
    let l = effective_limits(Some(config(0, 2000, 200, 300, 50, 6000)));
    assert_eq!(l.ip_limit, 2000);
    assert_eq!(l.ban_duration_ns, 300 * SEC);
}

#[test]
fn ipv4_flood_is_banned_after_limit() {
    let mut m = maps_with(Some(config(0, 3, 1, 10, 50, 6000)));
    let f = ipv4_udp(MAC_A, [198, 51, 100, 10], 53);
    let t0 = 100 * SEC;
    for i in 0..3 {
        let out = apex_shield(&mut m, &f, t0 + i);
        assert_eq!(out.action, XDP_PASS);
    }
    let out = apex_shield(&mut m, &f, t0 + 3);
    assert_eq!(out.action, XDP_DROP);
    let ev = out.event.expect("ban event");
    assert_eq!(ev.action, ACTION_BAN);
    assert_eq!(ev.ip_version, 4);
    assert_eq!(ev.protocol, 17);
    assert_eq!(ev.dest_port, 53);
    assert_eq!(&ev.src_ip[0..4], &[198, 51, 100, 10]);
    assert_eq!(&ev.src_ip[4..], &[0u8; 12]);
    assert_eq!(ev.src_mac, MAC_A);
    let key = u32::from_be_bytes([198, 51, 100, 10]);
    assert_eq!(m.blacklist.get(&key), Some(&(t0 + 3 + 10 * SEC)));
    assert_eq!(m.stats.pkt_count, 4);
    assert_eq!(m.stats.drop_count, 1);
    // the ban holds: dropped without a new event
    let out = apex_shield(&mut m, &f, t0 + 5 * SEC);
    assert_eq!(out.action, XDP_DROP);
    assert!(out.event.is_none());
    // after expiry the source is counted in a fresh window
    let out = apex_shield(&mut m, &f, t0 + 3 + 10 * SEC);
    assert_eq!(out.action, XDP_PASS);
    assert_eq!(m.traffic.get(&key).unwrap().tokens, 1);
}

#[test]
fn window_resets_after_one_second() {
    let mut m = maps_with(Some(config(0, 2, 1, 10, 50, 6000)));
    let f = ipv4_udp(MAC_A, [203, 0, 113, 5], 80);
    assert_eq!(apex_shield(&mut m, &f, 0).action, XDP_PASS);
    assert_eq!(apex_shield(&mut m, &f, 10).action, XDP_PASS);
    assert_eq!(apex_shield(&mut m, &f, SEC).action, XDP_PASS);
    let key = u32::from_be_bytes([203, 0, 113, 5]);
    let st = m.traffic.get(&key).unwrap();
    assert_eq!(st.tokens, 1);
    assert_eq!(st.last_ts, SEC);
}

#[test]
fn tcp_destination_port_is_reported() {
    let mut m = maps_with(Some(config(0, 0, 0, 1, 50, 6000)));
    let f = ipv4_tcp(MAC_A, [192, 0, 2, 1], 443);
    assert_eq!(apex_shield(&mut m, &f, 1).action, XDP_PASS);
    let out = apex_shield(&mut m, &f, 2);
    assert_eq!(out.action, XDP_DROP);
    let ev = out.event.unwrap();
    assert_eq!(ev.protocol, 6);
    assert_eq!(ev.dest_port, 443);
}

#[test]
fn allow_listed_cidr_bypasses_ip_limits() {
    let mut m = maps_with(Some(config(0, 0, 0, 10, 50, 6000)));
    m.vip_list.push(LpmKey { prefixlen: 24, data: [10, 10, 0, 0] });
    let f = ipv4_udp(MAC_A, [10, 10, 0, 77], 9);
    for i in 0..5 {
        assert_eq!(apex_shield(&mut m, &f, i).action, XDP_PASS);
    }
    assert!(m.traffic.is_empty());
    // outside the prefix the zero limit bans at once on the second frame
    let g = ipv4_udp(MAC_A, [10, 10, 1, 77], 9);
    assert_eq!(apex_shield(&mut m, &g, 10).action, XDP_PASS);
    assert_eq!(apex_shield(&mut m, &g, 11).action, XDP_DROP);
}

#[test]
fn ipv6_flood_is_banned() {
    let mut m = maps_with(Some(config(0, 1, 1, 60, 50, 6000)));
    let f = ipv6_udp(MAC_A, V6_SRC, 5353);
    assert_eq!(apex_shield(&mut m, &f, 1).action, XDP_PASS);
    let out = apex_shield(&mut m, &f, 2);
    assert_eq!(out.action, XDP_DROP);
    let ev = out.event.unwrap();
    assert_eq!(ev.ip_version, 6);
    assert_eq!(ev.src_ip, V6_SRC);
    assert_eq!(ev.dest_port, 5353);
    assert_eq!(m.blacklist_v6.get(&pack_addr(&V6_SRC)), Some(&(2 + 60 * SEC)));
}

#[test]
fn allow_listed_ipv6_prefix_passes() {
    let mut m = maps_with(Some(config(0, 0, 0, 60, 50, 6000)));
    let mut net = [0u8; 16];
    net[0] = 0x20;
    net[1] = 0x01;
    net[2] = 0x0d;
    net[3] = 0xb8;
    m.vip_list_v6.push(LpmKeyV6 { prefixlen: 32, data: net });
    let f = ipv6_udp(MAC_A, V6_SRC, 1);
    for i in 0..4 {
        assert_eq!(apex_shield(&mut m, &f, i).action, XDP_PASS);
    }
}

#[test]
fn mac_flood_is_banned() {
    let mut m = maps_with(Some(config(0, 1000, 100, 5, 50, 2)));
    let f = eth(MAC_B, 0x88B5);
    let mut f = f;
    f.extend_from_slice(&[0; 46]);
    assert_eq!(apex_shield(&mut m, &f, 1).action, XDP_PASS);
    assert_eq!(apex_shield(&mut m, &f, 2).action, XDP_PASS);
    let out = apex_shield(&mut m, &f, 3);
    assert_eq!(out.action, XDP_DROP);
    let ev = out.event.unwrap();
    assert_eq!(ev.ip_version, 0);
    assert_eq!(ev.protocol, 0);
    assert_eq!(ev.src_mac, MAC_B);
    assert_eq!(ev.src_ip, [0u8; 16]);
    assert_eq!(m.blacklist_mac.get(&pack_addr(&MAC_B)), Some(&(3 + 5 * SEC)));
    // banned MAC: dropped before any IP processing
    let g = ipv4_udp(MAC_B, [192, 0, 2, 9], 1);
    let out = apex_shield(&mut m, &g, 4);
    assert_eq!(out.action, XDP_DROP);
    assert!(out.event.is_none());
    assert!(m.traffic.is_empty());
}

#[test]
fn arp_flood_bans_the_mac() {
    let mut m = maps_with(Some(config(0, 1000, 100, 30, 2, 6000)));
    let f = arp(MAC_B, [192, 168, 1, 66]);
    assert_eq!(apex_shield(&mut m, &f, 1).action, XDP_PASS);
    assert_eq!(apex_shield(&mut m, &f, 2).action, XDP_PASS);
    let out = apex_shield(&mut m, &f, 3);
    assert_eq!(out.action, XDP_DROP);
    let ev = out.event.unwrap();
    assert_eq!(ev.protocol, 20);
    assert_eq!(ev.ip_version, 0);
    assert_eq!(&ev.src_ip[0..4], &[192, 168, 1, 66]);
    assert!(m.blacklist_mac.contains_key(&pack_addr(&MAC_B)));
}

#[test]
fn gateway_mac_is_never_limited() {
    let mut m = maps_with(Some(config(0, 1000, 100, 30, 1, 1)));
    m.vip_list_mac.insert(pack_addr(&MAC_A), 1);
    let f = arp(MAC_A, [192, 168, 1, 1]);
    for i in 0..20 {
        let out = apex_shield(&mut m, &f, i);
        assert_eq!(out.action, XDP_PASS);
    }
    assert!(m.traffic_mac.is_empty());
    assert!(m.traffic_arp.is_empty());
    assert!(m.blacklist_mac.is_empty());
    assert_eq!(m.stats.pkt_count, 20);
}

#[test]
fn truncated_ipv4_passes_after_mac_stage() {
    let mut m = maps_with(Some(config(0, 0, 0, 30, 1, 100)));
    let mut f = eth(MAC_A, 0x0800);
    f.extend_from_slice(&[0x45, 0, 0]);
    assert_eq!(apex_shield(&mut m, &f, 1).action, XDP_PASS);
    assert_eq!(m.traffic_mac.get(&pack_addr(&MAC_A)).unwrap().tokens, 1);
    assert!(m.traffic.is_empty());
    // a header length below 20 bytes is malformed too
    let mut g = ipv4_udp(MAC_A, [192, 0, 2, 3], 7);
    g[14] = 0x44;
    assert_eq!(apex_shield(&mut m, &g, 2).action, XDP_PASS);
    assert!(m.traffic.is_empty());
}

#[test]
fn ipv4_options_shift_the_port() {
    let mut m = maps_with(Some(config(0, 0, 0, 30, 1, 100)));
    let mut f = eth(MAC_A, 0x0800);
    f.extend_from_slice(&[0x46, 0, 0, 32, 0, 0, 0, 0, 64, 17, 0, 0, 192, 0, 2, 4, 10, 0, 0, 1]);
    f.extend_from_slice(&[1, 1, 1, 1]);
    f.extend_from_slice(&[0, 1, 0x1f, 0x90, 0, 8, 0, 0]);
    apex_shield(&mut m, &f, 1);
    let ev = apex_shield(&mut m, &f, 2).event.unwrap();
    assert_eq!(ev.dest_port, 8080);
}

#[test]
fn drop_counter_wraps() {
    let mut st = GlobalStats { pkt_count: 3, drop_count: u64::MAX };
    assert_eq!(aegis::shield::drop_and_count(&mut st), XDP_DROP);
    assert_eq!(st.drop_count, 0);
    assert_eq!(st.pkt_count, 3);
}

#[test]
fn expired_ban_blocks_nothing() {
    let mut m = maps_with(Some(config(0, 5, 1, 10, 50, 6000)));
    let key = u32::from_be_bytes([198, 51, 100, 20]);
    m.blacklist.insert(key, 500);
    let f = ipv4_udp(MAC_A, [198, 51, 100, 20], 53);
    let out = apex_shield(&mut m, &f, 500);
    assert_eq!(out.action, XDP_PASS);
    assert_eq!(m.blacklist.get(&key), Some(&500));
    assert_eq!(m.traffic.get(&key).unwrap().tokens, 1);
    let out = apex_shield(&mut m, &f, 499 + 10);
    assert_eq!(out.action, XDP_PASS);
}

#[test]
fn tables_start_empty_with_their_capacities() {
    let m = ShieldMaps::new(None);
    assert_eq!(m.blacklist.capacity_exec(), 524288);
    assert_eq!(TABLE_CAPACITY, 524288);
    assert_eq!(m.traffic_arp.capacity_exec(), ARP_TABLE_CAPACITY);
    assert_eq!(ARP_TABLE_CAPACITY, 1024);
    assert_eq!(m.vip_list_mac.capacity_exec(), VIP_MAC_CAPACITY);
    assert_eq!(VIP_MAC_CAPACITY, 256);
    assert!(m.traffic.is_empty());
    assert!(m.blacklist_mac.is_empty());
    assert_eq!(m.stats.pkt_count, 0);
}

#[test]
fn full_table_evicts_its_oldest_entry() {
    let mut t: LruTable<u32, u64> = LruTable::new(2);
    t.insert(1, 10);
    t.insert(2, 20);
    t.insert(1, 11);
    assert_eq!(t.len(), 2);
    assert_eq!(t.get(&1), Some(&11));
    t.insert(3, 30);
    assert_eq!(t.len(), 2);
    assert!(!t.contains_key(&1));
    assert_eq!(t.get(&2), Some(&20));
    assert_eq!(t.get(&3), Some(&30));
    t.insert(4, 40);
    assert!(!t.contains_key(&2));
    assert!(t.contains_key(&3));
    assert!(t.contains_key(&4));
}

#[test]
fn ban_list_under_pressure_keeps_the_newest_ban() {
    let mut m = maps_with(Some(config(0, 0, 0, 10, 50, 6000)));
    m.blacklist = LruTable::new(1);
    let a = ipv4_udp(MAC_A, [198, 51, 100, 1], 53);
    let b = ipv4_udp(MAC_A, [198, 51, 100, 2], 53);
    assert_eq!(apex_shield(&mut m, &a, 1).action, XDP_PASS);
    assert_eq!(apex_shield(&mut m, &a, 2).action, XDP_DROP);
    assert_eq!(apex_shield(&mut m, &b, 3).action, XDP_PASS);
    let out = apex_shield(&mut m, &b, 4);
    assert_eq!(out.action, XDP_DROP);
    assert!(out.event.is_some());
    let ka = u32::from_be_bytes([198, 51, 100, 1]);
    let kb = u32::from_be_bytes([198, 51, 100, 2]);
    assert_eq!(m.blacklist.len(), 1);
    assert!(!m.blacklist.contains_key(&ka));
    assert_eq!(m.blacklist.get(&kb), Some(&(4 + 10 * SEC)));
    // the newest ban holds
    assert_eq!(apex_shield(&mut m, &b, 5).action, XDP_DROP);
}
