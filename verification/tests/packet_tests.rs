use aegis::halt::PanicInfo;
use aegis::lpm::{prefix_matches, vip4_lookup};
use aegis::packet::{classify_frame, L3Info};
use aegis::types::{arphdr, ethhdr, iphdr, ipv6hdr, tcphdr, udphdr, LpmKey};

fn frame() -> Vec<u8> {
    let mut f = vec![1, 2, 3, 4, 5, 6, 0xa, 0xb, 0xc, 0xd, 0xe, 0xf, 0x08, 0x00];
    f.extend_from_slice(&[0x45, 0x10, 0x00, 0x28, 0x12, 0x34, 0x40, 0x00, 64, 6, 0xbe, 0xef, 192, 0, 2, 1, 10, 0, 0, 9]);
    f.extend_from_slice(&[0x01, 0xbb, 0x00, 0x50, 0, 0, 0, 1, 0, 0, 0, 2, 0x50, 0x02, 0xff, 0xff, 0x12, 0x34, 0, 0]);
    f
}

#[test]
fn header_readers() {
    let f = frame();
    let e = ethhdr::read(&f, 0).unwrap();
    assert_eq!(e.h_dest, [1, 2, 3, 4, 5, 6]);
    assert_eq!(e.h_source, [0xa, 0xb, 0xc, 0xd, 0xe, 0xf]);
    assert_eq!(e.h_proto, 0x0800);
    let ip = iphdr::read(&f, 14).unwrap();
    assert_eq!(ip._bitfield_1, 0x45);
    assert_eq!(ip.tot_len, 40);
    assert_eq!(ip.id, 0x1234);
    assert_eq!(ip.frag_off, 0x4000);
    assert_eq!(ip.ttl, 64);
    assert_eq!(ip.protocol, 6);
    assert_eq!(ip.check, 0xbeef);
    assert_eq!(ip.saddr, 0xc0000201);
    assert_eq!(ip.daddr, 0x0a000009);
    let t = tcphdr::read(&f, 34).unwrap();
    assert_eq!(t.source, 443);
    assert_eq!(t.dest, 80);
    assert_eq!(t.seq, 1);
    assert_eq!(t.ack_seq, 2);
    assert_eq!(t._bitfield_1, 0x5002);
    assert_eq!(t.window, 0xffff);
    assert_eq!(t.check, 0x1234);
    let u = udphdr::read(&f, 34).unwrap();
    assert_eq!(u.len, 0);
    assert!(tcphdr::read(&f, 35).is_none());
    assert!(ethhdr::read(&f[..13], 0).is_none());
    assert!(ethhdr::read(&f, 100).is_none());
}

#[test]
fn arp_and_ipv6_readers() {
    let mut a = vec![0, 1, 8, 0, 6, 4, 0, 2];
    a.extend_from_slice(&[1, 2, 3, 4, 5, 6, 10, 0, 0, 1, 7, 8, 9, 10, 11, 12, 10, 0, 0, 2]);
    let h = arphdr::read(&a, 0).unwrap();
    assert_eq!(h.ar_hrd, 1);
    assert_eq!(h.ar_pro, 0x0800);
    assert_eq!(h.ar_hln, 6);
    assert_eq!(h.ar_pln, 4);
    assert_eq!(h.ar_op, 2);
    assert_eq!(h.ar_sha, [1, 2, 3, 4, 5, 6]);
    assert_eq!(h.ar_sip, [10, 0, 0, 1]);
    assert_eq!(h.ar_tha, [7, 8, 9, 10, 11, 12]);
    assert_eq!(h.ar_tip, [10, 0, 0, 2]);
    let mut v = vec![0x60, 0, 0, 0, 0, 20, 6, 255];
    v.extend_from_slice(&[0xfe, 0x80, 0, 0, 0, 0, 0, 0, 0, 0, 0, 0, 0, 0, 0, 1]);
    v.extend_from_slice(&[0xfe, 0x80, 0, 0, 0, 0, 0, 0, 0, 0, 0, 0, 0, 0, 0, 2]);
    let h6 = ipv6hdr::read(&v, 0).unwrap();
    assert_eq!(h6.version_class_flow, [0x60, 0, 0, 0]);
    assert_eq!(h6.payload_len, 20);
    assert_eq!(h6.nexthdr, 6);
    assert_eq!(h6.hop_limit, 255);
    assert_eq!(h6.saddr[15], 1);
    assert_eq!(h6.daddr[15], 2);
    assert!(ipv6hdr::read(&v[..39], 0).is_none());
}

#[test]
fn frame_classification() {
    let f = frame();
    let info = classify_frame(&f).unwrap();
    assert_eq!(info.src_mac, [0xa, 0xb, 0xc, 0xd, 0xe, 0xf]);
    assert_eq!(info.ether_type, 0x0800);
    match info.l3 {
        L3Info::Ipv4 { src, protocol, dest_port } => {
            assert_eq!(src, [192, 0, 2, 1]);
            assert_eq!(protocol, 6);
            assert_eq!(dest_port, 80);
        }
        other => panic!("unexpected {:?}", other),
    }
    // TCP header cut short: the port is 0
    match classify_frame(&f[..40]).unwrap().l3 {
        L3Info::Ipv4 { dest_port, .. } => assert_eq!(dest_port, 0),
        other => panic!("unexpected {:?}", other),
    }
    assert!(matches!(classify_frame(&f[..20]).unwrap().l3, L3Info::Truncated));
    let mut other = f.clone();
    other[12] = 0x88;
    other[13] = 0xcc;
    assert!(matches!(classify_frame(&other).unwrap().l3, L3Info::Other));
    assert!(classify_frame(&f[..13]).is_none());
}

#[test]
fn prefix_match_bits() {
    assert!(prefix_matches(24, &[10, 10, 0, 0], &[10, 10, 0, 200]));
    assert!(!prefix_matches(24, &[10, 10, 0, 0], &[10, 10, 1, 200]));
    assert!(prefix_matches(0, &[1, 2, 3, 4], &[9, 9, 9, 9]));
    assert!(prefix_matches(9, &[10, 0x80, 0, 0], &[10, 0xff, 0, 0]));
    assert!(!prefix_matches(9, &[10, 0x80, 0, 0], &[10, 0x7f, 0, 0]));
    assert!(!prefix_matches(33, &[1, 2, 3, 4], &[1, 2, 3, 4]));
    assert!(prefix_matches(32, &[1, 2, 3, 4], &[1, 2, 3, 4]));
    let list = vec![LpmKey { prefixlen: 16, data: [172, 16, 0, 0] }, LpmKey { prefixlen: 32, data: [8, 8, 8, 8] }];
    assert!(vip4_lookup(&list, &[172, 16, 99, 1]));
    assert!(vip4_lookup(&list, &[8, 8, 8, 8]));
    assert!(!vip4_lookup(&list, &[8, 8, 8, 9]));
}

#[test]
fn panic_handler_does_nothing() {
    aegis::halt::panic(&PanicInfo { line: 1, column: 1 });
}
