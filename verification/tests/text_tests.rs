use aegis::cidr::{classify_cidr, split_cidr, CidrError, ParsedIp};
use aegis::events::{action_label, event_source, protocol_label, EventSource};
use aegis::procfs::{get_gateway_ip, get_mac_for_ip};
use aegis::text::{fields_of, format_ipv4, format_mac, lines_of, parse_uint, split_chars};
use aegis::types::MitigationEvent;

fn s(v: Vec<char>) -> String {
    v.into_iter().collect()
}

fn chars(t: &str) -> Vec<char> {
    t.chars().collect()
}

#[test]
fn radix_numbers() {
    assert_eq!(parse_uint(&chars("0100007F"), 16, 0xffff_ffff), Some(0x0100007F));
    assert_eq!(parse_uint(&chars("+24"), 10, 0xffff_ffff), Some(24));
    assert_eq!(parse_uint(&chars("ff"), 16, 255), Some(255));
    assert_eq!(parse_uint(&chars("FF"), 16, 255), Some(255));
    assert_eq!(parse_uint(&chars("100"), 16, 255), None);
    assert_eq!(parse_uint(&chars("4294967296"), 10, 0xffff_ffff), None);
    assert_eq!(parse_uint(&chars("4294967295"), 10, 0xffff_ffff), Some(4294967295));
    assert_eq!(parse_uint(&chars(""), 10, 100), None);
    assert_eq!(parse_uint(&chars("+"), 10, 100), None);
    assert_eq!(parse_uint(&chars("-1"), 10, 100), None);
    assert_eq!(parse_uint(&chars("1g"), 16, 1000), None);
    assert_eq!(parse_uint(&chars(" 1"), 10, 100), None);
}

#[test]
fn dotted_quad_and_mac_text() {
    assert_eq!(s(format_ipv4([192, 168, 0, 1])), "192.168.0.1");
    assert_eq!(s(format_ipv4([10, 0, 255, 7])), "10.0.255.7");
    assert_eq!(s(format_mac([0x00, 0x1a, 0xff, 0x0b, 0xc0, 0x9e])), "00:1a:ff:0b:c0:9e");
}

const ROUTE: &str = "Iface\tDestination\tGateway \tFlags\tRefCnt\tUse\tMetric\tMask\t\tMTU\tWindow\tIRTT\n\
eth0\t0000A8C0\t00000000\t0001\t0\t0\t100\t00FFFFFF\t0\t0\t0\n\
eth0\t00000000\t0100A8C0\t0003\t0\t0\t100\t00000000\t0\t0\t0\n";

#[test]
fn gateway_from_routing_table() {
    assert_eq!(get_gateway_ip(ROUTE), Some([192, 168, 0, 1]));
    assert_eq!(s(format_ipv4(get_gateway_ip(ROUTE).unwrap())), "192.168.0.1");
}

#[test]
fn no_gateway_without_default_route() {
    let t = "Iface\tDestination\tGateway\n eth0\t0000A8C0\t00000000\t0001\n";
    assert_eq!(get_gateway_ip(t), None);
    assert_eq!(get_gateway_ip(""), None);
    // the header line is never read as a route
    assert_eq!(get_gateway_ip("x 00000000 0100A8C0 0003\n"), None);
    // a default route whose gateway is not hexadecimal is passed over
    let t2 = "h\ne 00000000 zz 1\ne 00000000 0202000A 1\n";
    assert_eq!(get_gateway_ip(t2), Some([10, 0, 2, 2]));
}

const ARP: &str = "IP address       HW type     Flags       HW address            Mask     Device\n\
192.168.0.7      0x1         0x2         aa:bb:cc:dd:ee:01     *        eth0\n\
192.168.0.1      0x1         0x0         00:00:00:00:00:00     *        eth0\n\
192.168.0.1      0x1         0x2         52:54:00:12:35:02     *        eth0\r\n";

#[test]
fn mac_from_arp_table() {
    assert_eq!(get_mac_for_ip(ARP, "192.168.0.1"), Some([0x52, 0x54, 0x00, 0x12, 0x35, 0x02]));
    assert_eq!(get_mac_for_ip(ARP, "192.168.0.7"), Some([0xaa, 0xbb, 0xcc, 0xdd, 0xee, 0x01]));
    assert_eq!(get_mac_for_ip(ARP, "192.168.0.9"), None);
    assert_eq!(get_mac_for_ip("h\n10.0.0.1 a b 11:22:33\n", "10.0.0.1"), None);
    // a part that is not hexadecimal reads as zero
    assert_eq!(get_mac_for_ip("h\n10.0.0.1 a b zz:22:33:44:55:66\n", "10.0.0.1"), Some([0, 0x22, 0x33, 0x44, 0x55, 0x66]));
}

#[test]
fn cidr_text_is_trimmed_and_split() {
    let (a, m) = split_cidr("  10.10.0.0/24 \t");
    assert_eq!(s(a), "10.10.0.0");
    assert_eq!(m, Some(Some(24)));
    let (a, m) = split_cidr("\u{2003}fe80::1\n");
    assert_eq!(s(a), "fe80::1");
    assert_eq!(m, None);
    let (a, m) = split_cidr("10.0.0.0/x/8");
    assert_eq!(s(a), "10.0.0.0");
    assert_eq!(m, Some(None));
    let (_, m) = split_cidr("10.0.0.0/");
    assert_eq!(m, Some(None));
}

#[test]
fn cidr_decisions() {
    match classify_cidr(Some(Some(24)), Some([10, 10, 0, 0]), None) {
        Ok(ParsedIp::V4(24, [10, 10, 0, 0])) => {}
        other => panic!("unexpected {:?}", other),
    }
    match classify_cidr(None, Some([10, 10, 0, 1]), None) {
        Ok(ParsedIp::V4(32, _)) => {}
        other => panic!("unexpected {:?}", other),
    }
    let v6 = [0xfe, 0x80, 0, 0, 0, 0, 0, 0, 0, 0, 0, 0, 0, 0, 0, 0];
    match classify_cidr(Some(Some(60)), None, Some(v6)) {
        Ok(ParsedIp::V6(60, o)) => assert_eq!(o, v6),
        other => panic!("unexpected {:?}", other),
    }
    match classify_cidr(None, None, Some(v6)) {
        Ok(ParsedIp::V6(128, _)) => {}
        other => panic!("unexpected {:?}", other),
    }
    assert_eq!(classify_cidr(Some(Some(33)), Some([1, 2, 3, 4]), None).unwrap_err(), CidrError::PrefixTooLongV4(33));
    assert_eq!(classify_cidr(Some(Some(129)), None, Some(v6)).unwrap_err(), CidrError::PrefixTooLongV6(129));
    assert_eq!(classify_cidr(Some(None), Some([1, 2, 3, 4]), None).unwrap_err(), CidrError::BadPrefix);
    assert_eq!(classify_cidr(None, None, None).unwrap_err(), CidrError::BadAddress);
    assert_eq!(classify_cidr(Some(Some(8)), None, None).unwrap_err(), CidrError::BadAddress);
}

#[test]
fn event_labels() {
    assert_eq!(protocol_label(4, 6), "TCP");
    assert_eq!(protocol_label(4, 17), "UDP");
    assert_eq!(protocol_label(4, 1), "ICMP");
    assert_eq!(protocol_label(4, 58), "OTHER");
    assert_eq!(protocol_label(6, 58), "ICMPv6");
    assert_eq!(protocol_label(6, 1), "OTHER");
    assert_eq!(protocol_label(0, 20), "ARP");
    assert_eq!(protocol_label(0, 0), "RAW");
    assert_eq!(action_label(1), "DROP");
    assert_eq!(action_label(2), "BAN");
    assert_eq!(action_label(7), "UNKNOWN");
}

#[test]
fn event_sources() {
    let mut ip = [0u8; 16];
    ip[0] = 198;
    ip[1] = 51;
    ip[2] = 100;
    ip[3] = 10;
    let e = MitigationEvent { src_ip: ip, src_mac: [0; 6], dest_port: 0, protocol: 17, action: 2, ip_version: 4 };
    match event_source(&e) {
        EventSource::Ipv4(a) => assert_eq!(a, [198, 51, 100, 10]),
        other => panic!("unexpected {:?}", other),
    }
    let e6 = MitigationEvent { ip_version: 6, ..e };
    match event_source(&e6) {
        EventSource::Ipv6(a) => assert_eq!(a, ip),
        other => panic!("unexpected {:?}", other),
    }
    let l2 = MitigationEvent { ip_version: 0, ..e };
    assert!(matches!(event_source(&l2), EventSource::L2Frame));
}

#[test]
fn lines_and_fields() {
    let ls = lines_of(&chars("a b\r\n\nc\rd\ne"));
    let ls: Vec<String> = ls.into_iter().map(s).collect();
    assert_eq!(ls, vec!["a b", "", "c\rd", "e"]);
    assert!(lines_of(&chars("")).is_empty());
    assert_eq!(lines_of(&chars("x\n")).len(), 1);
    let fs: Vec<String> = fields_of(&chars("  eth0\t00000000  0100A8C0 \u{a0}x ")).into_iter().map(s).collect();
    assert_eq!(fs, vec!["eth0", "00000000", "0100A8C0", "x"]);
    let ps: Vec<String> = split_chars(&chars("aa::bb:"), ':').into_iter().map(s).collect();
    assert_eq!(ps, vec!["aa", "", "bb", ""]);
}

#[test]
fn whitespace_matches_std() {
    let mut checked = 0u32;
    for v in 0u32..0x3100 {
        if let Some(c) = char::from_u32(v) {
            assert_eq!(aegis::text::is_whitespace(c), c.is_whitespace(), "at U+{:04X}", v);
            checked += 1;
        }
    }
    for c in ['\u{feff}', '\u{200b}', '\u{10ffff}', 'x'] {
        assert_eq!(aegis::text::is_whitespace(c), c.is_whitespace());
    }
    assert!(checked > 0x3000);
}

#[test]
fn trimmed_entry_splits_alike() {
    let (a1, m1) = split_cidr(" \t10.0.0.1\n");
    let (a2, m2) = split_cidr("10.0.0.1");
    assert_eq!(a1, a2);
    assert_eq!(m1, m2);
    assert_eq!(s(a1), "10.0.0.1");
    let (a, m) = split_cidr(&format!("{}/{}", "2001:db8::", 48));
    assert_eq!(s(a), "2001:db8::");
    assert_eq!(m, Some(Some(48)));
}
