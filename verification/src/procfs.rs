//! Reading the default gateway from the kernel routing table and a MAC
//! address from the kernel ARP table (the text of `/proc/net/route` and
//! `/proc/net/arp`).

use vstd::prelude::*;
use crate::text::{
    chars_eq, chars_of, fields, fields_of, lines_of, parse_uint, spec_parse_bounded, split_chars,
    split_on, text_lines,
};

verus! {

/// The lines after the header line.
pub open spec fn skip_header(ls: Seq<Seq<char>>) -> Seq<Seq<char>> {
    if ls.len() == 0 { ls } else { ls.drop_first() }
}

/// Little-endian bytes of a 32-bit number: the address in network order
/// that the routing table prints as host-order hexadecimal.
pub open spec fn le_octets(v: nat) -> Seq<u8> {
    seq![(v % 256) as u8, (v / 256 % 256) as u8, (v / 65536 % 256) as u8, (v / 16777216 % 256) as u8]
}

/// The destination column of a default route.
pub open spec fn default_destination() -> Seq<char> {
    seq!['0', '0', '0', '0', '0', '0', '0', '0']
}

/// The gateway of a routing-table line: a line with at least four fields
/// (interface, destination, gateway, flags, ...) whose destination is
/// `00000000` and whose gateway is a 32-bit hexadecimal number.
pub open spec fn route_line_gateway(line: Seq<char>) -> Option<Seq<u8>> {
    let f = fields(line);
    if f.len() >= 4 && f[1] == default_destination() {
        match spec_parse_bounded(f[2], 16, 0xffff_ffff) {
            Some(v) => Some(le_octets(v)),
            None => None,
        }
    } else {
        None
    }
}

/// The gateway of the first line that has one.
pub open spec fn route_gateway(lines: Seq<Seq<char>>) -> Option<Seq<u8>>
    decreases lines.len(),
{
    if lines.len() == 0 {
        None
    } else {
        match route_line_gateway(lines[0]) {
            Some(g) => Some(g),
            None => route_gateway(lines.drop_first()),
        }
    }
}

/// The default gateway named by the routing table `content`, header line
/// excluded.
pub open spec fn spec_get_gateway_ip(content: Seq<char>) -> Option<Seq<u8>> {
    route_gateway(skip_header(text_lines(content)))
}

proof fn lemma_route_step(ls: Seq<Seq<char>>, i: int)
    requires
        0 <= i < ls.len(),
        route_line_gateway(ls[i]) is None,
    ensures
        route_gateway(ls.subrange(i, ls.len() as int)) == route_gateway(ls.subrange(i + 1, ls.len() as int)),
{
    assert(ls.subrange(i, ls.len() as int).drop_first() =~= ls.subrange(i + 1, ls.len() as int));
}

fn le_octets_exec(v: u64) -> (r: [u8; 4])
    requires
        v <= 0xffff_ffff,
    ensures
        r@ == le_octets(v as nat),
{
    let r = [(v % 256) as u8, (v / 256 % 256) as u8, (v / 65536 % 256) as u8, (v / 16777216 % 256) as u8];
    assert(r@ =~= le_octets(v as nat));
    r
}

fn route_line_gateway_exec(line: &[char]) -> (r: Option<[u8; 4]>)
    ensures
        match r {
            Some(g) => route_line_gateway(line@) == Some(g@),
            None => route_line_gateway(line@) is None,
        },
{
    let f = fields_of(line);
    proof {
        assert(f@.map_values(|l: Vec<char>| l@).len() == f@.len());
    }
    if f.len() >= 4 {
        let zeros = ['0'; 8];
        assert(zeros@ =~= default_destination());
        assert(f@[1]@ == fields(line@)[1]);
        if chars_eq(f[1].as_slice(), &zeros) {
            assert(f@[2]@ == fields(line@)[2]);
            match parse_uint(f[2].as_slice(), 16, 0xffff_ffff) {
                Some(v) => return Some(le_octets_exec(v)),
                None => return None,
            }
        }
    }
    None
}

/// The default gateway named by the text of the routing table.
pub fn get_gateway_ip(route_table: &str) -> (r: Option<[u8; 4]>)
    ensures
        match r {
            Some(g) => spec_get_gateway_ip(route_table@) == Some(g@),
            None => spec_get_gateway_ip(route_table@) is None,
        },
{
    let text = chars_of(route_table);
    let lines = lines_of(text.as_slice());
    let ghost ls = text_lines(text@);
    proof {
        assert(lines@.map_values(|l: Vec<char>| l@).len() == lines@.len());
        if ls.len() > 0 {
            assert(skip_header(ls) =~= ls.subrange(1, ls.len() as int));
        }
    }
    if lines.len() == 0 {
        return None;
    }
    let mut i: usize = 1;
    while i < lines.len()
        invariant
            1 <= i <= lines@.len(),
            ls == lines@.map_values(|l: Vec<char>| l@),
            ls.len() == lines@.len(),
            spec_get_gateway_ip(route_table@) == route_gateway(ls.subrange(i as int, ls.len() as int)),
        decreases lines@.len() - i,
    {
        assert(lines@[i as int]@ == ls[i as int]);
        match route_line_gateway_exec(lines[i].as_slice()) {
            Some(g) => {
                assert(ls.subrange(i as int, ls.len() as int)[0] == ls[i as int]);
                return Some(g);
            },
            None => {
                proof {
                    lemma_route_step(ls, i as int);
                }
            },
        }
        i = i + 1;
    }
    None
}

/// One byte of a MAC address written in hexadecimal; 0 when it does not
/// read as a byte.
pub open spec fn mac_byte(p: Seq<char>) -> u8 {
    match spec_parse_bounded(p, 16, 255) {
        Some(v) => v as u8,
        None => 0,
    }
}

/// The MAC address of an ARP-table line for `ip`: a line with at least four
/// fields whose first field is `ip` and whose fourth field has six
/// colon-separated parts, not all of them zero.
pub open spec fn arp_line_mac(line: Seq<char>, ip: Seq<char>) -> Option<Seq<u8>> {
    let f = fields(line);
    if f.len() >= 4 && f[0] == ip {
        let parts = split_on(f[3], ':');
        let mac = Seq::new(6, |i: int| mac_byte(parts[i]));
        if parts.len() == 6 && mac != Seq::new(6, |i: int| 0u8) {
            Some(mac)
        } else {
            None
        }
    } else {
        None
    }
}

/// The MAC address of the first line that gives one for `ip`.
pub open spec fn arp_mac(lines: Seq<Seq<char>>, ip: Seq<char>) -> Option<Seq<u8>>
    decreases lines.len(),
{
    if lines.len() == 0 {
        None
    } else {
        match arp_line_mac(lines[0], ip) {
            Some(m) => Some(m),
            None => arp_mac(lines.drop_first(), ip),
        }
    }
}

/// The MAC address that the ARP table `content` gives for `ip`, header
/// line excluded.
pub open spec fn spec_get_mac_for_ip(content: Seq<char>, ip: Seq<char>) -> Option<Seq<u8>> {
    arp_mac(skip_header(text_lines(content)), ip)
}

proof fn lemma_arp_step(ls: Seq<Seq<char>>, i: int, ip: Seq<char>)
    requires
        0 <= i < ls.len(),
        arp_line_mac(ls[i], ip) is None,
    ensures
        arp_mac(ls.subrange(i, ls.len() as int), ip) == arp_mac(ls.subrange(i + 1, ls.len() as int), ip),
{
    assert(ls.subrange(i, ls.len() as int).drop_first() =~= ls.subrange(i + 1, ls.len() as int));
}

fn mac_byte_exec(p: &[char]) -> (r: u8)
    ensures
        r == mac_byte(p@),
{
    match parse_uint(p, 16, 255) {
        Some(v) => v as u8,
        None => 0,
    }
}

fn arp_line_mac_exec(line: &[char], ip: &[char]) -> (r: Option<[u8; 6]>)
    ensures
        match r {
            Some(m) => arp_line_mac(line@, ip@) == Some(m@),
            None => arp_line_mac(line@, ip@) is None,
        },
{
    let f = fields_of(line);
    proof {
        assert(f@.map_values(|l: Vec<char>| l@).len() == f@.len());
    }
    if f.len() < 4 {
        return None;
    }
    assert(f@[0]@ == fields(line@)[0]);
    assert(f@[3]@ == fields(line@)[3]);
    if !chars_eq(f[0].as_slice(), ip) {
        return None;
    }
    let parts = split_chars(f[3].as_slice(), ':');
    let ghost ps = split_on(f@[3]@, ':');
    proof {
        assert(parts@.map_values(|l: Vec<char>| l@).len() == parts@.len());
    }
    if parts.len() != 6 {
        return None;
    }
    let mut mac = [0u8; 6];
    let mut i: usize = 0;
    while i < 6
        invariant
            i <= 6,
            parts@.len() == 6,
            ps == parts@.map_values(|l: Vec<char>| l@),
            forall|j: int| 0 <= j < i ==> mac@[j] == mac_byte(ps[j]),
        decreases 6 - i,
    {
        assert(parts@[i as int]@ == ps[i as int]);
        let b = mac_byte_exec(parts[i].as_slice());
        mac[i] = b;
        i = i + 1;
    }
    let ghost want = Seq::new(6, |j: int| mac_byte(ps[j]));
    assert(mac@ =~= want);
    if mac[0] == 0 && mac[1] == 0 && mac[2] == 0 && mac[3] == 0 && mac[4] == 0 && mac[5] == 0 {
        assert(want =~= Seq::new(6, |j: int| 0u8));
        return None;
    }
    assert(want != Seq::new(6, |j: int| 0u8)) by {
        if want == Seq::new(6, |j: int| 0u8) {
            assert(want[0] == 0 && want[1] == 0 && want[2] == 0 && want[3] == 0 && want[4] == 0 && want[5] == 0);
        }
    }
    Some(mac)
}

/// The MAC address that the text of the ARP table gives for the address
/// written `ip_str`.
pub fn get_mac_for_ip(arp_table: &str, ip_str: &str) -> (r: Option<[u8; 6]>)
    ensures
        match r {
            Some(m) => spec_get_mac_for_ip(arp_table@, ip_str@) == Some(m@),
            None => spec_get_mac_for_ip(arp_table@, ip_str@) is None,
        },
{
    let ip = chars_of(ip_str);
    let text = chars_of(arp_table);
    let lines = lines_of(text.as_slice());
    let ghost ls = text_lines(text@);
    proof {
        assert(lines@.map_values(|l: Vec<char>| l@).len() == lines@.len());
        if ls.len() > 0 {
            assert(skip_header(ls) =~= ls.subrange(1, ls.len() as int));
        }
    }
    if lines.len() == 0 {
        return None;
    }
    let mut i: usize = 1;
    while i < lines.len()
        invariant
            1 <= i <= lines@.len(),
            ls == lines@.map_values(|l: Vec<char>| l@),
            ls.len() == lines@.len(),
            ip@ == ip_str@,
            spec_get_mac_for_ip(arp_table@, ip_str@) == arp_mac(ls.subrange(i as int, ls.len() as int), ip_str@),
        decreases lines@.len() - i,
    {
        assert(lines@[i as int]@ == ls[i as int]);
        match arp_line_mac_exec(lines[i].as_slice(), ip.as_slice()) {
            Some(m) => {
                assert(ls.subrange(i as int, ls.len() as int)[0] == ls[i as int]);
                return Some(m);
            },
            None => {
                proof {
                    lemma_arp_step(ls, i as int, ip_str@);
                }
            },
        }
        i = i + 1;
    }
    None
}


/// `line` is an ARP-table line for exactly the address `ip` whose hardware
/// address field reads as the nonzero MAC `m`: its first field is `ip`, it
/// has at least four fields, and its fourth field has six colon-separated
/// parts whose hexadecimal values are the bytes of `m`.
pub open spec fn arp_entry(line: Seq<char>, ip: Seq<char>, m: Seq<u8>) -> bool {
    let f = fields(line);
    let parts = split_on(f[3], ':');
    &&& f.len() >= 4
    &&& f[0] == ip
    &&& parts.len() == 6
    &&& m.len() == 6
    &&& forall|j: int| 0 <= j < 6 ==> m[j] == #[trigger] mac_byte(parts[j])
    &&& exists|j: int| 0 <= j < 6 && m[j] != 0
}

proof fn lemma_arp_entry_is_line_mac(line: Seq<char>, ip: Seq<char>, m: Seq<u8>)
    ensures
        arp_entry(line, ip, m) <==> arp_line_mac(line, ip) == Some(m),
{
    let f = fields(line);
    let parts = split_on(f[3], ':');
    let mac = Seq::new(6, |i: int| mac_byte(parts[i]));
    let zero = Seq::new(6, |i: int| 0u8);
    if arp_entry(line, ip, m) {
        assert(m =~= mac);
        let j = choose|j: int| 0 <= j < 6 && m[j] != 0;
        assert(mac[j] != zero[j]);
    }
    if arp_line_mac(line, ip) == Some(m) {
        assert(forall|j: int| 0 <= j < 6 ==> m[j] == #[trigger] mac_byte(parts[j]));
        if forall|j: int| 0 <= j < 6 ==> m[j] == 0 {
            assert(mac =~= zero);
        }
    }
}

proof fn lemma_arp_mac_lines(lines: Seq<Seq<char>>, ip: Seq<char>)
    ensures
        arp_mac(lines, ip) matches Some(m) ==> exists|i: int| 0 <= i < lines.len() && #[trigger] arp_entry(lines[i], ip, m),
        (exists|i: int, m: Seq<u8>| 0 <= i < lines.len() && #[trigger] arp_entry(lines[i], ip, m)) ==> arp_mac(lines, ip) is Some,
        forall|i: int, m: Seq<u8>| 0 <= i < lines.len() && #[trigger] arp_entry(lines[i], ip, m)
            && (forall|j: int| 0 <= j < i ==> arp_line_mac(#[trigger] lines[j], ip) is None)
            ==> arp_mac(lines, ip) == Some(m),
    decreases lines.len(),
{
    if lines.len() > 0 {
        let rest = lines.drop_first();
        lemma_arp_mac_lines(rest, ip);
        match arp_line_mac(lines[0], ip) {
            Some(m0) => {
                lemma_arp_entry_is_line_mac(lines[0], ip, m0);
                assert forall|i: int, m: Seq<u8>| 0 <= i < lines.len() && #[trigger] arp_entry(lines[i], ip, m)
                    && (forall|j: int| 0 <= j < i ==> arp_line_mac(#[trigger] lines[j], ip) is None)
                    implies arp_mac(lines, ip) == Some(m) by {
                    lemma_arp_entry_is_line_mac(lines[i], ip, m);
                    if i > 0 {
                        assert(arp_line_mac(lines[0], ip) is None);
                    }
                }
            },
            None => {
                if arp_mac(lines, ip) is Some {
                    let m = arp_mac(lines, ip).unwrap();
                    let i = choose|i: int| 0 <= i < rest.len() && #[trigger] arp_entry(rest[i], ip, m);
                    assert(lines[i + 1] == rest[i]);
                }
                if exists|i: int, m: Seq<u8>| 0 <= i < lines.len() && #[trigger] arp_entry(lines[i], ip, m) {
                    let (i, m) = choose|i: int, m: Seq<u8>| 0 <= i < lines.len() && #[trigger] arp_entry(lines[i], ip, m);
                    lemma_arp_entry_is_line_mac(lines[i], ip, m);
                    assert(i > 0);
                    assert(rest[i - 1] == lines[i]);
                }
                assert forall|i: int, m: Seq<u8>| 0 <= i < lines.len() && #[trigger] arp_entry(lines[i], ip, m)
                    && (forall|j: int| 0 <= j < i ==> arp_line_mac(#[trigger] lines[j], ip) is None)
                    implies arp_mac(lines, ip) == Some(m) by {
                    lemma_arp_entry_is_line_mac(lines[i], ip, m);
                    assert(i > 0);
                    assert(rest[i - 1] == lines[i]);
                    assert forall|j: int| 0 <= j < i - 1 implies arp_line_mac(#[trigger] rest[j], ip) is None by {
                        assert(rest[j] == lines[j + 1]);
                    }
                }
            },
        }
    }
}

/// The ARP table gives a MAC for `ip` only from a line (after the header)
/// whose first field is exactly `ip` and whose hardware address reads as
/// that MAC; lines for other addresses, even ones that begin with `ip`, are
/// never used.  If some line after the header is such an entry, a MAC is
/// given, and it is that of the first such line.
pub proof fn law_arp_mac_from_own_line(content: Seq<char>, ip: Seq<char>)
    ensures
        ({
            let ls = text_lines(content);
            &&& spec_get_mac_for_ip(content, ip) matches Some(m)
                ==> exists|i: int| 1 <= i < ls.len() && #[trigger] arp_entry(ls[i], ip, m)
            &&& (exists|i: int, m: Seq<u8>| 1 <= i < ls.len() && #[trigger] arp_entry(ls[i], ip, m))
                ==> spec_get_mac_for_ip(content, ip) is Some
            &&& forall|i: int, m: Seq<u8>| 1 <= i < ls.len() && #[trigger] arp_entry(ls[i], ip, m)
                && (forall|j: int, m2: Seq<u8>| 1 <= j < i ==> !#[trigger] arp_entry(ls[j], ip, m2))
                ==> spec_get_mac_for_ip(content, ip) == Some(m)
        }),
{
    let ls = text_lines(content);
    let body = skip_header(ls);
    lemma_arp_mac_lines(body, ip);
    if ls.len() > 0 {
        assert(body =~= ls.subrange(1, ls.len() as int));
        if spec_get_mac_for_ip(content, ip) is Some {
            let m = spec_get_mac_for_ip(content, ip).unwrap();
            let i = choose|i: int| 0 <= i < body.len() && #[trigger] arp_entry(body[i], ip, m);
            assert(ls[i + 1] == body[i]);
        }
        if exists|i: int, m: Seq<u8>| 1 <= i < ls.len() && #[trigger] arp_entry(ls[i], ip, m) {
            let (i, m) = choose|i: int, m: Seq<u8>| 1 <= i < ls.len() && #[trigger] arp_entry(ls[i], ip, m);
            assert(body[i - 1] == ls[i]);
        }
        assert forall|i: int, m: Seq<u8>| 1 <= i < ls.len() && #[trigger] arp_entry(ls[i], ip, m)
            && (forall|j: int, m2: Seq<u8>| 1 <= j < i ==> !#[trigger] arp_entry(ls[j], ip, m2))
            implies spec_get_mac_for_ip(content, ip) == Some(m) by {
            assert(body[i - 1] == ls[i]);
            assert forall|j: int| 0 <= j < i - 1 implies arp_line_mac(#[trigger] body[j], ip) is None by {
                assert(body[j] == ls[j + 1]);
                if arp_line_mac(body[j], ip) is Some {
                    let m2 = arp_line_mac(body[j], ip).unwrap();
                    lemma_arp_entry_is_line_mac(body[j], ip, m2);
                    assert(!arp_entry(ls[j + 1], ip, m2));
                }
            }
        }
    }
}


/// `line` is a routing-table line of a default route whose gateway is `g`:
/// at least four fields, the destination (second field) is `00000000`, and
/// the gateway (third field) is a 32-bit hexadecimal number whose bytes,
/// least significant first, are `g` (the address in network order).
pub open spec fn default_route_entry(line: Seq<char>, g: Seq<u8>) -> bool {
    let f = fields(line);
    &&& f.len() >= 4
    &&& f[1] == seq!['0', '0', '0', '0', '0', '0', '0', '0']
    &&& spec_parse_bounded(f[2], 16, 0xffff_ffff) matches Some(v)
    &&& g == seq![(v % 256) as u8, (v / 256 % 256) as u8, (v / 65536 % 256) as u8, (v / 16777216 % 256) as u8]
}

proof fn lemma_route_entry_is_line_gateway(line: Seq<char>, g: Seq<u8>)
    ensures
        default_route_entry(line, g) <==> route_line_gateway(line) == Some(g),
{
}

proof fn lemma_route_gateway_lines(lines: Seq<Seq<char>>)
    ensures
        route_gateway(lines) matches Some(g) ==> exists|i: int| 0 <= i < lines.len() && #[trigger] default_route_entry(lines[i], g),
        (exists|i: int, g: Seq<u8>| 0 <= i < lines.len() && #[trigger] default_route_entry(lines[i], g)) ==> route_gateway(lines) is Some,
        forall|i: int, g: Seq<u8>| 0 <= i < lines.len() && #[trigger] default_route_entry(lines[i], g)
            && (forall|j: int| 0 <= j < i ==> route_line_gateway(#[trigger] lines[j]) is None)
            ==> route_gateway(lines) == Some(g),
    decreases lines.len(),
{
    if lines.len() > 0 {
        let rest = lines.drop_first();
        lemma_route_gateway_lines(rest);
        match route_line_gateway(lines[0]) {
            Some(g0) => {
                lemma_route_entry_is_line_gateway(lines[0], g0);
                assert forall|i: int, g: Seq<u8>| 0 <= i < lines.len() && #[trigger] default_route_entry(lines[i], g)
                    && (forall|j: int| 0 <= j < i ==> route_line_gateway(#[trigger] lines[j]) is None)
                    implies route_gateway(lines) == Some(g) by {
                    lemma_route_entry_is_line_gateway(lines[i], g);
                    if i > 0 {
                        assert(route_line_gateway(lines[0]) is None);
                    }
                }
            },
            None => {
                if route_gateway(lines) is Some {
                    let g = route_gateway(lines).unwrap();
                    let i = choose|i: int| 0 <= i < rest.len() && #[trigger] default_route_entry(rest[i], g);
                    assert(lines[i + 1] == rest[i]);
                }
                if exists|i: int, g: Seq<u8>| 0 <= i < lines.len() && #[trigger] default_route_entry(lines[i], g) {
                    let (i, g) = choose|i: int, g: Seq<u8>| 0 <= i < lines.len() && #[trigger] default_route_entry(lines[i], g);
                    lemma_route_entry_is_line_gateway(lines[i], g);
                    assert(i > 0);
                    assert(rest[i - 1] == lines[i]);
                }
                assert forall|i: int, g: Seq<u8>| 0 <= i < lines.len() && #[trigger] default_route_entry(lines[i], g)
                    && (forall|j: int| 0 <= j < i ==> route_line_gateway(#[trigger] lines[j]) is None)
                    implies route_gateway(lines) == Some(g) by {
                    lemma_route_entry_is_line_gateway(lines[i], g);
                    assert(i > 0);
                    assert(rest[i - 1] == lines[i]);
                    assert forall|j: int| 0 <= j < i - 1 implies route_line_gateway(#[trigger] rest[j]) is None by {
                        assert(rest[j] == lines[j + 1]);
                    }
                }
            },
        }
    }
}

/// The routing table gives a gateway only from a default-route line after
/// the header (destination `00000000`), as the bytes of that line's gateway
/// field; if such a line exists a gateway is given, and it is that of the
/// first such line.
pub proof fn law_gateway_from_default_route(content: Seq<char>)
    ensures
        ({
            let ls = text_lines(content);
            &&& spec_get_gateway_ip(content) matches Some(g)
                ==> exists|i: int| 1 <= i < ls.len() && #[trigger] default_route_entry(ls[i], g)
            &&& (exists|i: int, g: Seq<u8>| 1 <= i < ls.len() && #[trigger] default_route_entry(ls[i], g))
                ==> spec_get_gateway_ip(content) is Some
            &&& forall|i: int, g: Seq<u8>| 1 <= i < ls.len() && #[trigger] default_route_entry(ls[i], g)
                && (forall|j: int, g2: Seq<u8>| 1 <= j < i ==> !#[trigger] default_route_entry(ls[j], g2))
                ==> spec_get_gateway_ip(content) == Some(g)
        }),
{
    let ls = text_lines(content);
    let body = skip_header(ls);
    lemma_route_gateway_lines(body);
    if ls.len() > 0 {
        assert(body =~= ls.subrange(1, ls.len() as int));
        if spec_get_gateway_ip(content) is Some {
            let g = spec_get_gateway_ip(content).unwrap();
            let i = choose|i: int| 0 <= i < body.len() && #[trigger] default_route_entry(body[i], g);
            assert(ls[i + 1] == body[i]);
        }
        if exists|i: int, g: Seq<u8>| 1 <= i < ls.len() && #[trigger] default_route_entry(ls[i], g) {
            let (i, g) = choose|i: int, g: Seq<u8>| 1 <= i < ls.len() && #[trigger] default_route_entry(ls[i], g);
            assert(body[i - 1] == ls[i]);
        }
        assert forall|i: int, g: Seq<u8>| 1 <= i < ls.len() && #[trigger] default_route_entry(ls[i], g)
            && (forall|j: int, g2: Seq<u8>| 1 <= j < i ==> !#[trigger] default_route_entry(ls[j], g2))
            implies spec_get_gateway_ip(content) == Some(g) by {
            assert(body[i - 1] == ls[i]);
            assert forall|j: int| 0 <= j < i - 1 implies route_line_gateway(#[trigger] body[j]) is None by {
                assert(body[j] == ls[j + 1]);
                if route_line_gateway(body[j]) is Some {
                    let g2 = route_line_gateway(body[j]).unwrap();
                    lemma_route_entry_is_line_gateway(body[j], g2);
                    assert(!default_route_entry(ls[j + 1], g2));
                }
            }
        }
    }
}

} // verus!
