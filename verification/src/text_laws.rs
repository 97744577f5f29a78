//! Properties of the text readers: trimming settles, prefix lengths and
//! dotted-quad and MAC addresses read back as the numbers they were
//! written from.

use vstd::prelude::*;
use crate::text::{
    all_digits, decimal, digit_char, digit_value, digits_value, dotted_quad, hex_char, mac_text,
    spec_parse_bounded, spec_parse_uint, split_acc, split_on, unicode_whitespace,
};
use crate::procfs::mac_byte;
use crate::cidr::{cidr_split, first_index_of, mask_of, trim, trim_end, trim_start};

verus! {

proof fn lemma_trim_start_head(s: Seq<char>)
    ensures
        trim_start(s).len() == 0 || !unicode_whitespace(trim_start(s)[0]),
    decreases s.len(),
{
    if s.len() > 0 && unicode_whitespace(s[0]) {
        lemma_trim_start_head(s.drop_first());
    }
}

proof fn lemma_trim_end_tail(s: Seq<char>)
    ensures
        trim_end(s).len() == 0 || !unicode_whitespace(trim_end(s).last()),
    decreases s.len(),
{
    if s.len() > 0 && unicode_whitespace(s.last()) {
        lemma_trim_end_tail(s.drop_last());
    }
}

proof fn lemma_trim_end_keeps_head(t: Seq<char>)
    requires
        t.len() > 0,
        !unicode_whitespace(t[0]),
    ensures
        trim_end(t).len() > 0,
        trim_end(t)[0] == t[0],
    decreases t.len(),
{
    if unicode_whitespace(t.last()) {
        assert(t.len() > 1);
        lemma_trim_end_keeps_head(t.drop_last());
    }
}

/// Trimming settles: trimmed text trims to itself, so an allow-list entry
/// and its trimmed text split alike.
pub proof fn law_trim_settles(s: Seq<char>)
    ensures
        trim(trim(s)) == trim(s),
        cidr_split(trim(trim(s))) == cidr_split(trim(s)),
        mask_of(cidr_split(trim(trim(s))).1) == mask_of(cidr_split(trim(s)).1),
{
    let u = trim(s);
    lemma_trim_start_head(s);
    lemma_trim_end_tail(trim_start(s));
    if trim_start(s).len() > 0 {
        lemma_trim_end_keeps_head(trim_start(s));
    }
    assert(trim_start(u) == u);
    assert(trim_end(u) == u);
}

proof fn lemma_digit_char(d: nat)
    requires
        d < 10,
    ensures
        digit_value(digit_char(d)) == d,
        '0' <= digit_char(d) <= '9',
{
}

/// `decimal(n)` is a non-empty run of decimal digits that reads back as `n`.
pub proof fn lemma_decimal_reads_back(n: nat)
    ensures
        decimal(n).len() > 0,
        forall|i: int| 0 <= i < decimal(n).len() ==> '0' <= #[trigger] decimal(n)[i] <= '9',
        all_digits(decimal(n), 10),
        digits_value(decimal(n), 10) == n,
        spec_parse_uint(decimal(n), 10) == Some(n),
    decreases n,
{
    if n < 10 {
        lemma_digit_char(n);
        assert(decimal(n) == seq![digit_char(n)]);
        assert(decimal(n).drop_last() =~= Seq::<char>::empty());
        assert(digits_value(decimal(n), 10) == digits_value(Seq::<char>::empty(), 10) * 10 + digit_value(digit_char(n)));
        assert('0' <= decimal(n)[0] <= '9');
    } else {
        lemma_decimal_reads_back(n / 10);
        lemma_digit_char(n % 10);
        let d = decimal(n / 10);
        assert(decimal(n) == d.push(digit_char(n % 10)));
        assert(decimal(n).drop_last() =~= d);
        assert forall|i: int| 0 <= i < decimal(n).len() implies '0' <= #[trigger] decimal(n)[i] <= '9' by {
            if i < d.len() {
                assert(decimal(n)[i] == d[i]);
            }
        }
        assert forall|i: int| 0 <= i < decimal(n).len() implies digit_value(#[trigger] decimal(n)[i]) < 10 by {
            if i < d.len() {
                assert(decimal(n)[i] == d[i]);
            }
        }
        assert(digits_value(decimal(n), 10) == digits_value(d, 10) * 10 + digit_value(digit_char(n % 10)));
        assert((n / 10) * 10 + n % 10 == n);
        assert('0' <= decimal(n)[0] <= '9');
    }
}

/// Prefix lengths read back: an entry written as an address text `a` (no
/// `'/'`, no whitespace at either end) followed by `'/'` and a prefix
/// length `n` in decimal splits into `a` and `n`; written without the
/// prefix, it splits into `a` alone.
pub proof fn law_cidr_text_round_trip(a: Seq<char>, n: u32)
    requires
        !a.contains('/'),
        a.len() > 0 ==> !unicode_whitespace(a[0]) && !unicode_whitespace(a.last()),
    ensures
        ({
            let t = a + seq!['/'] + decimal(n as nat);
            &&& trim(t) == t
            &&& cidr_split(trim(t)).0 == a
            &&& mask_of(cidr_split(trim(t)).1) == Some(Some(n))
        }),
        a.len() > 0 ==> cidr_split(trim(a)) == (a, None::<Seq<char>>),
{
    let d = decimal(n as nat);
    lemma_decimal_reads_back(n as nat);
    let t = a + seq!['/'] + d;
    let i = a.len() as int;
    assert(t[i] == '/');
    assert(!unicode_whitespace(t[0]));
    assert(t.last() == d.last());
    assert(!unicode_whitespace(t.last()));
    assert(trim_start(t) == t);
    assert(trim_end(t) == t);
    assert forall|j: int| 0 <= j < i implies t[j] != '/' by {
        assert(t[j] == a[j]);
    }
    assert(first_index_of(t, '/', i));
    assert(t.contains('/'));
    let k = choose|k: int| first_index_of(t, '/', k);
    assert(k == i) by {
        if k < i {
            assert(t[k] != '/');
        } else if k > i {
            assert(t[i] != '/');
        }
    }
    assert(t.take(i) =~= a);
    assert(t.skip(i + 1) =~= d);
    assert(spec_parse_bounded(d, 10, 0xffff_ffff) == Some(n as nat));
    if a.len() > 0 {
        assert(trim_start(a) == a);
        assert(trim_end(a) == a);
    }
}

proof fn lemma_split_acc_plain(a: Seq<char>, sep: char)
    requires
        !a.contains(sep),
    ensures
        split_acc(a, sep) == (Seq::<Seq<char>>::empty(), a),
    decreases a.len(),
{
    if a.len() > 0 {
        assert(!a.drop_last().contains(sep)) by {
            if a.drop_last().contains(sep) {
                let j = choose|j: int| 0 <= j < a.drop_last().len() && a.drop_last()[j] == sep;
                assert(a[j] == sep);
            }
        }
        lemma_split_acc_plain(a.drop_last(), sep);
        assert(a.last() != sep) by {
            assert(a[a.len() - 1] == a.last());
        }
        assert(a.drop_last().push(a.last()) =~= a);
    }
}

proof fn lemma_split_acc_join(a: Seq<char>, b: Seq<char>, sep: char)
    requires
        !a.contains(sep),
    ensures
        split_acc(a + seq![sep] + b, sep) == (seq![a] + split_acc(b, sep).0, split_acc(b, sep).1),
    decreases b.len(),
{
    let t = a + seq![sep] + b;
    if b.len() == 0 {
        lemma_split_acc_plain(a, sep);
        assert(t.drop_last() =~= a);
        assert(Seq::<Seq<char>>::empty().push(a) =~= seq![a] + Seq::<Seq<char>>::empty());
    } else {
        lemma_split_acc_join(a, b.drop_last(), sep);
        assert(t.drop_last() =~= a + seq![sep] + b.drop_last());
        let (p, c) = split_acc(b.drop_last(), sep);
        assert((seq![a] + p).push(c) =~= seq![a] + p.push(c));
    }
}

proof fn lemma_split_join(a: Seq<char>, b: Seq<char>, sep: char)
    requires
        !a.contains(sep),
    ensures
        split_on(a + seq![sep] + b, sep) == seq![a] + split_on(b, sep),
{
    lemma_split_acc_join(a, b, sep);
    let (p, c) = split_acc(b, sep);
    assert((seq![a] + p).push(c) =~= seq![a] + p.push(c));
}

proof fn lemma_decimal_no_char(n: nat, c: char)
    requires
        !('0' <= c <= '9'),
    ensures
        !decimal(n).contains(c),
{
    lemma_decimal_reads_back(n);
    if decimal(n).contains(c) {
        let j = choose|j: int| 0 <= j < decimal(n).len() && decimal(n)[j] == c;
        assert('0' <= decimal(n)[j] <= '9');
    }
}

/// A dotted-quad address text reads back: split at its dots it gives the
/// four octets in decimal, and each part reads as its octet.
pub proof fn law_dotted_quad_reads_back(o: Seq<u8>)
    requires
        o.len() == 4,
    ensures
        split_on(dotted_quad(o), '.') == seq![decimal(o[0] as nat), decimal(o[1] as nat), decimal(o[2] as nat), decimal(o[3] as nat)],
        forall|i: int| 0 <= i < 4 ==> spec_parse_bounded(#[trigger] decimal(o[i] as nat), 10, 255) == Some(o[i] as nat),
{
    let d0 = decimal(o[0] as nat);
    let d1 = decimal(o[1] as nat);
    let d2 = decimal(o[2] as nat);
    let d3 = decimal(o[3] as nat);
    let dot = seq!['.'];
    lemma_decimal_no_char(o[0] as nat, '.');
    lemma_decimal_no_char(o[1] as nat, '.');
    lemma_decimal_no_char(o[2] as nat, '.');
    lemma_decimal_no_char(o[3] as nat, '.');
    assert(dotted_quad(o) =~= d0 + dot + (d1 + dot + (d2 + dot + d3)));
    lemma_split_join(d0, d1 + dot + (d2 + dot + d3), '.');
    lemma_split_join(d1, d2 + dot + d3, '.');
    lemma_split_join(d2, d3, '.');
    lemma_split_acc_plain(d3, '.');
    assert(split_on(d3, '.') =~= seq![d3]);
    assert(seq![d0] + (seq![d1] + (seq![d2] + seq![d3])) =~= seq![d0, d1, d2, d3]);
    assert forall|i: int| 0 <= i < 4 implies spec_parse_bounded(#[trigger] decimal(o[i] as nat), 10, 255) == Some(o[i] as nat) by {
        lemma_decimal_reads_back(o[i] as nat);
    }
}


/// The two hexadecimal digits of a byte, high digit first.
spec fn hex_pair(b: u8) -> Seq<char> {
    seq![hex_char(b as nat / 16), hex_char(b as nat % 16)]
}

proof fn lemma_hex_char(d: nat)
    requires
        d < 16,
    ensures
        digit_value(hex_char(d)) == d,
        hex_char(d) != ':',
        hex_char(d) != '+',
        !unicode_whitespace(hex_char(d)),
{
}

proof fn lemma_hex_pair_reads_back(b: u8)
    ensures
        !hex_pair(b).contains(':'),
        mac_byte(hex_pair(b)) == b,
{
    let p = hex_pair(b);
    let hi = b as nat / 16;
    let lo = b as nat % 16;
    lemma_hex_char(hi);
    lemma_hex_char(lo);
    if p.contains(':') {
        let j = choose|j: int| 0 <= j < p.len() && p[j] == ':';
        assert(j == 0 || j == 1);
    }
    assert(all_digits(p, 16));
    assert(p.drop_last() =~= seq![hex_char(hi)]);
    assert(p.drop_last().drop_last() =~= Seq::<char>::empty());
    let one = seq![hex_char(hi)];
    assert(one.drop_last() =~= Seq::<char>::empty());
    assert(one.last() == hex_char(hi));
    assert(digits_value(Seq::<char>::empty(), 16) == 0);
    assert(digits_value(one, 16) == digits_value(one.drop_last(), 16) * 16 + digit_value(one.last()));
    assert(digits_value(one, 16) == hi);
    assert(p.last() == hex_char(lo));
    assert(digits_value(p, 16) == digits_value(p.drop_last(), 16) * 16 + digit_value(p.last()));
    assert(digits_value(p, 16) == hi * 16 + lo);
    assert(spec_parse_uint(p, 16) == Some(b as nat));
}

proof fn lemma_mac_text_shape(m: Seq<u8>)
    requires
        m.len() == 6,
    ensures
        mac_text(m) == hex_pair(m[0]) + seq![':'] + (hex_pair(m[1]) + seq![':'] + (hex_pair(m[2]) + seq![':']
            + (hex_pair(m[3]) + seq![':'] + (hex_pair(m[4]) + seq![':'] + hex_pair(m[5]))))),
{
    let h = |j: int| hex_char(m[j] as nat / 16);
    let l = |j: int| hex_char(m[j] as nat % 16);
    let flat = seq![h(0), l(0), ':', h(1), l(1), ':', h(2), l(2), ':', h(3), l(3), ':', h(4), l(4), ':', h(5), l(5)];
    assert(mac_text(m) =~= flat) by {
        assert forall|i: int| 0 <= i < 17 implies #[trigger] mac_text(m)[i] == flat[i] by {
            if i % 3 == 2 {
            } else if i % 3 == 0 {
                assert(mac_text(m)[i] == h(i / 3));
            } else {
                assert(mac_text(m)[i] == l(i / 3));
            }
        }
    }
    let c = seq![':'];
    let t4 = hex_pair(m[4]) + c + hex_pair(m[5]);
    let t3 = hex_pair(m[3]) + c + t4;
    let t2 = hex_pair(m[2]) + c + t3;
    let t1 = hex_pair(m[1]) + c + t2;
    assert(t4 =~= seq![h(4), l(4), ':', h(5), l(5)]);
    assert(t3 =~= seq![h(3), l(3), ':', h(4), l(4), ':', h(5), l(5)]);
    assert(t2 =~= seq![h(2), l(2), ':', h(3), l(3), ':', h(4), l(4), ':', h(5), l(5)]);
    assert(t1 =~= seq![h(1), l(1), ':', h(2), l(2), ':', h(3), l(3), ':', h(4), l(4), ':', h(5), l(5)]);
    assert(hex_pair(m[0]) + c + t1 =~= flat);
}

/// A MAC address written as text reads back: split at its colons it gives
/// six parts, the two hexadecimal digits of each byte, and each part reads
/// as its byte, as the ARP-table reader reads a hardware address.
#[verifier::spinoff_prover]
#[verifier::rlimit(40)]
pub proof fn law_mac_text_reads_back(m: Seq<u8>)
    requires
        m.len() == 6,
    ensures
        split_on(mac_text(m), ':').len() == 6,
        forall|j: int| 0 <= j < 6 ==> mac_byte(#[trigger] split_on(mac_text(m), ':')[j]) == m[j],
{
    let p0 = hex_pair(m[0]);
    let p1 = hex_pair(m[1]);
    let p2 = hex_pair(m[2]);
    let p3 = hex_pair(m[3]);
    let p4 = hex_pair(m[4]);
    let p5 = hex_pair(m[5]);
    let c = seq![':'];
    lemma_hex_pair_reads_back(m[0]);
    lemma_hex_pair_reads_back(m[1]);
    lemma_hex_pair_reads_back(m[2]);
    lemma_hex_pair_reads_back(m[3]);
    lemma_hex_pair_reads_back(m[4]);
    lemma_hex_pair_reads_back(m[5]);
    let t4 = p4 + c + p5;
    let t3 = p3 + c + t4;
    let t2 = p2 + c + t3;
    let t1 = p1 + c + t2;
    lemma_mac_text_shape(m);
    lemma_split_acc_plain(p5, ':');
    assert(split_on(p5, ':') =~= seq![p5]);
    lemma_split_join(p4, p5, ':');
    assert(split_on(t4, ':') =~= seq![p4, p5]);
    lemma_split_join(p3, t4, ':');
    assert(split_on(t3, ':') =~= seq![p3, p4, p5]);
    lemma_split_join(p2, t3, ':');
    assert(split_on(t2, ':') =~= seq![p2, p3, p4, p5]);
    lemma_split_join(p1, t2, ':');
    assert(split_on(t1, ':') =~= seq![p1, p2, p3, p4, p5]);
    lemma_split_join(p0, t1, ':');
    assert(split_on(mac_text(m), ':') =~= seq![p0, p1, p2, p3, p4, p5]);
}

} // verus!
