//! Allow-list entries written as an address or a CIDR block
//! (`10.0.0.0/24`, `fe80::/60`, `10.10.0.1`).

use vstd::prelude::*;
use crate::text::{chars_of, is_whitespace, parse_uint, spec_parse_bounded, unicode_whitespace};

verus! {

/// `s` without its leading whitespace.
pub open spec fn trim_start(s: Seq<char>) -> Seq<char>
    decreases s.len(),
{
    if s.len() > 0 && unicode_whitespace(s[0]) {
        trim_start(s.drop_first())
    } else {
        s
    }
}

/// `s` without its trailing whitespace.
pub open spec fn trim_end(s: Seq<char>) -> Seq<char>
    decreases s.len(),
{
    if s.len() > 0 && unicode_whitespace(s.last()) {
        trim_end(s.drop_last())
    } else {
        s
    }
}

/// `s` without leading and trailing whitespace, as `str::trim` gives it.
pub open spec fn trim(s: Seq<char>) -> Seq<char> {
    trim_end(trim_start(s))
}

/// `i` is the position of the first `c` in `s`.
pub open spec fn first_index_of(s: Seq<char>, c: char, i: int) -> bool {
    &&& 0 <= i < s.len()
    &&& s[i] == c
    &&& forall|j: int| 0 <= j < i ==> s[j] != c
}

/// The text before the first `'/'` and, when there is one, the text after
/// it, as `str::split_once('/')` gives them.
pub open spec fn cidr_split(s: Seq<char>) -> (Seq<char>, Option<Seq<char>>) {
    if s.contains('/') {
        let i = choose|i: int| first_index_of(s, '/', i);
        (s.take(i), Some(s.skip(i + 1)))
    } else {
        (s, None)
    }
}

/// The prefix length part of an entry: `None` without a `'/'`, otherwise
/// the decimal 32-bit number after it, if it reads as one.
pub open spec fn mask_of(mask_text: Option<Seq<char>>) -> Option<Option<u32>> {
    match mask_text {
        None => None,
        Some(t) => match spec_parse_bounded(t, 10, 0xffff_ffff) {
            Some(v) => Some(Some(v as u32)),
            None => Some(None),
        },
    }
}

proof fn lemma_trim_start(s: Seq<char>, a: int)
    requires
        0 <= a <= s.len(),
        forall|j: int| 0 <= j < a ==> unicode_whitespace(s[j]),
        a == s.len() || !unicode_whitespace(s[a]),
    ensures
        trim_start(s) == s.skip(a),
    decreases a,
{
    if a > 0 {
        lemma_trim_start(s.drop_first(), a - 1);
        assert(s.drop_first().skip(a - 1) =~= s.skip(a));
    } else {
        assert(s.skip(0) =~= s);
    }
}

proof fn lemma_trim_end(s: Seq<char>, b: int)
    requires
        0 <= b <= s.len(),
        forall|j: int| b <= j < s.len() ==> unicode_whitespace(s[j]),
        b == 0 || !unicode_whitespace(s[b - 1]),
    ensures
        trim_end(s) == s.take(b),
    decreases s.len() - b,
{
    if b < s.len() {
        lemma_trim_end(s.drop_last(), b);
        assert(s.drop_last().take(b) =~= s.take(b));
    } else {
        assert(s.take(b) =~= s);
    }
}

/// The characters of `s` without leading and trailing whitespace.
pub fn trim_chars(s: &[char]) -> (r: Vec<char>)
    ensures
        r@ == trim(s@),
{
    let n = s.len();
    let mut a: usize = 0;
    while a < n && is_whitespace(s[a])
        invariant
            a <= n == s@.len(),
            forall|j: int| 0 <= j < a ==> unicode_whitespace(s@[j]),
        decreases n - a,
    {
        a = a + 1;
    }
    proof {
        lemma_trim_start(s@, a as int);
    }
    let ghost t = s@.skip(a as int);
    let mut b: usize = n;
    while b > a && is_whitespace(s[b - 1])
        invariant
            a <= b <= n == s@.len(),
            t == s@.skip(a as int),
            forall|j: int| b <= j < n ==> unicode_whitespace(s@[j]),
        decreases b - a,
    {
        b = b - 1;
    }
    proof {
        lemma_trim_end(t, b - a);
    }
    let mut out: Vec<char> = Vec::new();
    let mut k: usize = a;
    while k < b
        invariant
            a <= k <= b <= n == s@.len(),
            out@ == s@.subrange(a as int, k as int),
        decreases b - k,
    {
        out.push(s[k]);
        k = k + 1;
        assert(out@ =~= s@.subrange(a as int, k as int));
    }
    assert(t.take(b - a) =~= s@.subrange(a as int, b as int));
    out
}

/// An allow-list entry split into address text and prefix length: the
/// trimmed text before the first `'/'`, and `mask_of` the text after it.
pub fn split_cidr(cidr_str: &str) -> (r: (Vec<char>, Option<Option<u32>>))
    ensures
        r.0@ == cidr_split(trim(cidr_str@)).0,
        r.1 == mask_of(cidr_split(trim(cidr_str@)).1),
{
    let all = chars_of(cidr_str);
    let s = trim_chars(all.as_slice());
    let n = s.len();
    let mut i: usize = 0;
    while i < n && s[i] != '/'
        invariant
            i <= n == s@.len(),
            forall|j: int| 0 <= j < i ==> s@[j] != '/',
        decreases n - i,
    {
        i = i + 1;
    }
    if i == n {
        assert(!s@.contains('/'));
        return (s, None);
    }
    assert(first_index_of(s@, '/', i as int));
    assert(s@.contains('/'));
    let ghost k = choose|k: int| first_index_of(s@, '/', k);
    assert(k == i) by {
        if k < i {
            assert(s@[k] != '/');
        } else if k > i {
            assert(s@[i as int] != '/');
        }
    }
    let mut addr: Vec<char> = Vec::new();
    let mut j: usize = 0;
    while j < i
        invariant
            j <= i < n == s@.len(),
            addr@ == s@.take(j as int),
        decreases i - j,
    {
        addr.push(s[j]);
        j = j + 1;
        assert(addr@ =~= s@.take(j as int));
    }
    let mut mask_text: Vec<char> = Vec::new();
    let mut m: usize = i + 1;
    while m < n
        invariant
            i + 1 <= m <= n == s@.len(),
            mask_text@ == s@.subrange(i + 1, m as int),
        decreases n - m,
    {
        mask_text.push(s[m]);
        m = m + 1;
        assert(mask_text@ =~= s@.subrange(i + 1, m as int));
    }
    assert(mask_text@ =~= s@.skip(i + 1));
    let mask = match parse_uint(mask_text.as_slice(), 10, 0xffff_ffff) {
        Some(v) => Some(Some(v as u32)),
        None => Some(None),
    };
    (addr, mask)
}

/// A parsed allow-list entry: prefix length and address bytes.
#[derive(Clone, Copy, Debug)]
pub enum ParsedIp {
    V4(u32, [u8; 4]),
    V6(u32, [u8; 16]),
}

/// Why an allow-list entry was refused.
#[derive(Clone, Copy, PartialEq, Eq, Structural, Debug)]
pub enum CidrError {
    /// The text after `'/'` is not a decimal 32-bit number.
    BadPrefix,
    /// The address is neither IPv4 nor IPv6.
    BadAddress,
    /// An IPv4 prefix longer than 32 bits.
    PrefixTooLongV4(u32),
    /// An IPv6 prefix longer than 128 bits.
    PrefixTooLongV6(u32),
}

/// Mathematical form of a parse result.
pub enum CidrSpec {
    V4(u32, Seq<u8>),
    V6(u32, Seq<u8>),
    Error(CidrError),
}

pub open spec fn cidr_spec_of(r: Result<ParsedIp, CidrError>) -> CidrSpec {
    match r {
        Ok(ParsedIp::V4(m, o)) => CidrSpec::V4(m, o@),
        Ok(ParsedIp::V6(m, o)) => CidrSpec::V6(m, o@),
        Err(e) => CidrSpec::Error(e),
    }
}

/// The entry given its prefix length part (`mask`, see `mask_of`) and what
/// its address text reads as in IPv4 (`v4`) and in IPv6 (`v6`): a bad
/// prefix is refused first; an IPv4 reading wins over an IPv6 one; without
/// a prefix the whole address is taken (32 or 128 bits).
pub open spec fn spec_classify_cidr(mask: Option<Option<u32>>, v4: Option<Seq<u8>>, v6: Option<Seq<u8>>) -> CidrSpec {
    match mask {
        Some(None) => CidrSpec::Error(CidrError::BadPrefix),
        Some(Some(m)) => match v4 {
            Some(o) => if m > 32 { CidrSpec::Error(CidrError::PrefixTooLongV4(m)) } else { CidrSpec::V4(m, o) },
            None => match v6 {
                Some(o) => if m > 128 { CidrSpec::Error(CidrError::PrefixTooLongV6(m)) } else { CidrSpec::V6(m, o) },
                None => CidrSpec::Error(CidrError::BadAddress),
            },
        },
        None => match v4 {
            Some(o) => CidrSpec::V4(32, o),
            None => match v6 {
                Some(o) => CidrSpec::V6(128, o),
                None => CidrSpec::Error(CidrError::BadAddress),
            },
        },
    }
}

pub open spec fn bytes_of4(o: Option<[u8; 4]>) -> Option<Seq<u8>> {
    match o {
        Some(a) => Some(a@),
        None => None,
    }
}

pub open spec fn bytes_of16(o: Option<[u8; 16]>) -> Option<Seq<u8>> {
    match o {
        Some(a) => Some(a@),
        None => None,
    }
}

/// Decides an allow-list entry from its prefix length part and the
/// readings of its address text.
pub fn classify_cidr(mask: Option<Option<u32>>, v4: Option<[u8; 4]>, v6: Option<[u8; 16]>) -> (r: Result<ParsedIp, CidrError>)
    ensures
        cidr_spec_of(r) == spec_classify_cidr(mask, bytes_of4(v4), bytes_of16(v6)),
{
    match mask {
        Some(None) => Err(CidrError::BadPrefix),
        Some(Some(m)) => match v4 {
            Some(o) => if m > 32 { Err(CidrError::PrefixTooLongV4(m)) } else { Ok(ParsedIp::V4(m, o)) },
            None => match v6 {
                Some(o) => if m > 128 { Err(CidrError::PrefixTooLongV6(m)) } else { Ok(ParsedIp::V6(m, o)) },
                None => Err(CidrError::BadAddress),
            },
        },
        None => match v4 {
            Some(o) => Ok(ParsedIp::V4(32, o)),
            None => match v6 {
                Some(o) => Ok(ParsedIp::V6(128, o)),
                None => Err(CidrError::BadAddress),
            },
        },
    }
}


/// An entry with a prefix length `m` is decided thus: an address that reads
/// as IPv4 is taken as IPv4 with length `m`, refused with
/// `PrefixTooLongV4(m)` exactly when `m` is above 32; otherwise an address
/// that reads as IPv6 is taken as IPv6 with length `m`, refused with
/// `PrefixTooLongV6(m)` exactly when `m` is above 128; otherwise the address
/// is refused.
pub proof fn law_classify_cidr_with_prefix(m: u32, v4: Option<Seq<u8>>, v6: Option<Seq<u8>>)
    ensures
        ({
            let r = spec_classify_cidr(Some(Some(m)), v4, v6);
            &&& (v4 is Some) && (m <= 32) ==> r == CidrSpec::V4(m, v4.unwrap())
            &&& (v4 is Some) && (m > 32) ==> r == CidrSpec::Error(CidrError::PrefixTooLongV4(m))
            &&& (v4 is None) && (v6 is Some) && (m <= 128) ==> r == CidrSpec::V6(m, v6.unwrap())
            &&& (v4 is None) && (v6 is Some) && (m > 128) ==> r == CidrSpec::Error(CidrError::PrefixTooLongV6(m))
            &&& (v4 is None) && (v6 is None) ==> r == CidrSpec::Error(CidrError::BadAddress)
        }),
{
}

/// An entry without a prefix length takes the whole address: 32 bits for
/// an IPv4 reading, else 128 bits for an IPv6 reading, else it is refused;
/// a prefix part that does not read as a number is refused.
pub proof fn law_classify_cidr_without_prefix(v4: Option<Seq<u8>>, v6: Option<Seq<u8>>)
    ensures
        (v4 is Some) ==> spec_classify_cidr(None, v4, v6) == CidrSpec::V4(32, v4.unwrap()),
        (v4 is None) && (v6 is Some) ==> spec_classify_cidr(None, v4, v6) == CidrSpec::V6(128, v6.unwrap()),
        (v4 is None) && (v6 is None) ==> spec_classify_cidr(None, v4, v6) == CidrSpec::Error(CidrError::BadAddress),
        spec_classify_cidr(Some(None), v4, v6) == CidrSpec::Error(CidrError::BadPrefix),
{
}

/// Every accepted entry keeps the address it was read as, with a prefix
/// length of at most 32 (IPv4) or 128 (IPv6); a refusal for length names
/// a length that is too long.
pub proof fn law_cidr_results(mask: Option<Option<u32>>, v4: Option<Seq<u8>>, v6: Option<Seq<u8>>)
    ensures
        ({
            let r = spec_classify_cidr(mask, v4, v6);
            &&& r matches CidrSpec::V4(m, o) ==> v4 == Some(o) && 32 >= m && (mask == Some(Some(m)) || ((mask is None) && m == 32))
            &&& r matches CidrSpec::V6(m, o) ==> (v4 is None) && v6 == Some(o) && 128 >= m
                && (mask == Some(Some(m)) || ((mask is None) && m == 128))
            &&& r matches CidrSpec::Error(CidrError::PrefixTooLongV4(m)) ==> mask == Some(Some(m)) && m > 32 && (v4 is Some)
            &&& r matches CidrSpec::Error(CidrError::PrefixTooLongV6(m)) ==> mask == Some(Some(m)) && m > 128 && (v4 is None)
        }),
{
}

} // verus!
