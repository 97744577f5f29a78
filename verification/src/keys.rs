//! Numeric keys for the per-source tables: a byte string read as one
//! big-endian number.

use vstd::prelude::*;

verus! {

/// The bytes of `s` read as one big-endian number.
pub open spec fn be_value(s: Seq<u8>) -> nat
    decreases s.len(),
{
    if s.len() == 0 {
        0
    } else {
        be_value(s.drop_last()) * 256 + s.last() as nat
    }
}

/// `256` to the power `n`.
pub open spec fn byte_space(n: nat) -> nat
    decreases n,
{
    if n == 0 {
        1
    } else {
        256 * byte_space((n - 1) as nat)
    }
}

/// Table key of a MAC or IPv6 address.
pub open spec fn addr_key(s: Seq<u8>) -> u128 {
    be_value(s) as u128
}

proof fn lemma_byte_space_mono(i: nat, j: nat)
    requires
        i <= j,
    ensures
        byte_space(i) <= byte_space(j),
    decreases j,
{
    if j > i {
        lemma_byte_space_mono(i, (j - 1) as nat);
    }
}

proof fn lemma_byte_space_16()
    ensures
        byte_space(16) == 0x1_0000_0000_0000_0000_0000_0000_0000_0000,
{
    reveal_with_fuel(byte_space, 17);
}

/// Packs up to sixteen bytes into one number, first byte most significant.
pub fn pack_addr(b: &[u8]) -> (r: u128)
    requires
        b@.len() <= 16,
    ensures
        r == addr_key(b@),
        r as nat == be_value(b@),
{
    let mut acc: u128 = 0;
    let mut i: usize = 0;
    proof {
        lemma_byte_space_16();
        assert(b@.take(0) =~= Seq::<u8>::empty());
    }
    while i < b.len()
        invariant
            i <= b@.len() <= 16,
            acc as nat == be_value(b@.take(i as int)),
            be_value(b@.take(i as int)) < byte_space(i as nat),
            byte_space(16) == 0x1_0000_0000_0000_0000_0000_0000_0000_0000,
        decreases b@.len() - i,
    {
        proof {
            lemma_byte_space_mono((i + 1) as nat, 16);
            assert(b@.take(i + 1).drop_last() =~= b@.take(i as int));
            assert(byte_space((i + 1) as nat) == 256 * byte_space(i as nat));
        }
        acc = acc * 256 + b[i] as u128;
        i = i + 1;
    }
    assert(b@.take(i as int) =~= b@);
    acc
}

} // verus!
