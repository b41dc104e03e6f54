//! Little-endian numbers in byte strings.

use byteorder::{LittleEndian, ReadBytesExt, WriteBytesExt};
use vstd::prelude::*;

verus! {

/// The `n` lowest bytes of a number, the least significant first.
pub open spec fn le_bytes(v: nat, n: nat) -> Seq<u8>
    decreases n,
{
    if n == 0 {
        Seq::empty()
    } else {
        seq![(v % 256) as u8] + le_bytes(v / 256, (n - 1) as nat)
    }
}

/// The number that bytes stand for, the least significant first.
pub open spec fn le_value(b: Seq<u8>) -> nat
    decreases b.len(),
{
    if b.len() == 0 {
        0
    } else {
        b[0] as nat + 256 * le_value(b.drop_first())
    }
}

/// The count of numbers that fit in `n` bytes.
pub open spec fn byte_range(n: nat) -> nat
    decreases n,
{
    if n == 0 {
        1
    } else {
        256 * byte_range((n - 1) as nat)
    }
}

pub proof fn lemma_le_bytes_len(v: nat, n: nat)
    ensures
        le_bytes(v, n).len() == n,
    decreases n,
{
    if n > 0 {
        lemma_le_bytes_len(v / 256, (n - 1) as nat);
    }
}

/// A number is read back from the bytes it was written in, where it fits in them.
pub proof fn lemma_le_round_trip(v: nat, n: nat)
    requires
        v < byte_range(n),
    ensures
        le_bytes(v, n).len() == n,
        le_value(le_bytes(v, n)) == v,
    decreases n,
{
    lemma_le_bytes_len(v, n);
    if n > 0 {
        let rest = le_bytes(v / 256, (n - 1) as nat);
        assert(v / 256 < byte_range((n - 1) as nat)) by (nonlinear_arith)
            requires
                v < 256 * byte_range((n - 1) as nat),
        ;
        lemma_le_round_trip(v / 256, (n - 1) as nat);
        assert(le_bytes(v, n).drop_first() =~= rest);
    }
}

/// Any 64-bit number is read back from its eight bytes.
pub proof fn lemma_eight_bytes(v: u64)
    ensures
        le_bytes(v as nat, 8).len() == 8,
        le_value(le_bytes(v as nat, 8)) == v,
{
    assert(byte_range(8) == 0x1_0000_0000_0000_0000) by {
        reveal_with_fuel(byte_range, 9);
    }
    lemma_le_round_trip(v as nat, 8);
}

/// `WriteBytesExt::write_u64::<LittleEndian>` of byteorder on a byte vector: the eight bytes of
/// the number, least significant first, are appended. Writing to a vector cannot fail.
#[verifier::external_body]
pub(crate) fn write_u64_le(out: &mut Vec<u8>, v: u64)
    ensures
        final(out)@ == old(out)@ + le_bytes(v as nat, 8),
{
    out.write_u64::<LittleEndian>(v).expect("a vector takes every byte");
}

/// `ReadBytesExt::read_u64::<LittleEndian>` of byteorder on a byte slice: the number whose
/// bytes, least significant first, are the first eight. It succeeds where there are eight bytes.
#[verifier::external_body]
pub(crate) fn read_u64_le(mut data: &[u8]) -> (r: u64)
    requires
        data@.len() >= 8,
    ensures
        r as nat == le_value(data@.subrange(0, 8)),
{
    data.read_u64::<LittleEndian>().expect("eight bytes are there")
}


/// The least significant byte stands first, and what follows is written and read in the same way.
pub proof fn law_least_first(v: nat, n: nat, b: u8, rest: Seq<u8>)
    requires
        n > 0,
    ensures
        le_bytes(v, n)[0] as nat == v % 256,
        le_bytes(v, n).skip(1) == le_bytes(v / 256, (n - 1) as nat),
        le_value(seq![b] + rest) == b + 256 * le_value(rest),
{
    assert(le_bytes(v, n).skip(1) =~= le_bytes(v / 256, (n - 1) as nat));
    assert((seq![b] + rest).drop_first() =~= rest);
}

} // verus!
