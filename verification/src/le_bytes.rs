//! Numbers spelled by bytes, least significant byte first.

use vstd::bytes::{
    lemma_auto_spec_u64_to_from_le_bytes, spec_u64_from_le_bytes, spec_u64_to_le_bytes,
    spec_u64_to_le_bytes_to_open,
};
use vstd::prelude::*;

verus! {

/// The number that a byte string spells, least significant byte first.
pub open spec fn le_value(bytes: Seq<u8>) -> nat
    decreases bytes.len(),
{
    if bytes.len() == 0 {
        0
    } else {
        bytes[0] as nat + 256 * le_value(bytes.drop_first())
    }
}

/// Two byte strings of one length that spell the same number are equal.
pub proof fn lemma_le_value_injective(a: Seq<u8>, b: Seq<u8>)
    requires
        a.len() == b.len(),
        le_value(a) == le_value(b),
    ensures
        a == b,
    decreases a.len(),
{
    if a.len() == 0 {
        assert(a =~= b);
    } else {
        let ra = le_value(a.drop_first());
        let rb = le_value(b.drop_first());
        assert(a[0] as nat + 256 * ra == b[0] as nat + 256 * rb);
        assert(a[0] == b[0] && ra == rb) by (nonlinear_arith)
            requires
                a[0] as nat + 256 * ra == b[0] as nat + 256 * rb,
                a[0] < 256,
                b[0] < 256,
        ;
        lemma_le_value_injective(a.drop_first(), b.drop_first());
        assert(a =~= seq![a[0]] + a.drop_first());
        assert(b =~= seq![b[0]] + b.drop_first());
    }
}

/// A byte string of zeros spells zero.
pub proof fn lemma_le_value_of_zeros(bytes: Seq<u8>)
    requires
        forall|i: int| 0 <= i < bytes.len() ==> bytes[i] == 0,
    ensures
        le_value(bytes) == 0,
    decreases bytes.len(),
{
    if bytes.len() > 0 {
        lemma_le_value_of_zeros(bytes.drop_first());
    }
}

/// The number that a byte string spells is its first byte and, 256 times,
/// the number that the bytes after the first spell.
pub proof fn lemma_le_value_step(bytes: Seq<u8>, from: int)
    requires
        0 <= from < bytes.len(),
    ensures
        le_value(bytes.skip(from)) == bytes[from] + 256 * le_value(bytes.skip(from + 1)),
{
    assert(bytes.skip(from).drop_first() =~= bytes.skip(from + 1));
}

/// A byte string that begins with the eight little-endian bytes of a number
/// spells that number and, `2^64` times, the number that the rest spells.
pub proof fn lemma_le_value_after_u64(bytes: Seq<u8>, value: u64)
    requires
        bytes.len() >= 8,
        bytes.subrange(0, 8) == spec_u64_to_le_bytes(value),
    ensures
        le_value(bytes) == value + 0x1_0000_0000_0000_0000 * le_value(bytes.skip(8)),
{
    spec_u64_to_le_bytes_to_open(value);
    let head = bytes.subrange(0, 8);
    assert(bytes.skip(0) =~= bytes);
    lemma_le_value_step(bytes, 0);
    lemma_le_value_step(bytes, 1);
    lemma_le_value_step(bytes, 2);
    lemma_le_value_step(bytes, 3);
    lemma_le_value_step(bytes, 4);
    lemma_le_value_step(bytes, 5);
    lemma_le_value_step(bytes, 6);
    lemma_le_value_step(bytes, 7);
    let x = value;
    assert(x == (x & 0xff) + 0x100 * ((x >> 8) & 0xff) + 0x1_0000 * ((x >> 16) & 0xff) + 0x100_0000
        * ((x >> 24) & 0xff) + 0x1_0000_0000 * ((x >> 32) & 0xff) + 0x100_0000_0000 * ((x >> 40)
        & 0xff) + 0x1_0000_0000_0000 * ((x >> 48) & 0xff) + 0x100_0000_0000_0000 * ((x >> 56)
        & 0xff)) by (bit_vector);
    assert((x & 0xff) < 256 && ((x >> 8) & 0xff) < 256 && ((x >> 16) & 0xff) < 256 && ((x >> 24)
        & 0xff) < 256 && ((x >> 32) & 0xff) < 256 && ((x >> 40) & 0xff) < 256 && ((x >> 48) & 0xff)
        < 256 && ((x >> 56) & 0xff) < 256) by (bit_vector);
    assert(bytes[0] == head[0] && bytes[1] == head[1] && bytes[2] == head[2] && bytes[3] == head[3]
        && bytes[4] == head[4] && bytes[5] == head[5] && bytes[6] == head[6] && bytes[7]
        == head[7]);
}

/// The eight little-endian bytes of a number spell the number.
pub proof fn lemma_u64_bytes_spell_the_number(value: u64)
    ensures
        spec_u64_to_le_bytes(value).len() == 8,
        le_value(spec_u64_to_le_bytes(value)) == value,
{
    lemma_auto_spec_u64_to_from_le_bytes();
    let bytes = spec_u64_to_le_bytes(value);
    assert(bytes.subrange(0, 8) =~= bytes);
    lemma_le_value_after_u64(bytes, value);
    lemma_le_value_of_zeros(bytes.skip(8));
}

/// Eight bytes, read as a little-endian number, give the number they spell.
pub proof fn lemma_u64_from_bytes_is_their_value(bytes: Seq<u8>)
    requires
        bytes.len() == 8,
    ensures
        spec_u64_from_le_bytes(bytes) == le_value(bytes),
{
    lemma_auto_spec_u64_to_from_le_bytes();
    let value = spec_u64_from_le_bytes(bytes);
    assert(spec_u64_to_le_bytes(value) == bytes);
    lemma_u64_bytes_spell_the_number(value);
}

} // verus!
