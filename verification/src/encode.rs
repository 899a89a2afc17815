//! The additive sector encoding: a node of the replica is the sum of the
//! node's key and its data, and decoding subtracts the key again.

use crate::field::{field_difference, field_sum, modulus, Fr};
use vstd::prelude::*;

verus! {

/// Encodes `value` under `key`: their sum in the field.
pub fn encode(key: Fr, value: Fr) -> (encoded: Fr)
    ensures
        encoded@ == field_sum(key@, value@),
        encoded@ < modulus(),
{
    let mut result = key;
    encode_fr(&mut result, value);
    result
}

/// Replaces `key` by the encoding of `value` under it.
pub fn encode_fr(key: &mut Fr, value: Fr)
    ensures
        final(key)@ == field_sum(old(key)@, value@),
        final(key)@ < modulus(),
{
    *key = key.plus(value);
}

/// Decodes `value` under `key`: `value - key` in the field.
pub fn decode(key: Fr, value: Fr) -> (decoded: Fr)
    ensures
        decoded@ == field_difference(value@, key@),
        decoded@ < modulus(),
{
    let mut result = key;
    decode_fr(&mut result, value);
    result
}

/// Replaces `key` by the decoding of `value` under it.
pub fn decode_fr(key: &mut Fr, value: Fr)
    ensures
        final(key)@ == field_difference(value@, old(key)@),
        final(key)@ < modulus(),
{
    *key = value.minus(*key);
}

/// Decoding under a key undoes encoding under the same key.
pub proof fn lemma_decode_inverts_encode(key: nat, value: nat)
    requires
        key < modulus(),
        value < modulus(),
    ensures
        field_difference(field_sum(key, value), key) == value,
{
    let m = modulus() as int;
    let s = key as int + value as int;
    if s < m {
        assert(s % m == s);
        assert((s - key) % m == value);
    } else {
        assert(s % m == s - m) by {
            vstd::arithmetic::div_mod::lemma_fundamental_div_mod_converse(s, m, 1, s - m);
        }
        assert((s - m - key) % m == value) by {
            vstd::arithmetic::div_mod::lemma_fundamental_div_mod_converse(
                s - m - key,
                m,
                -1,
                value as int,
            );
        }
    }
}

/// Encoding under a key undoes decoding under the same key.
pub proof fn lemma_encode_inverts_decode(key: nat, value: nat)
    requires
        key < modulus(),
        value < modulus(),
    ensures
        field_sum(key, field_difference(value, key)) == value,
{
    let m = modulus() as int;
    let d = value as int - key as int;
    if d >= 0 {
        assert(d % m == d);
        assert((key + d) % m == value);
    } else {
        assert(d % m == d + m) by {
            vstd::arithmetic::div_mod::lemma_fundamental_div_mod_converse(d, m, -1, d + m);
        }
        assert((key + d + m) % m == value) by {
            vstd::arithmetic::div_mod::lemma_fundamental_div_mod_converse(
                key + d + m,
                m,
                1,
                value as int,
            );
        }
    }
}

/// Decoding an encoded element under the same key gives back the element
/// itself, byte for byte.
pub proof fn lemma_round_trip_bytes(key: Fr, value: Fr, encoded: Fr, decoded: Fr)
    requires
        key@ < modulus(),
        value@ < modulus(),
        encoded@ == field_sum(key@, value@),
        decoded@ == field_difference(encoded@, key@),
    ensures
        decoded.bytes() == value.bytes(),
{
    lemma_decode_inverts_encode(key@, value@);
    decoded.lemma_equal_by_value(value);
}

/// Taking the encoded data out of an encoding gives back the key.
pub proof fn lemma_decode_recovers_key(key: nat, value: nat)
    requires
        key < modulus(),
        value < modulus(),
    ensures
        field_difference(field_sum(key, value), value) == key,
{
    assert(field_sum(key, value) == field_sum(value, key));
    lemma_decode_inverts_encode(value, key);
}

/// Whether `replica` is the node-by-node encoding of `data` under `keys`.
pub open spec fn is_encoding_of(replica: Seq<Fr>, keys: Seq<Fr>, data: Seq<Fr>) -> bool {
    &&& replica.len() == data.len()
    &&& keys.len() == data.len()
    &&& forall|i: int|
        0 <= i < data.len() ==> (#[trigger] replica[i])@ == field_sum(keys[i]@, data[i]@)
}

/// Whether `data` is the node-by-node decoding of the nodes of `replica`
/// from `start` on, under the keys of the same nodes.
pub open spec fn is_decoding_of(
    data: Seq<Fr>,
    keys: Seq<Fr>,
    replica: Seq<Fr>,
    start: int,
) -> bool {
    forall|i: int|
        0 <= i < data.len() ==> (#[trigger] data[i])@ == field_difference(
            replica[start + i]@,
            keys[start + i]@,
        )
}

/// Encodes a sector node by node, each node under the key of its place.
/// Nothing is encoded unless there is one key for each node.
pub fn encode_nodes(keys: &Vec<Fr>, data: &Vec<Fr>) -> (replica: Option<Vec<Fr>>)
    ensures
        replica.is_some() == (keys@.len() == data@.len()),
        replica.is_some() ==> is_encoding_of(replica.unwrap()@, keys@, data@),
        replica.is_some() ==> forall|i: int|
            0 <= i < replica.unwrap()@.len() ==> (#[trigger] replica.unwrap()@[i])@ < modulus(),
{
    if keys.len() != data.len() {
        return None;
    }
    let mut replica: Vec<Fr> = Vec::with_capacity(data.len());
    let mut i: usize = 0;
    while i < data.len()
        invariant
            keys@.len() == data@.len(),
            i <= data@.len(),
            replica@.len() == i,
            forall|j: int|
                0 <= j < i ==> (#[trigger] replica@[j])@ == field_sum(keys@[j]@, data@[j]@),
            forall|j: int| 0 <= j < i ==> (#[trigger] replica@[j])@ < modulus(),
        decreases data@.len() - i,
    {
        replica.push(encode(keys[i], data[i]));
        i += 1;
    }
    Some(replica)
}

/// Decodes the nodes `start..end` of a replica, each under the key of its
/// place. Nothing is decoded unless there is one key for each node of the
/// replica and the range lies within it.
pub fn decode_nodes(keys: &Vec<Fr>, replica: &Vec<Fr>, start: usize, end: usize) -> (data: Option<
    Vec<Fr>,
>)
    ensures
        data.is_some() == (keys@.len() == replica@.len() && start <= end <= replica@.len()),
        data.is_some() ==> data.unwrap()@.len() == end - start,
        data.is_some() ==> is_decoding_of(data.unwrap()@, keys@, replica@, start as int),
        data.is_some() ==> forall|i: int|
            0 <= i < data.unwrap()@.len() ==> (#[trigger] data.unwrap()@[i])@ < modulus(),
{
    if keys.len() != replica.len() || start > end || end > replica.len() {
        return None;
    }
    let mut data: Vec<Fr> = Vec::with_capacity(end - start);
    let mut i: usize = start;
    while i < end
        invariant
            keys@.len() == replica@.len(),
            start <= i <= end <= replica@.len(),
            data@.len() == i - start,
            forall|j: int|
                0 <= j < i - start ==> (#[trigger] data@[j])@ == field_difference(
                    replica@[start + j]@,
                    keys@[start + j]@,
                ),
            forall|j: int| 0 <= j < i - start ==> (#[trigger] data@[j])@ < modulus(),
        decreases end - i,
    {
        data.push(decode(keys[i], replica[i]));
        i += 1;
    }
    Some(data)
}

/// Decoding any range of an encoded sector under the keys it was encoded
/// with gives back the data of that range, byte for byte.
pub proof fn lemma_decoding_restores_data(
    keys: Seq<Fr>,
    data: Seq<Fr>,
    replica: Seq<Fr>,
    start: int,
    decoded: Seq<Fr>,
)
    requires
        forall|i: int| 0 <= i < keys.len() ==> (#[trigger] keys[i])@ < modulus(),
        forall|i: int| 0 <= i < data.len() ==> (#[trigger] data[i])@ < modulus(),
        is_encoding_of(replica, keys, data),
        0 <= start,
        start + decoded.len() <= replica.len(),
        is_decoding_of(decoded, keys, replica, start),
    ensures
        forall|i: int|
            0 <= i < decoded.len() ==> (#[trigger] decoded[i]).bytes() == data[start + i].bytes(),
{
    assert forall|i: int| 0 <= i < decoded.len() implies (#[trigger] decoded[i]).bytes() == data[start
        + i].bytes() by {
        let at = start + i;
        assert(replica[at]@ == field_sum(keys[at]@, data[at]@));
        assert(keys[at]@ < modulus());
        assert(data[at]@ < modulus());
        lemma_round_trip_bytes(keys[at], data[at], replica[at], decoded[i]);
    }
}

/// Decoding any range of an encoded sector under the data that was encoded
/// gives back the keys of that range, byte for byte: taking the data out of
/// an updated sector leaves the sector as it was.
pub proof fn lemma_removing_data_restores_keys(
    keys: Seq<Fr>,
    data: Seq<Fr>,
    replica: Seq<Fr>,
    start: int,
    decoded: Seq<Fr>,
)
    requires
        forall|i: int| 0 <= i < keys.len() ==> (#[trigger] keys[i])@ < modulus(),
        forall|i: int| 0 <= i < data.len() ==> (#[trigger] data[i])@ < modulus(),
        is_encoding_of(replica, keys, data),
        0 <= start,
        start + decoded.len() <= replica.len(),
        is_decoding_of(decoded, data, replica, start),
    ensures
        forall|i: int|
            0 <= i < decoded.len() ==> (#[trigger] decoded[i]).bytes() == keys[start + i].bytes(),
{
    assert forall|i: int| 0 <= i < replica.len() implies (#[trigger] replica[i])@ == field_sum(
        data[i]@,
        keys[i]@,
    ) by {
        assert(replica[i]@ == field_sum(keys[i]@, data[i]@));
    }
    lemma_decoding_restores_data(data, keys, replica, start, decoded);
}

} // verus!
