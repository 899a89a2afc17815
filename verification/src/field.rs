//! Elements of the BLS12-381 scalar field, held as their canonical
//! little-endian bytes. The arithmetic itself is done by `blstrs`.

use crate::le_bytes::{le_value, lemma_le_value_injective};
use vstd::prelude::*;

verus! {

/// The order of the BLS12-381 scalar field.
pub open spec fn modulus() -> nat {
    0x73eda753299d7d483339d80809a1d80553bda402fffe5bfeffffffff00000001nat
}

/// The sum of two field elements, as numbers.
pub open spec fn field_sum(a: nat, b: nat) -> nat {
    (a + b) % modulus()
}

/// The difference `a - b` of two field elements, as numbers.
pub open spec fn field_difference(a: nat, b: nat) -> nat {
    ((a as int - b as int) % (modulus() as int)) as nat
}

/// Calls `blstrs::Scalar::from_bytes_le`, which accepts exactly the canonical
/// encodings. Trusted: the answer is whether the bytes spell a number below
/// the field's order.
#[verifier::external_body]
fn scalar_is_canonical(bytes: &[u8; 32]) -> (canonical: bool)
    ensures
        canonical == (le_value(bytes@) < modulus()),
{
    blstrs::Scalar::from_bytes_le(bytes).is_some().into()
}

/// Adds two scalars with `blstrs` (`Scalar += Scalar`). Trusted: the bytes
/// returned spell the sum of the two numbers, reduced by the field's order.
#[verifier::external_body]
fn scalar_add(a: &[u8; 32], b: &[u8; 32]) -> (sum: [u8; 32])
    requires
        le_value(a@) < modulus(),
        le_value(b@) < modulus(),
    ensures
        le_value(sum@) == field_sum(le_value(a@), le_value(b@)),
{
    let mut x = blstrs::Scalar::from_bytes_le(a).unwrap();
    let y = blstrs::Scalar::from_bytes_le(b).unwrap();
    x += y;
    x.to_bytes_le()
}

/// Subtracts two scalars with `blstrs` (`Scalar - Scalar`). Trusted: the bytes
/// returned spell the first number less the second, reduced by the field's
/// order to a number that is not negative.
#[verifier::external_body]
fn scalar_sub(a: &[u8; 32], b: &[u8; 32]) -> (difference: [u8; 32])
    requires
        le_value(a@) < modulus(),
        le_value(b@) < modulus(),
    ensures
        le_value(difference@) == field_difference(le_value(a@), le_value(b@)),
{
    let x = blstrs::Scalar::from_bytes_le(a).unwrap();
    let y = blstrs::Scalar::from_bytes_le(b).unwrap();
    (x - y).to_bytes_le()
}

/// An element of the BLS12-381 scalar field.
#[derive(Clone, Copy, Debug, PartialEq, Eq)]
pub struct Fr {
    repr: [u8; 32],
}

impl View for Fr {
    type V = nat;

    /// The element as a number below [`modulus`].
    open spec fn view(&self) -> nat {
        le_value(self.bytes())
    }
}

impl Fr {
    /// The canonical little-endian encoding of the element.
    pub closed spec fn bytes(self) -> Seq<u8> {
        self.repr@
    }

    #[verifier::type_invariant]
    spec fn canonical(self) -> bool {
        le_value(self.repr@) < modulus()
    }

    /// An element is spelled by 32 bytes.
    pub proof fn lemma_bytes_len(self)
        ensures
            self.bytes().len() == 32,
    {
    }

    /// Two elements with the same number are the same element.
    pub proof fn lemma_equal_by_value(self, other: Fr)
        requires
            self@ == other@,
        ensures
            self.bytes() == other.bytes(),
    {
        self.lemma_bytes_len();
        other.lemma_bytes_len();
        lemma_le_value_injective(self.repr@, other.repr@);
    }

    /// Reads an element from its little-endian encoding. Only the canonical
    /// encoding of a number below the field's order is accepted.
    pub fn from_bytes_le(bytes: &[u8; 32]) -> (element: Option<Fr>)
        ensures
            element.is_some() == (le_value(bytes@) < modulus()),
            element.is_some() ==> element.unwrap().bytes() == bytes@,
            element.is_some() ==> element.unwrap()@ < modulus(),
    {
        if scalar_is_canonical(bytes) {
            Some(Fr { repr: *bytes })
        } else {
            None
        }
    }

    /// The canonical little-endian encoding of the element.
    pub fn to_bytes_le(&self) -> (bytes: [u8; 32])
        ensures
            bytes@ == self.bytes(),
            le_value(bytes@) < modulus(),
    {
        proof {
            use_type_invariant(self);
        }
        self.repr
    }

    /// The sum of two elements.
    pub fn plus(self, rhs: Fr) -> (sum: Fr)
        ensures
            sum@ == field_sum(self@, rhs@),
            sum@ < modulus(),
    {
        proof {
            use_type_invariant(self);
            use_type_invariant(rhs);
        }
        let repr = scalar_add(&self.repr, &rhs.repr);
        assert(field_sum(self@, rhs@) < modulus());
        Fr { repr }
    }

    /// The difference of two elements, `self - rhs`.
    pub fn minus(self, rhs: Fr) -> (difference: Fr)
        ensures
            difference@ == field_difference(self@, rhs@),
            difference@ < modulus(),
    {
        proof {
            use_type_invariant(self);
            use_type_invariant(rhs);
        }
        let repr = scalar_sub(&self.repr, &rhs.repr);
        assert(field_difference(self@, rhs@) < modulus());
        Fr { repr }
    }
}

} // verus!
