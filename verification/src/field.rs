//! The scalar field of BLS12-381, modelled as the integers modulo its order.

use vstd::prelude::*;
use vstd::arithmetic::power::pow;

verus! {

/// The order `q` of the BLS12-381 scalar field (and of the group G1).
pub open spec fn modulus() -> nat {
    0x73eda753299d7d483339d80809a1d80553bda402fffe5bfeffffffff00000001nat
}

/// The number that a little-endian byte string denotes.
pub open spec fn le_value(bytes: Seq<u8>) -> nat
    decreases bytes.len(),
{
    if bytes.len() == 0 {
        0
    } else {
        bytes[0] as nat + 256 * le_value(bytes.drop_first())
    }
}

/// An element of the scalar field, held as its canonical little-endian bytes.
#[derive(Clone, Copy, Debug, PartialEq, Eq)]
pub struct Fr {
    bytes: [u8; 32],
}

impl Fr {
    #[verifier::type_invariant]
    pub closed spec fn canonical(self) -> bool {
        le_value(self.bytes@) < modulus()
    }

    /// The canonical little-endian encoding of this element.
    pub fn to_bytes(&self) -> (res: [u8; 32])
        ensures
            le_value(res@) == self@,
    {
        self.bytes
    }
}

/// A field element's value lies below the field order.
pub proof fn lemma_value_bound(x: Fr)
    requires
        x.canonical(),
    ensures
        x@ < modulus(),
{
}

impl View for Fr {
    type V = nat;

    closed spec fn view(&self) -> nat {
        le_value(self.bytes@)
    }
}

/// `Scalar::zero()`: the additive identity.
#[verifier::external_body]
pub(crate) fn fr_zero() -> (res: Fr)
    ensures
        res@ == 0,
{
    Fr { bytes: bls12_381::Scalar::zero().to_bytes() }
}

/// `Scalar::from(u64)`: the field element with the given integer value.
#[verifier::external_body]
pub(crate) fn fr_from_u64(v: u64) -> (res: Fr)
    ensures
        res@ == v as nat,
{
    Fr { bytes: bls12_381::Scalar::from(v).to_bytes() }
}

/// `Scalar + Scalar`: addition modulo the field order.
#[verifier::external_body]
pub(crate) fn fr_add(a: &Fr, b: &Fr) -> (res: Fr)
    ensures
        res@ == (a@ + b@) % modulus(),
{
    let x = bls12_381::Scalar::from_bytes(&a.bytes).unwrap();
    let y = bls12_381::Scalar::from_bytes(&b.bytes).unwrap();
    Fr { bytes: (x + y).to_bytes() }
}

/// `Scalar - Scalar`: subtraction modulo the field order.
#[verifier::external_body]
pub(crate) fn fr_sub(a: &Fr, b: &Fr) -> (res: Fr)
    ensures
        res@ == (a@ - b@) % (modulus() as int),
{
    let x = bls12_381::Scalar::from_bytes(&a.bytes).unwrap();
    let y = bls12_381::Scalar::from_bytes(&b.bytes).unwrap();
    Fr { bytes: (x - y).to_bytes() }
}

/// `Scalar * Scalar`: multiplication modulo the field order.
#[verifier::external_body]
pub(crate) fn fr_mul(a: &Fr, b: &Fr) -> (res: Fr)
    ensures
        res@ == (a@ * b@) % modulus(),
{
    let x = bls12_381::Scalar::from_bytes(&a.bytes).unwrap();
    let y = bls12_381::Scalar::from_bytes(&b.bytes).unwrap();
    Fr { bytes: (x * y).to_bytes() }
}

/// `Scalar::pow(&[e, 0, 0, 0])`: `a` to the power `e`, modulo the field order.
#[verifier::external_body]
pub(crate) fn fr_pow(a: &Fr, e: u64) -> (res: Fr)
    ensures
        res@ == pow(a@ as int, e as nat) % (modulus() as int),
{
    let x = bls12_381::Scalar::from_bytes(&a.bytes).unwrap();
    Fr { bytes: x.pow(&[e, 0, 0, 0]).to_bytes() }
}

/// `Scalar::invert`: the multiplicative inverse, which exists exactly for nonzero elements.
#[verifier::external_body]
pub(crate) fn fr_invert(a: &Fr) -> (res: Option<Fr>)
    ensures
        res is Some <==> a@ != 0,
        res matches Some(b) ==> (a@ * b@) % modulus() == 1,
{
    let x = bls12_381::Scalar::from_bytes(&a.bytes).unwrap();
    let inv: Option<bls12_381::Scalar> = x.invert().into();
    match inv {
        Some(y) => Some(Fr { bytes: y.to_bytes() }),
        None => None,
    }
}

/// `Scalar::random(OsRng)`: a uniformly random field element. Nothing is stated of
/// which element comes back beyond its being a field element.
#[verifier::external_body]
pub(crate) fn fr_random() -> (res: Fr)
    ensures
        res@ < modulus(),
{
    let x = <bls12_381::Scalar as ff::Field>::random(rand::rngs::OsRng);
    Fr { bytes: x.to_bytes() }
}

/// `Scalar::from_bytes(..).is_some()`: whether little-endian bytes are a canonical
/// encoding, i.e. denote a number below the field order.
#[verifier::external_body]
fn scalar_bytes_canonical(bytes: &[u8; 32]) -> (res: bool)
    ensures
        res == (le_value(bytes@) < modulus()),
{
    bool::from(bls12_381::Scalar::from_bytes(bytes).is_some())
}

impl Fr {
    /// The field element that canonical little-endian bytes encode, or `None` when
    /// they denote a number not below the field order.
    pub fn from_bytes(bytes: [u8; 32]) -> (res: Option<Fr>)
        ensures
            res is Some <==> le_value(bytes@) < modulus(),
            res matches Some(x) ==> x@ == le_value(bytes@),
    {
        if scalar_bytes_canonical(&bytes) {
            Some(Fr { bytes })
        } else {
            None
        }
    }
}

} // verus!
