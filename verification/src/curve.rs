//! The prime-order group G1 of BLS12-381.
//!
//! G1 is cyclic of the same prime order as the scalar field and is generated by a
//! fixed point `g`, so each of its elements is `g * k` for exactly one `k` below that
//! order. A point is held as its 48-byte compressed encoding, and its view is that `k`.

use vstd::prelude::*;
use crate::field::{lemma_value_bound, modulus, Fr};

verus! {

/// The compressed encoding of `g * k`, where `g` is the fixed generator of G1.
pub uninterp spec fn g1_generator_times(k: nat) -> Seq<u8>;

/// `bytes` encodes `g * k`, with `k` below the group order.
pub open spec fn encodes(bytes: Seq<u8>, k: nat) -> bool {
    k < modulus() && g1_generator_times(k) == bytes
}

/// A point of G1, held as its compressed encoding.
#[derive(Clone, Copy, Debug, PartialEq, Eq)]
pub struct G1Point {
    bytes: [u8; 48],
}

impl G1Point {
    /// The encoding is that of exactly one multiple of the generator.
    #[verifier::type_invariant]
    pub closed spec fn valid(self) -> bool {
        exists|k: nat| #[trigger] encodes(self.bytes@, k) && forall|j: nat| #[trigger]
            encodes(self.bytes@, j) ==> j == k
    }
}

impl View for G1Point {
    type V = nat;

    /// The discrete logarithm of the point to the base `g`.
    closed spec fn view(&self) -> nat {
        choose|k: nat| encodes(self.bytes@, k)
    }
}

proof fn lemma_view_encodes(p: G1Point)
    requires
        p.valid(),
    ensures
        encodes(p.bytes@, p@),
        forall|j: nat| #[trigger] encodes(p.bytes@, j) ==> j == p@,
{
}

proof fn lemma_valid_from(bytes: [u8; 48], k: nat)
    requires
        encodes(bytes@, k),
        forall|j: nat| #[trigger] encodes(bytes@, j) ==> j == k,
    ensures
        (G1Point { bytes }).valid(),
{
    let p = G1Point { bytes };
    assert(encodes(p.bytes@, k) && forall|j: nat| #[trigger] encodes(p.bytes@, j) ==> j == k);
}

/// A point's discrete logarithm lies below the group order.
pub proof fn lemma_point_bound(p: G1Point)
    requires
        p.valid(),
    ensures
        p@ < modulus(),
{
}

/// `G1Projective::generator() * s`, compressed: the encoding of `g * s`.
#[verifier::external_body]
fn g1_generator_mul(s: &Fr) -> (res: [u8; 48])
    ensures
        res@ == g1_generator_times(s@),
        forall|j: nat| #[trigger] encodes(res@, j) ==> j == s@,
{
    let p = bls12_381::G1Projective::generator() * bls12_381::Scalar::from_bytes(&s.to_bytes()).unwrap();
    bls12_381::G1Affine::from(p).to_compressed()
}

/// `G1Projective::identity()`, compressed: the encoding of `g * 0`.
#[verifier::external_body]
fn g1_identity() -> (res: [u8; 48])
    ensures
        res@ == g1_generator_times(0),
        forall|j: nat| #[trigger] encodes(res@, j) ==> j == 0,
{
    bls12_381::G1Affine::from(<bls12_381::G1Projective as group::Group>::identity()).to_compressed()
}

/// `G1Projective + G1Projective` on two decoded points, compressed: adding `g * a` and
/// `g * b` gives `g * (a + b)`.
#[verifier::external_body]
fn g1_add(p: &[u8; 48], q: &[u8; 48]) -> (res: [u8; 48])
    requires
        exists|a: nat| encodes(p@, a),
        exists|b: nat| encodes(q@, b),
    ensures
        forall|a: nat, b: nat|
            encodes(p@, a) && encodes(q@, b) ==> res@ == g1_generator_times(
                (a + b) % modulus(),
            ) && forall|j: nat| #[trigger] encodes(res@, j) ==> j == (a + b) % modulus(),
{
    let x = bls12_381::G1Projective::from(bls12_381::G1Affine::from_compressed(p).unwrap());
    let y = bls12_381::G1Projective::from(bls12_381::G1Affine::from_compressed(q).unwrap());
    bls12_381::G1Affine::from(x + y).to_compressed()
}

/// `G1Projective * Scalar` on a decoded point, compressed: `(g * a) * s` is `g * (a * s)`.
#[verifier::external_body]
fn g1_mul(p: &[u8; 48], s: &Fr) -> (res: [u8; 48])
    requires
        exists|a: nat| encodes(p@, a),
    ensures
        forall|a: nat|
            encodes(p@, a) ==> res@ == g1_generator_times((a * s@) % modulus()) && forall|
                j: nat,
            | #[trigger] encodes(res@, j) ==> j == (a * s@) % modulus(),
{
    let x = bls12_381::G1Projective::from(bls12_381::G1Affine::from_compressed(p).unwrap());
    let y = bls12_381::Scalar::from_bytes(&s.to_bytes()).unwrap();
    bls12_381::G1Affine::from(x * y).to_compressed()
}

/// `G1Affine::from_compressed(..).is_some()`: whether 48 bytes decode to a point of G1,
/// which is the case exactly when they are the encoding of a multiple of the generator;
/// that multiple is then unique below the group order.
#[verifier::external_body]
fn g1_decodes(bytes: &[u8; 48]) -> (res: bool)
    ensures
        res <==> exists|k: nat| #[trigger] encodes(bytes@, k),
        res ==> forall|j: nat, k: nat|
            #[trigger] encodes(bytes@, j) && #[trigger] encodes(bytes@, k) ==> j == k,
{
    bool::from(bls12_381::G1Affine::from_compressed(bytes).is_some())
}

impl G1Point {
    /// `g * s`.
    pub fn generator_mul(s: &Fr) -> (res: G1Point)
        ensures
            res@ == s@,
    {
        proof {
            use_type_invariant(s);
            lemma_value_bound(*s);
        }
        let bytes = g1_generator_mul(s);
        proof {
            lemma_valid_from(bytes, s@);
        }
        G1Point { bytes }
    }

    /// The identity element, `g * 0`.
    pub fn identity() -> (res: G1Point)
        ensures
            res@ == 0,
    {
        let bytes = g1_identity();
        proof {
            lemma_valid_from(bytes, 0);
        }
        G1Point { bytes }
    }

    /// The sum of two points: `g * (a + b)` for `g * a` and `g * b`.
    pub fn add(&self, other: &G1Point) -> (res: G1Point)
        ensures
            res@ == (self@ + other@) % modulus(),
    {
        proof {
            use_type_invariant(self);
            use_type_invariant(other);
            lemma_view_encodes(*self);
            lemma_view_encodes(*other);
        }
        let bytes = g1_add(&self.bytes, &other.bytes);
        proof {
            lemma_valid_from(bytes, (self@ + other@) % modulus());
        }
        G1Point { bytes }
    }

    /// A point times a scalar: `g * (a * s)` for `g * a`.
    pub fn mul(&self, s: &Fr) -> (res: G1Point)
        ensures
            res@ == (self@ * s@) % modulus(),
    {
        proof {
            use_type_invariant(self);
            lemma_view_encodes(*self);
        }
        let bytes = g1_mul(&self.bytes, s);
        proof {
            lemma_valid_from(bytes, (self@ * s@) % modulus());
        }
        G1Point { bytes }
    }

    /// Whether two points are the same.
    pub fn equals(&self, other: &G1Point) -> (res: bool)
        ensures
            res == (self@ == other@),
    {
        proof {
            use_type_invariant(self);
            use_type_invariant(other);
            lemma_view_encodes(*self);
            lemma_view_encodes(*other);
        }
        let mut i: usize = 0;
        while i < 48
            invariant
                0 <= i <= 48,
                encodes(self.bytes@, self@),
                encodes(other.bytes@, other@),
                forall|k: int| 0 <= k < i ==> self.bytes@[k] == other.bytes@[k],
            decreases 48 - i,
        {
            if self.bytes[i] != other.bytes[i] {
                proof {
                    if self@ == other@ {
                        assert(self.bytes@[i as int] == other.bytes@[i as int]);
                    }
                }
                return false;
            }
            i = i + 1;
        }
        proof {
            assert(self.bytes@ =~= other.bytes@);
        }
        true
    }

    /// The compressed encoding of this point.
    pub fn to_compressed(&self) -> (res: [u8; 48])
        ensures
            res@ == g1_generator_times(self@),
    {
        proof {
            use_type_invariant(self);
            lemma_view_encodes(*self);
        }
        self.bytes
    }

    /// The point that a compressed encoding denotes, or `None` when the bytes are not
    /// the encoding of a point of G1.
    pub fn from_compressed(bytes: [u8; 48]) -> (res: Option<G1Point>)
        ensures
            res is Some <==> exists|k: nat| #[trigger] encodes(bytes@, k),
            res matches Some(p) ==> g1_generator_times(p@) == bytes@,
    {
        if g1_decodes(&bytes) {
            proof {
                let k = choose|k: nat| #[trigger] encodes(bytes@, k);
                lemma_valid_from(bytes, k);
            }
            let p = G1Point { bytes };
            proof {
                lemma_view_encodes(p);
            }
            Some(p)
        } else {
            None
        }
    }
}

} // verus!
