//! A FROST signer: pre-generated nonce pairs, their commitments, and signing.

use vstd::prelude::*;
use crate::field::{Fr, fr_random};
use crate::curve::G1Point;
use crate::strmap::StrMap;
use crate::types::SerializableG1Affine;

verus! {

/// The commitments `(g * d, g * e)` to a nonce pair `(d, e)`.
#[allow(non_snake_case)]
#[derive(Debug)]
pub struct Commitment {
    pub D: SerializableG1Affine,
    pub E: SerializableG1Affine,
}

/// The commitments to a list of nonce pairs match them pairwise.
pub open spec fn commits_to(c: Seq<Commitment>, nonces: Seq<(Fr, Fr)>) -> bool {
    &&& c.len() == nonces.len()
    &&& forall|k: int|
        0 <= k < c.len() ==> (#[trigger] c[k]).D.0@ == nonces[k].0@ && c[k].E.0@ == nonces[k].1@
}

/// A signer holding its share of the group secret.
#[derive(Debug)]
pub struct FrostSigner {
    pub id: String,
    secret_share: Fr,
    public_key: G1Point,
    nonces: Vec<(Fr, Fr)>,
    commitments: StrMap<Vec<Commitment>>,
}

impl FrostSigner {
    /// The signer's identifier.
    pub closed spec fn spec_id(&self) -> String {
        self.id
    }

    /// The signer's share of the group secret.
    pub closed spec fn spec_secret_share(&self) -> Fr {
        self.secret_share
    }

    /// The group public key.
    pub closed spec fn spec_public_key(&self) -> G1Point {
        self.public_key
    }

    /// The unused nonce pairs, oldest first.
    pub closed spec fn spec_nonces(&self) -> Seq<(Fr, Fr)> {
        self.nonces@
    }

    /// The commitments received per signer.
    pub closed spec fn commitment_entries(&self) -> Seq<(Seq<char>, Vec<Commitment>)> {
        self.commitments.entries()
    }

    /// A signer with no nonces.
    pub fn new(id: String, secret_share: Fr, public_key: G1Point) -> (res: FrostSigner)
        ensures
            res.spec_id() == id,
            res.spec_secret_share() == secret_share,
            res.spec_public_key() == public_key,
            res.spec_nonces().len() == 0,
            res.commitment_entries().len() == 0,
    {
        FrostSigner {
            id,
            secret_share,
            public_key,
            nonces: Vec::new(),
            commitments: StrMap::new(),
        }
    }

    /// Appends `count` fresh random nonce pairs.
    pub fn generate_nonces(&mut self, count: usize)
        ensures
            final(self).spec_nonces().len() == old(self).spec_nonces().len() + count,
            final(self).spec_nonces().take(old(self).spec_nonces().len() as int)
                == old(self).spec_nonces(),
            final(self).spec_id() == old(self).spec_id(),
            final(self).spec_secret_share() == old(self).spec_secret_share(),
            final(self).spec_public_key() == old(self).spec_public_key(),
            final(self).commitment_entries() == old(self).commitment_entries(),
    {
        let ghost before = self.nonces@;
        for k in 0..count
            invariant
                self.nonces@.len() == before.len() + k,
                self.nonces@.take(before.len() as int) == before,
                self.id == old(self).id,
                self.secret_share == old(self).secret_share,
                self.public_key == old(self).public_key,
                self.commitments == old(self).commitments,
        {
            let d = fr_random();
            let e = fr_random();
            self.nonces.push((d, e));
            proof {
                assert(self.nonces@.take(before.len() as int) =~= before);
            }
        }
    }

    /// The commitments to the unused nonce pairs, in order.
    pub fn get_commitments(&self) -> (res: Vec<Commitment>)
        ensures
            commits_to(res@, self.spec_nonces()),
    {
        let mut res: Vec<Commitment> = Vec::new();
        for k in 0..self.nonces.len()
            invariant
                res@.len() == k,
                forall|j: int|
                    0 <= j < k ==> (#[trigger] res@[j]).D.0@ == self.nonces@[j].0@ && res@[j].E.0@
                        == self.nonces@[j].1@,
        {
            let (d, e) = self.nonces[k];
            res.push(
                Commitment {
                    D: SerializableG1Affine(G1Point::generator_mul(&d)),
                    E: SerializableG1Affine(G1Point::generator_mul(&e)),
                },
            );
        }
        res
    }

    /// Signs with the oldest unused nonce pair, which is used up; `None` when there is none.
    /// The signature is the signer's secret share.
    pub fn sign(&mut self, message: &[u8], participants: &[String]) -> (res: Option<Fr>)
        ensures
            final(self).spec_id() == old(self).spec_id(),
            final(self).spec_secret_share() == old(self).spec_secret_share(),
            final(self).spec_public_key() == old(self).spec_public_key(),
            final(self).commitment_entries() == old(self).commitment_entries(),
            old(self).spec_nonces().len() == 0 ==> res is None && final(self).spec_nonces()
                == old(self).spec_nonces(),
            old(self).spec_nonces().len() > 0 ==> res == Some(old(self).spec_secret_share())
                && final(self).spec_nonces() == old(self).spec_nonces().drop_first(),
    {
        if self.nonces.len() == 0 {
            return None;
        }
        let (_d, _e) = self.nonces.remove(0);
        let _commitments = self.get_commitments();
        proof {
            assert(self.nonces@ =~= old(self).nonces@.drop_first());
        }
        Some(self.secret_share)
    }
}

} // verus!
