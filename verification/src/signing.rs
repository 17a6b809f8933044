//! The signing round: nonce commitments are exchanged, and once enough have arrived
//! each node sends its signature share; shares are summed once enough have arrived.

use vstd::prelude::*;
use vstd::arithmetic::div_mod::{lemma_add_mod_noop, lemma_mod_twice, lemma_small_mod};
use crate::field::{lemma_value_bound, Fr, fr_add, fr_random, fr_zero};
use crate::curve::G1Point;
use crate::poly::fq;
use crate::strmap::{distinct_keys, insert_entry, StrMap};
use crate::types::{KeyShare, SerializableG1Affine, SerializableScalar};

verus! {

/// The commitments `(g * d, g * e)` to a nonce pair `(d, e)`.
#[allow(non_snake_case)]
#[derive(Debug)]
pub struct FrostCommitment {
    pub D: SerializableG1Affine,
    pub E: SerializableG1Affine,
}

/// A message of the signing round.
pub enum SigningMessage {
    CommitmentShare { from: String, commitments: Vec<FrostCommitment> },
    SignatureShare { from: String, share: SerializableScalar },
}

/// The commitments to a list of nonce pairs match them pairwise.
pub open spec fn commitments_match(c: Seq<FrostCommitment>, nonces: Seq<(Fr, Fr)>) -> bool {
    &&& c.len() == nonces.len()
    &&& forall|k: int|
        0 <= k < c.len() ==> (#[trigger] c[k]).D.0@ == nonces[k].0@ && c[k].E.0@ == nonces[k].1@
}

/// The sum of the received signature shares.
pub open spec fn signature_share_sum(e: Seq<(Seq<char>, Fr)>) -> int
    decreases e.len(),
{
    if e.len() == 0 {
        0
    } else {
        signature_share_sum(e.drop_last()) + e.last().1@
    }
}

/// A node taking part in signing.
pub struct SigningNode {
    id: String,
    threshold: usize,
    key_share: KeyShare,
    group_key: G1Point,
    nonces: Vec<(Fr, Fr)>,
    commitments: StrMap<Vec<FrostCommitment>>,
    signature_shares: StrMap<Fr>,
}

impl SigningNode {
    /// The node's identifier.
    pub closed spec fn spec_id(&self) -> Seq<char> {
        self.id@
    }

    /// The threshold.
    pub closed spec fn spec_threshold(&self) -> usize {
        self.threshold
    }

    /// The node's key share.
    pub closed spec fn spec_key_share(&self) -> KeyShare {
        self.key_share
    }

    /// The group key.
    pub closed spec fn spec_group_key(&self) -> G1Point {
        self.group_key
    }

    /// The node's nonce pairs.
    pub closed spec fn spec_nonces(&self) -> Seq<(Fr, Fr)> {
        self.nonces@
    }

    /// The commitments received per node.
    pub closed spec fn commitment_entries(&self) -> Seq<(Seq<char>, Vec<FrostCommitment>)> {
        self.commitments.entries()
    }

    /// The signature shares received per node.
    pub closed spec fn signature_share_entries(&self) -> Seq<(Seq<char>, Fr)> {
        self.signature_shares.entries()
    }

    /// The node's maps are well formed.
    pub closed spec fn wf(&self) -> bool {
        self.commitments.wf() && self.signature_shares.wf()
    }

    /// In a well-formed node no sender is listed twice.
    pub proof fn lemma_keys_distinct(&self)
        requires
            self.wf(),
        ensures
            distinct_keys(self.commitment_entries()),
            distinct_keys(self.signature_share_entries()),
    {
    }

    /// What handling a signing message does (see `handle_message`).
    pub open spec fn handled(
        self,
        new: SigningNode,
        msg: SigningMessage,
        res: Option<SigningMessage>,
    ) -> bool {
        &&& new.wf()
        &&& new.spec_id() == self.spec_id()
        &&& new.spec_threshold() == self.spec_threshold()
        &&& new.spec_nonces() == self.spec_nonces()
        &&& msg matches SigningMessage::CommitmentShare { from, commitments } ==> {
            &&& new.commitment_entries() == insert_entry(
                self.commitment_entries(),
                from@,
                commitments,
            )
            &&& new.signature_share_entries() == self.signature_share_entries()
            &&& if new.commitment_entries().len() >= self.spec_threshold() {
                res matches Some(SigningMessage::SignatureShare { from: f, share }) && f@
                    == self.spec_id() && share.0@ == 0
            } else {
                res is None
            }
        }
        &&& msg matches SigningMessage::SignatureShare { from, share } ==> {
            &&& res is None
            &&& new.signature_share_entries() == insert_entry(
                self.signature_share_entries(),
                from@,
                share.0,
            )
            &&& new.commitment_entries() == self.commitment_entries()
        }
    }

    /// A fresh node with no nonces, commitments or signature shares.
    pub fn new(id: String, threshold: usize, key_share: KeyShare, group_key: G1Point) -> (res:
        SigningNode)
        ensures
            res.wf(),
            res.spec_id() == id@,
            res.spec_threshold() == threshold,
            res.spec_key_share() == key_share,
            res.spec_group_key() == group_key,
            res.spec_nonces().len() == 0,
            res.commitment_entries().len() == 0,
            res.signature_share_entries().len() == 0,
    {
        SigningNode {
            id,
            threshold,
            key_share,
            group_key,
            nonces: Vec::new(),
            commitments: StrMap::new(),
            signature_shares: StrMap::new(),
        }
    }

    /// Starts signing: adds one fresh nonce pair and returns the commitments to all the
    /// node's nonce pairs, to broadcast on the signing topic.
    pub fn start_signing(&mut self, message: &[u8]) -> (res: SigningMessage)
        ensures
            final(self).spec_nonces().len() == old(self).spec_nonces().len() + 1,
            final(self).spec_nonces().drop_last() == old(self).spec_nonces(),
            final(self).spec_id() == old(self).spec_id(),
            final(self).spec_threshold() == old(self).spec_threshold(),
            final(self).commitment_entries() == old(self).commitment_entries(),
            final(self).signature_share_entries() == old(self).signature_share_entries(),
            final(self).wf() == old(self).wf(),
            res matches SigningMessage::CommitmentShare { from, commitments } && from@ == old(
                self,
            ).spec_id() && commitments_match(commitments@, final(self).spec_nonces()),
    {
        self.generate_nonces(1);
        let commitments = self.get_commitments();
        SigningMessage::CommitmentShare { from: self.id.clone(), commitments }
    }

    fn generate_nonces(&mut self, count: usize)
        ensures
            final(self).nonces@.len() == old(self).nonces@.len() + count,
            final(self).nonces@.take(old(self).nonces@.len() as int) == old(self).nonces@,
            final(self).id == old(self).id,
            final(self).threshold == old(self).threshold,
            final(self).commitments == old(self).commitments,
            final(self).signature_shares == old(self).signature_shares,
    {
        let ghost before = self.nonces@;
        for k in 0..count
            invariant
                self.nonces@.len() == before.len() + k,
                self.nonces@.take(before.len() as int) == before,
                self.id == old(self).id,
                self.threshold == old(self).threshold,
                self.commitments == old(self).commitments,
                self.signature_shares == old(self).signature_shares,
        {
            let d = fr_random();
            let e = fr_random();
            self.nonces.push((d, e));
            proof {
                assert(self.nonces@.take(before.len() as int) =~= before);
            }
        }
    }

    fn get_commitments(&self) -> (res: Vec<FrostCommitment>)
        ensures
            commitments_match(res@, self.nonces@),
    {
        let mut res: Vec<FrostCommitment> = Vec::new();
        for k in 0..self.nonces.len()
            invariant
                res@.len() == k,
                forall|j: int|
                    0 <= j < k ==> (#[trigger] res@[j]).D.0@ == self.nonces@[j].0@ && res@[j].E.0@
                        == self.nonces@[j].1@,
        {
            let (d, e) = self.nonces[k];
            res.push(
                FrostCommitment {
                    D: SerializableG1Affine(G1Point::generator_mul(&d)),
                    E: SerializableG1Affine(G1Point::generator_mul(&e)),
                },
            );
        }
        res
    }

    /// Handles a signing message and returns the message to broadcast in reply, if any.
    ///
    /// A node's commitments are recorded under it; once commitments from at least
    /// `threshold` nodes are held, the node replies with its signature share (zero). A
    /// signature share is recorded under its sender.
    pub fn handle_message(&mut self, msg: SigningMessage) -> (res: Option<SigningMessage>)
        requires
            old(self).wf(),
        ensures
            old(self).handled(*final(self), msg, res),
    {
        match msg {
            SigningMessage::CommitmentShare { from, commitments } => {
                self.commitments.insert(from, commitments);
                self.check_commitments()
            },
            SigningMessage::SignatureShare { from, share } => {
                self.signature_shares.insert(from, share.0);
                let _ = self.check_signature_completion();
                None
            },
        }
    }

    fn check_commitments(&self) -> (res: Option<SigningMessage>)
        ensures
            if self.commitments.entries().len() >= self.threshold {
                res matches Some(SigningMessage::SignatureShare { from: f, share }) && f@
                    == self.id@ && share.0@ == 0
            } else {
                res is None
            },
    {
        if self.commitments.len() >= self.threshold {
            let signature_share = self.generate_signature_share();
            Some(
                SigningMessage::SignatureShare {
                    from: self.id.clone(),
                    share: SerializableScalar(signature_share),
                },
            )
        } else {
            None
        }
    }

    /// The node's signature share: zero.
    fn generate_signature_share(&self) -> (res: Fr)
        ensures
            res@ == 0,
    {
        fr_zero()
    }

    /// The aggregate signature, once at least `threshold` signature shares are held.
    fn check_signature_completion(&self) -> (res: Option<Fr>)
        requires
            self.wf(),
        ensures
            res is Some <==> self.signature_shares.entries().len() >= self.threshold,
            res matches Some(s) ==> s@ == signature_share_sum(self.signature_shares.entries())
                % fq(),
    {
        if self.signature_shares.len() >= self.threshold {
            Some(self.aggregate_signature_shares())
        } else {
            None
        }
    }

    /// The sum of the received signature shares.
    fn aggregate_signature_shares(&self) -> (res: Fr)
        ensures
            res@ == signature_share_sum(self.signature_shares.entries()) % fq(),
    {
        let ghost se = self.signature_shares.entries();
        let ghost m = fq();
        let mut signature = fr_zero();
        proof {
            lemma_small_mod(0, m as nat);
        }
        let mut k: usize = 0;
        while k < self.signature_shares.len()
            invariant
                self.signature_shares.entries() == se,
                m == fq(),
                0 <= k <= se.len(),
                signature@ == signature_share_sum(se.take(k as int)) % m,
            decreases se.len() - k,
        {
            let ghost prev = signature_share_sum(se.take(k as int));
            let v = self.signature_shares.value_at(k);
            signature = fr_add(&signature, v);
            proof {
                assert(se.take((k + 1) as int).drop_last() =~= se.take(k as int));
                assert(signature_share_sum(se.take((k + 1) as int)) == prev + v@);
                lemma_add_mod_noop(prev, v@ as int, m);
                lemma_mod_twice(prev, m);
                use_type_invariant(v);
                lemma_value_bound(*v);
                lemma_small_mod(v@, m as nat);
            }
            k = k + 1;
        }
        proof {
            assert(se.take(se.len() as int) =~= se);
        }
        signature
    }
}


/// Recording a commitment never lowers the number of senders held.
proof fn lemma_insert_entry_len<V>(e: Seq<(Seq<char>, V)>, k: Seq<char>, v: V)
    ensures
        insert_entry(e, k, v).len() >= e.len(),
        insert_entry(e, k, v).len() <= e.len() + 1,
{
}

/// Once a node holds commitments from at least `threshold` senders it answers every
/// further commitment with its signature share, however many senders it then holds:
/// holding enough before a commitment, or after recording it, means the reply is the
/// node's own signature share (zero); holding fewer than `threshold` after recording
/// means no reply.
pub proof fn lemma_signature_share_from_threshold_on(
    node: SigningNode,
    new: SigningNode,
    from: String,
    commitments: Vec<FrostCommitment>,
    res: Option<SigningMessage>,
)
    requires
        node.handled(new, SigningMessage::CommitmentShare { from, commitments }, res),
    ensures
        node.commitment_entries().len() >= node.spec_threshold() ==> new.commitment_entries().len()
            >= node.spec_threshold(),
        new.commitment_entries().len() >= node.spec_threshold() ==> (res matches Some(
            SigningMessage::SignatureShare { from: f, share },
        ) && f@ == node.spec_id() && share.0@ == 0),
        new.commitment_entries().len() < node.spec_threshold() ==> res is None,
{
    lemma_insert_entry_len(node.commitment_entries(), from@, commitments);
}

} // verus!
