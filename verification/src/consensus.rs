//! Proposal and voting with a hash-based verifiable random function, and the node's
//! replicated key/value state.

use vstd::prelude::*;
use crate::strmap::{distinct_keys, insert_entry, lemma_lookup_insert, lookup, StrMap};

verus! {

/// The BLAKE3 hash of `input`.
pub uninterp spec fn blake3_hash(input: Seq<u8>) -> Seq<u8>;

/// The BLAKE3 keyed hash of `input` under `key`.
pub uninterp spec fn blake3_keyed_hash(key: Seq<u8>, input: Seq<u8>) -> Seq<u8>;

/// `blake3::hash(input)`, as its 32 bytes.
#[verifier::external_body]
fn hash_bytes(input: &[u8]) -> (res: [u8; 32])
    ensures
        res@ == blake3_hash(input@),
{
    *blake3::hash(input).as_bytes()
}

/// `blake3::keyed_hash(key, input)`, as its 32 bytes.
#[verifier::external_body]
fn keyed_hash_bytes(key: &[u8; 32], input: &[u8]) -> (res: [u8; 32])
    ensures
        res@ == blake3_keyed_hash(key@, input@),
{
    *blake3::keyed_hash(key, input).as_bytes()
}

/// `OsRng.fill_bytes`: 32 random bytes. Nothing is stated of which bytes come back.
#[verifier::external_body]
fn random_key() -> (res: [u8; 32]) {
    let mut key = [0u8; 32];
    rand::RngCore::fill_bytes(&mut rand::rngs::OsRng, &mut key);
    key
}

/// The input under which the public key is derived from the secret key.
pub open spec fn public_key_label() -> Seq<u8> {
    seq![
        'v' as u8, 'r' as u8, 'f' as u8, '-' as u8, 'p' as u8, 'u' as u8, 'b' as u8, 'l' as u8,
        'i' as u8, 'c' as u8, '-' as u8, 'k' as u8, 'e' as u8, 'y' as u8,
    ]
}

/// A random function's output: the keyed hash of the input (the proof) and the hash of
/// the input.
#[derive(Clone, Debug, PartialEq, Eq)]
pub struct VrfOutput {
    pub proof: Vec<u8>,
    pub hash: [u8; 32],
}

/// An output belongs to `input`: its hash is the hash of the input.
pub open spec fn vrf_output_valid(input: Seq<u8>, output: VrfOutput) -> bool {
    output.hash@ == blake3_hash(input)
}

/// A message of the consensus protocol.
pub enum ConsensusMessage {
    Proposal { round: u64, value: Vec<u8>, vrf_proof: VrfOutput },
    Vote { round: u64, proposal_hash: [u8; 32], voter: String },
}

/// A node taking part in consensus.
pub struct ConsensusNode {
    vrf_secret_key: [u8; 32],
    vrf_public_key: [u8; 32],
    state: StrMap<Vec<u8>>,
    current_round: u64,
    proposals: Vec<(u64, Vec<(Vec<u8>, VrfOutput)>)>,
    votes: Vec<(u64, Vec<([u8; 32], Vec<String>)>)>,
}

fn bytes32_eq(a: &[u8; 32], b: &[u8; 32]) -> (res: bool)
    ensures
        res == (a@ == b@),
{
    let mut i: usize = 0;
    while i < 32
        invariant
            0 <= i <= 32,
            forall|k: int| 0 <= k < i ==> a@[k] == b@[k],
        decreases 32 - i,
    {
        if a[i] != b[i] {
            return false;
        }
        i = i + 1;
    }
    proof {
        assert(a@ =~= b@);
    }
    true
}

/// An output that the node generates for an input is accepted for that input.
pub proof fn lemma_generated_output_valid(node: ConsensusNode, input: Seq<u8>, output: VrfOutput)
    requires
        output.proof@ == blake3_keyed_hash(node.spec_secret_key(), input),
        output.hash@ == blake3_hash(input),
    ensures
        vrf_output_valid(input, output),
{
}

impl ConsensusNode {
    /// The secret key of the node's random function.
    pub closed spec fn spec_secret_key(&self) -> Seq<u8> {
        self.vrf_secret_key@
    }

    /// The public key of the node's random function.
    pub closed spec fn spec_public_key(&self) -> Seq<u8> {
        self.vrf_public_key@
    }

    /// The key/value state.
    pub closed spec fn state_entries(&self) -> Seq<(Seq<char>, Vec<u8>)> {
        self.state.entries()
    }

    /// The current round.
    pub closed spec fn spec_current_round(&self) -> u64 {
        self.current_round
    }

    /// The proposals recorded per round.
    pub closed spec fn proposal_entries(&self) -> Seq<(u64, Vec<(Vec<u8>, VrfOutput)>)> {
        self.proposals@
    }

    /// The votes recorded per round.
    pub closed spec fn vote_entries(&self) -> Seq<(u64, Vec<([u8; 32], Vec<String>)>)> {
        self.votes@
    }

    /// The node's state map is well formed.
    pub closed spec fn wf(&self) -> bool {
        self.state.wf()
    }

    /// In a well-formed node no two state entries share a key.
    pub proof fn lemma_state_keys_distinct(&self)
        requires
            self.wf(),
        ensures
            distinct_keys(self.state_entries()),
    {
    }

    /// Reading the state right after `key` was set to `value` gives `value`, and every
    /// other key reads as it did before.
    pub proof fn lemma_state_read_after_write(
        &self,
        new: ConsensusNode,
        key: Seq<char>,
        value: Vec<u8>,
        other: Seq<char>,
    )
        requires
            self.wf(),
            new.state_entries() == insert_entry(self.state_entries(), key, value),
        ensures
            lookup(new.state_entries(), key) == Some(value),
            other != key ==> lookup(new.state_entries(), other) == lookup(
                self.state_entries(),
                other,
            ),
    {
        lemma_lookup_insert(self.state_entries(), key, value, other);
    }

    /// A node with a fresh random secret key, the public key derived from it, an empty
    /// state, and round zero.
    pub fn new() -> (res: ConsensusNode)
        ensures
            res.wf(),
            res.spec_public_key() == blake3_keyed_hash(res.spec_secret_key(), public_key_label()),
            res.state_entries().len() == 0,
            res.spec_current_round() == 0,
            res.proposal_entries().len() == 0,
            res.vote_entries().len() == 0,
    {
        let secret_key = random_key();
        let label: [u8; 14] = [118, 114, 102, 45, 112, 117, 98, 108, 105, 99, 45, 107, 101, 121];
        proof {
            assert(label@ =~= public_key_label());
        }
        let public_key = keyed_hash_bytes(&secret_key, &label);
        ConsensusNode {
            vrf_secret_key: secret_key,
            vrf_public_key: public_key,
            state: StrMap::new(),
            current_round: 0,
            proposals: Vec::new(),
            votes: Vec::new(),
        }
    }

    /// The random function's output on `input`: the keyed hash under the secret key as
    /// the proof, and the plain hash.
    pub fn generate_vrf_proof(&self, input: &[u8]) -> (res: VrfOutput)
        ensures
            res.proof@ == blake3_keyed_hash(self.spec_secret_key(), input@),
            res.hash@ == blake3_hash(input@),
    {
        let proof_bytes = keyed_hash_bytes(&self.vrf_secret_key, input);
        let mut vrf_proof: Vec<u8> = Vec::new();
        for i in 0..32
            invariant
                vrf_proof@ == proof_bytes@.take(i as int),
        {
            vrf_proof.push(proof_bytes[i]);
            proof {
                assert(proof_bytes@.take((i + 1) as int) =~= proof_bytes@.take(i as int).push(
                    proof_bytes@[i as int],
                ));
            }
        }
        proof {
            assert(proof_bytes@.take(32) =~= proof_bytes@);
        }
        let hash = hash_bytes(input);
        VrfOutput { proof: vrf_proof, hash }
    }

    /// Whether an output belongs to `input`: its hash must be the hash of the input.
    pub fn verify_vrf_proof(&self, input: &[u8], output: &VrfOutput) -> (res: bool)
        ensures
            res == vrf_output_valid(input@, *output),
    {
        let expected_hash = hash_bytes(input);
        bytes32_eq(&output.hash, &expected_hash)
    }

    /// Sets `key` to `value` in the state.
    pub fn update_state(&mut self, key: String, value: Vec<u8>)
        requires
            old(self).wf(),
        ensures
            final(self).wf(),
            final(self).state_entries() == insert_entry(old(self).state_entries(), key@, value),
            final(self).spec_secret_key() == old(self).spec_secret_key(),
            final(self).spec_public_key() == old(self).spec_public_key(),
            final(self).spec_current_round() == old(self).spec_current_round(),
            final(self).proposal_entries() == old(self).proposal_entries(),
            final(self).vote_entries() == old(self).vote_entries(),
    {
        self.state.insert(key, value);
    }

    /// The value of `key` in the state, if any.
    pub fn get_state(&self, key: &str) -> (res: Option<&Vec<u8>>)
        requires
            self.wf(),
        ensures
            res matches Some(v) ==> lookup(self.state_entries(), key@) == Some(*v),
            res is None ==> lookup(self.state_entries(), key@) is None,
    {
        let k = key.to_owned();
        self.state.get(&k)
    }

    /// Handles a consensus message. A proposal's random-function output is checked
    /// against its value; nothing is recorded or sent either way, and votes are ignored.
    pub fn handle_message(&self, msg: ConsensusMessage) {
        match msg {
            ConsensusMessage::Proposal { round, value, vrf_proof } => {
                self.handle_proposal(round, value, vrf_proof);
            },
            ConsensusMessage::Vote { round, proposal_hash, voter } => {
                self.handle_vote(round, proposal_hash, voter);
            },
        }
    }

    fn handle_proposal(&self, round: u64, value: Vec<u8>, vrf_proof: VrfOutput) {
        let _verified = self.verify_vrf_proof(&value, &vrf_proof);
    }

    fn handle_vote(&self, round: u64, proposal_hash: [u8; 32], voter: String) {
    }
}

} // verus!
