//! Asynchronous distributed key generation with Feldman commitments.
//!
//! Each node deals a random polynomial of degree `t`: it sends every node `i` in
//! `1..=n` the value at `i`, together with commitments `g * c_j` to the coefficients.
//! A receiver checks its share against the commitments, keeps it, and acknowledges it.
//! Once enough valid acknowledgements have arrived, the node's secret key share is the
//! sum of the shares it kept and the group public key the sum of the dealers' constant
//! commitments.

use vstd::prelude::*;
use vstd::arithmetic::power::pow;
use vstd::arithmetic::div_mod::*;
use crate::field::{lemma_value_bound, Fr, fr_add, fr_from_u64, fr_pow, fr_random, fr_zero};
use crate::curve::{lemma_point_bound, G1Point};
use crate::poly::{
    evaluate_polynomial, fq, fr_values, interpolate_at_zero, lagrange_at_zero,
    lemma_power_sum_is_eval, poly_eval, power_sum, share_indices, share_values,
};
use crate::strmap::{
    distinct_keys, has_key, insert_entry, key_pos, lemma_lookup_insert, lookup, pushed_entry, StrMap,
};

verus! {

/// A message of the key generation protocol.
pub enum ADKGMessage {
    /// A dealer's shares for nodes `1..=n`, in order, and its coefficient commitments.
    ShareProposal { sender_id: String, shares: Vec<Fr>, commitments: Vec<G1Point> },
    /// `sender_id` acknowledges the proposal of `receiver_id`.
    ShareAck { sender_id: String, receiver_id: String, valid: bool },
}

/// The discrete logarithms of a list of points, as integers.
pub open spec fn point_values(s: Seq<G1Point>) -> Seq<int> {
    s.map_values(|p: G1Point| p@ as int)
}

/// The number of acknowledgements marked valid in a list.
pub open spec fn count_valid(acks: Seq<(String, bool)>) -> nat
    decreases acks.len(),
{
    if acks.len() == 0 {
        0
    } else {
        count_valid(acks.drop_last()) + if acks.last().1 {
            1nat
        } else {
            0nat
        }
    }
}

/// The number of valid acknowledgements over all senders.
pub open spec fn total_valid(e: Seq<(Seq<char>, Vec<(String, bool)>)>) -> nat
    decreases e.len(),
{
    if e.len() == 0 {
        0
    } else {
        total_valid(e.drop_last()) + count_valid(e.last().1@)
    }
}

/// The sum of the kept shares.
pub open spec fn share_sum(e: Seq<(Seq<char>, Fr)>) -> int
    decreases e.len(),
{
    if e.len() == 0 {
        0
    } else {
        share_sum(e.drop_last()) + e.last().1@
    }
}

/// The sum of the dealers' constant-term commitments (as discrete logarithms).
pub open spec fn constant_commitment_sum(e: Seq<(Seq<char>, Vec<G1Point>)>) -> int
    decreases e.len(),
{
    if e.len() == 0 {
        0
    } else {
        constant_commitment_sum(e.drop_last()) + e.last().1@[0]@
    }
}

/// Every dealer's commitment list is non-empty.
pub open spec fn commitments_nonempty(e: Seq<(Seq<char>, Vec<G1Point>)>) -> bool {
    forall|k: int| 0 <= k < e.len() ==> #[trigger] e[k].1@.len() > 0
}

/// Whether `share` is the value at `idx` of the polynomial committed to, i.e. whether
/// Feldman's check `sum_j C_j * idx^j == g * share` holds.
pub open spec fn share_matches(idx: u64, shares: Seq<Fr>, commitments: Seq<G1Point>) -> bool {
    &&& idx != 0
    &&& idx <= shares.len()
    &&& poly_eval(point_values(commitments), idx as int) % fq() == shares[idx - 1]@
}

proof fn lemma_count_valid_push(v: Seq<(String, bool)>, a: (String, bool))
    ensures
        count_valid(v.push(a)) == count_valid(v) + if a.1 {
            1nat
        } else {
            0nat
        },
{
    assert(v.push(a).drop_last() =~= v);
}

proof fn lemma_total_valid_changed_at(
    e1: Seq<(Seq<char>, Vec<(String, bool)>)>,
    e2: Seq<(Seq<char>, Vec<(String, bool)>)>,
    p: int,
    d: nat,
)
    requires
        e1.len() == e2.len(),
        0 <= p < e1.len(),
        count_valid(e2[p].1@) == count_valid(e1[p].1@) + d,
        forall|i: int| 0 <= i < e1.len() && i != p ==> #[trigger] e2[i] == e1[i],
    ensures
        total_valid(e2) == total_valid(e1) + d,
    decreases e1.len(),
{
    if p == e1.len() - 1 {
        assert(e2.drop_last() =~= e1.drop_last());
    } else {
        lemma_total_valid_changed_at(e1.drop_last(), e2.drop_last(), p, d);
        assert(e2.last() == e1.last());
    }
}

/// Recording one acknowledgement raises the valid count by one exactly when it is valid.
proof fn lemma_total_valid_pushed(
    e1: Seq<(Seq<char>, Vec<(String, bool)>)>,
    e2: Seq<(Seq<char>, Vec<(String, bool)>)>,
    k: Seq<char>,
    a: (String, bool),
)
    requires
        pushed_entry(e1, e2, k, a),
    ensures
        total_valid(e2) == total_valid(e1) + if a.1 {
            1nat
        } else {
            0nat
        },
{
    if has_key(e1, k) {
        let p = key_pos(e1, k);
        lemma_count_valid_push(e1[p].1@, a);
        lemma_total_valid_changed_at(e1, e2, p, if a.1 { 1nat } else { 0nat });
    } else {
        assert(e2.drop_last() =~= e1);
        lemma_count_valid_push(Seq::empty(), a);
        assert(Seq::<(String, bool)>::empty().push(a) =~= seq![a]);
    }
}

/// The state of the node's acknowledgements after `a` is recorded under `k`.
pub open spec fn ack_count_after(
    e: Seq<(Seq<char>, Vec<(String, bool)>)>,
    valid: bool,
) -> nat {
    total_valid(e) + if valid {
        1nat
    } else {
        0nat
    }
}

/// Every share of an honestly dealt proposal passes Feldman's check at its own index: if
/// each share `k` is the committed polynomial's value at `k + 1`, then a node whose index
/// `idx` lies in `1..=n` accepts the share at position `idx - 1`.
pub proof fn lemma_dealt_shares_verify(shares: Seq<Fr>, commitments: Seq<G1Point>, idx: u64)
    requires
        forall|k: int|
            0 <= k < shares.len() ==> (#[trigger] shares[k])@ == poly_eval(
                point_values(commitments),
                k + 1,
            ) % fq(),
        1 <= idx <= shares.len(),
    ensures
        share_matches(idx, shares, commitments),
{
    assert(shares[idx - 1]@ == poly_eval(point_values(commitments), idx as int) % fq());
}

/// Every kept share from a dealer other than `own` passes Feldman's check at `idx`
/// against the commitments kept for the same dealer.
pub open spec fn shares_match_commitments(
    shares: Seq<(Seq<char>, Fr)>,
    commitments: Seq<(Seq<char>, Vec<G1Point>)>,
    own: Seq<char>,
    idx: u64,
) -> bool {
    forall|k: int|
        0 <= k < shares.len() && (#[trigger] shares[k]).0 != own ==> match lookup(
            commitments,
            shares[k].0,
        ) {
            Some(c) => shares[k].1@ == poly_eval(point_values(c@), idx as int) % fq(),
            None => false,
        }
}

proof fn lemma_inserted_entry<V>(e: Seq<(Seq<char>, V)>, d: Seq<char>, v: V, k: int)
    requires
        distinct_keys(e),
        0 <= k < insert_entry(e, d, v).len(),
    ensures
        insert_entry(e, d, v)[k].0 == d ==> insert_entry(e, d, v)[k] == (d, v),
        insert_entry(e, d, v)[k].0 != d ==> 0 <= k < e.len() && insert_entry(e, d, v)[k] == e[k],
{
    if has_key(e, d) {
        let p = key_pos(e, d);
        if k != p && e[k].0 == d {
            assert(e[p].0 == d);
        }
    }
}

/// Recording commitments for `own` keeps every other dealer's shares matched.
proof fn lemma_matched_after_own_commitments(
    shares: Seq<(Seq<char>, Fr)>,
    commitments: Seq<(Seq<char>, Vec<G1Point>)>,
    own: Seq<char>,
    idx: u64,
    c: Vec<G1Point>,
)
    requires
        distinct_keys(commitments),
        shares_match_commitments(shares, commitments, own, idx),
    ensures
        shares_match_commitments(shares, insert_entry(commitments, own, c), own, idx),
{
    assert forall|k: int| 0 <= k < shares.len() && (#[trigger] shares[k]).0 != own implies match lookup(
        insert_entry(commitments, own, c),
        shares[k].0,
    ) {
        Some(cc) => shares[k].1@ == poly_eval(point_values(cc@), idx as int) % fq(),
        None => false,
    } by {
        lemma_lookup_insert(commitments, own, c, shares[k].0);
    }
}

/// Recording a share together with the commitments it was checked against keeps every
/// kept share matched.
proof fn lemma_matched_after_proposal(
    shares: Seq<(Seq<char>, Fr)>,
    commitments: Seq<(Seq<char>, Vec<G1Point>)>,
    own: Seq<char>,
    idx: u64,
    d: Seq<char>,
    s: Fr,
    c: Vec<G1Point>,
)
    requires
        distinct_keys(shares),
        distinct_keys(commitments),
        shares_match_commitments(shares, commitments, own, idx),
        s@ == poly_eval(point_values(c@), idx as int) % fq(),
    ensures
        shares_match_commitments(insert_entry(shares, d, s), insert_entry(commitments, d, c), own, idx),
{
    let ns = insert_entry(shares, d, s);
    let nc = insert_entry(commitments, d, c);
    assert forall|k: int| 0 <= k < ns.len() && (#[trigger] ns[k]).0 != own implies match lookup(
        nc,
        ns[k].0,
    ) {
        Some(cc) => ns[k].1@ == poly_eval(point_values(cc@), idx as int) % fq(),
        None => false,
    } by {
        lemma_inserted_entry(shares, d, s, k);
        lemma_lookup_insert(commitments, d, c, ns[k].0);
        if ns[k].0 != d {
            assert(shares[k] == ns[k]);
        }
    }
}

/// A node taking part in key generation.
pub struct ADKGNode {
    id: String,
    idx: u64,
    n: usize,
    t: usize,
    secret_key_share: Option<Fr>,
    public_key: Option<G1Point>,
    commitments: StrMap<Vec<G1Point>>,
    shares: StrMap<Fr>,
    acks: StrMap<Vec<(String, bool)>>,
}

impl ADKGNode {
    /// The node's identifier.
    pub closed spec fn spec_id(&self) -> Seq<char> {
        self.id@
    }

    /// The node's index among the participants, from 1.
    pub closed spec fn spec_idx(&self) -> u64 {
        self.idx
    }

    /// The number of participants.
    pub closed spec fn spec_n(&self) -> usize {
        self.n
    }

    /// The threshold.
    pub closed spec fn spec_t(&self) -> usize {
        self.t
    }

    /// The secret key share, once key generation has completed.
    pub closed spec fn spec_secret_key_share(&self) -> Option<Fr> {
        self.secret_key_share
    }

    /// The group public key, once key generation has completed.
    pub closed spec fn spec_public_key(&self) -> Option<G1Point> {
        self.public_key
    }

    /// Commitments kept per dealer.
    pub closed spec fn commitment_entries(&self) -> Seq<(Seq<char>, Vec<G1Point>)> {
        self.commitments.entries()
    }

    /// The share kept per dealer.
    pub closed spec fn share_entries(&self) -> Seq<(Seq<char>, Fr)> {
        self.shares.entries()
    }

    /// Acknowledgements received per sender.
    pub closed spec fn ack_entries(&self) -> Seq<(Seq<char>, Vec<(String, bool)>)> {
        self.acks.entries()
    }

    /// The node's maps are well formed.
    pub closed spec fn wf(&self) -> bool {
        self.commitments.wf() && self.shares.wf() && self.acks.wf()
    }

    /// In a well-formed node no dealer or sender is listed twice.
    pub proof fn lemma_keys_distinct(&self)
        requires
            self.wf(),
        ensures
            distinct_keys(self.commitment_entries()),
            distinct_keys(self.share_entries()),
            distinct_keys(self.ack_entries()),
    {
    }

    /// Every share the node keeps from another dealer passes Feldman's check against the
    /// commitments it keeps for that dealer.
    pub open spec fn shares_consistent(&self) -> bool {
        shares_match_commitments(
            self.share_entries(),
            self.commitment_entries(),
            self.spec_id(),
            self.spec_idx(),
        )
    }

    /// A fresh node with no shares, commitments or acknowledgements.
    pub fn new(id: String, n: usize, t: usize, idx: u64) -> (res: ADKGNode)
        ensures
            res.wf(),
            res.spec_id() == id@,
            res.spec_n() == n,
            res.spec_t() == t,
            res.spec_idx() == idx,
            res.spec_secret_key_share() is None,
            res.spec_public_key() is None,
            res.commitment_entries().len() == 0,
            res.share_entries().len() == 0,
            res.ack_entries().len() == 0,
            res.shares_consistent(),
    {
        ADKGNode {
            id,
            idx,
            n,
            t,
            secret_key_share: None,
            public_key: None,
            commitments: StrMap::new(),
            shares: StrMap::new(),
            acks: StrMap::new(),
        }
    }

    /// `degree + 1` random coefficients, and the constant one, which is the secret.
    pub fn generate_polynomial(&mut self, degree: usize) -> (res: (Vec<Fr>, Fr))
        requires
            degree < usize::MAX,
        ensures
            *final(self) == *old(self),
            res.0.len() == degree + 1,
            res.1 == res.0@[0],
    {
        let mut coeffs: Vec<Fr> = Vec::new();
        coeffs.push(fr_random());
        let mut k: usize = 0;
        while k < degree
            invariant
                k <= degree,
                coeffs@.len() == k + 1,
            decreases degree - k,
        {
            coeffs.push(fr_random());
            k = k + 1;
        }
        let secret = coeffs[0];
        (coeffs, secret)
    }

    /// The polynomial with coefficients `coeffs` evaluated at `i`.
    pub fn evaluate_polynomial(coeffs: &[Fr], i: u64) -> (res: Fr)
        ensures
            res@ == poly_eval(fr_values(coeffs@), i as int) % fq(),
    {
        evaluate_polynomial(coeffs, i)
    }

    /// Commitments `g * c_j` to each coefficient.
    pub fn generate_commitments(coeffs: &[Fr]) -> (res: Vec<G1Point>)
        ensures
            res@.len() == coeffs@.len(),
            forall|j: int| 0 <= j < coeffs@.len() ==> #[trigger] res@[j]@ == coeffs@[j]@,
            point_values(res@) == fr_values(coeffs@),
    {
        let mut res: Vec<G1Point> = Vec::new();
        for j in 0..coeffs.len()
            invariant
                res@.len() == j,
                forall|k: int| 0 <= k < j ==> #[trigger] res@[k]@ == coeffs@[k]@,
        {
            res.push(G1Point::generator_mul(&coeffs[j]));
        }
        proof {
            assert(point_values(res@) =~= fr_values(coeffs@));
        }
        res
    }
    /// Feldman's check of this node's share in a proposal: the share at position
    /// `idx - 1` must be the value at `idx` of the polynomial committed to. The sender's
    /// identifier plays no part in the check.
    pub fn verify_commitments(
        &self,
        sender_id: &str,
        shares: &[Fr],
        commitments: &[G1Point],
    ) -> (res: bool)
        ensures
            res == share_matches(self.spec_idx(), shares@, commitments@),
    {
        let node_index = self.idx;
        if node_index == 0 || node_index > shares.len() as u64 {
            return false;
        }
        let share = shares[(node_index - 1) as usize];
        let ghost cs = point_values(commitments@);
        let ghost m = fq();
        let mut commitment_sum = G1Point::identity();
        let x = fr_from_u64(node_index);
        proof {
            lemma_small_mod(0, m as nat);
        }
        for j in 0..commitments.len()
            invariant
                cs == point_values(commitments@),
                m == fq(),
                x@ == node_index,
                commitment_sum@ == power_sum(cs, node_index as int, j as nat) % m,
        {
            let p = fr_pow(&x, j as u64);
            let term = commitments[j].mul(&p);
            commitment_sum = commitment_sum.add(&term);
            proof {
                let c = cs[j as int];
                let pw = pow(node_index as int, j as nat);
                let ps = power_sum(cs, node_index as int, j as nat);
                assert(commitments@[j as int]@ == c);
                lemma_mul_mod_noop_right(c, pw, m);
                lemma_add_mod_noop(ps, c * pw, m);
                lemma_mod_twice(ps, m);
                lemma_mod_twice(c * pw, m);
                assert(power_sum(cs, node_index as int, (j + 1) as nat) == ps + c * pw);
            }
        }
        proof {
            lemma_power_sum_is_eval(cs, node_index as int);
        }
        let expected = G1Point::generator_mul(&share);
        commitment_sum.equals(&expected)
    }

    /// Deals a fresh random polynomial of degree `t`: the proposal carries its values at
    /// `1..=n`, in order, and commitments to its `t + 1` coefficients. The node's own
    /// commitments are recorded by `store_own_commitments` once the proposal has gone out.
    pub fn start_adkg(&mut self) -> (res: ADKGMessage)
        requires
            old(self).spec_t() < usize::MAX,
        ensures
            *final(self) == *old(self),
            res matches ADKGMessage::ShareProposal { sender_id, shares, commitments } && {
                &&& sender_id@ == old(self).spec_id()
                &&& shares@.len() == old(self).spec_n()
                &&& commitments@.len() == old(self).spec_t() + 1
                &&& forall|k: int|
                    0 <= k < shares@.len() ==> (#[trigger] shares@[k])@ == poly_eval(
                        point_values(commitments@),
                        k + 1,
                    ) % fq()
                &&& forall|idx: u64|
                    1 <= idx <= shares@.len() ==> #[trigger] share_matches(
                        idx,
                        shares@,
                        commitments@,
                    )
            },
    {
        let t = self.t;
        let (coeffs, _secret) = self.generate_polynomial(t);
        let commitments = Self::generate_commitments(&coeffs);
        let mut shares: Vec<Fr> = Vec::new();
        for k in 0..self.n
            invariant
                shares@.len() == k,
                point_values(commitments@) == fr_values(coeffs@),
                forall|j: int|
                    0 <= j < k ==> (#[trigger] shares@[j])@ == poly_eval(
                        point_values(commitments@),
                        j + 1,
                    ) % fq(),
        {
            let share = Self::evaluate_polynomial(&coeffs, (k + 1) as u64);
            shares.push(share);
        }
        proof {
            assert forall|idx: u64| 1 <= idx <= shares@.len() implies #[trigger] share_matches(
                idx,
                shares@,
                commitments@,
            ) by {
                lemma_dealt_shares_verify(shares@, commitments@, idx);
            }
        }
        ADKGMessage::ShareProposal { sender_id: self.id.clone(), shares, commitments }
    }

    /// Records the node's own commitments under its identifier.
    pub fn store_own_commitments(&mut self, commitments: Vec<G1Point>)
        requires
            old(self).wf(),
        ensures
            final(self).wf(),
            final(self).commitment_entries() == insert_entry(
                old(self).commitment_entries(),
                old(self).spec_id(),
                commitments,
            ),
            final(self).share_entries() == old(self).share_entries(),
            final(self).ack_entries() == old(self).ack_entries(),
            final(self).spec_id() == old(self).spec_id(),
            final(self).spec_idx() == old(self).spec_idx(),
            final(self).spec_n() == old(self).spec_n(),
            final(self).spec_t() == old(self).spec_t(),
            final(self).spec_secret_key_share() == old(self).spec_secret_key_share(),
            final(self).spec_public_key() == old(self).spec_public_key(),
            old(self).shares_consistent() ==> final(self).shares_consistent(),
    {
        let id = self.id.clone();
        let ghost c = commitments;
        self.commitments.insert(id, commitments);
        proof {
            if old(self).shares_consistent() {
                lemma_matched_after_own_commitments(
                    old(self).share_entries(),
                    old(self).commitment_entries(),
                    old(self).spec_id(),
                    old(self).spec_idx(),
                    c,
                );
            }
        }
    }

    /// The number of valid acknowledgements received, counted up to `cap`.
    fn capped_valid_count(&self, cap: usize) -> (res: usize)
        ensures
            res == if total_valid(self.ack_entries()) < cap {
                total_valid(self.ack_entries())
            } else {
                cap as nat
            },
    {
        let ghost ae = self.acks.entries();
        let mut count: usize = 0;
        let mut a: usize = 0;
        while a < self.acks.len()
            invariant
                self.acks.entries() == ae,
                0 <= a <= ae.len(),
                count == if total_valid(ae.take(a as int)) < cap {
                    total_valid(ae.take(a as int))
                } else {
                    cap as nat
                },
            decreases ae.len() - a,
        {
            let list = self.acks.value_at(a);
            let ghost base = total_valid(ae.take(a as int));
            let mut b: usize = 0;
            while b < list.len()
                invariant
                    0 <= b <= list@.len(),
                    count == if base + count_valid(list@.take(b as int)) < cap {
                        base + count_valid(list@.take(b as int))
                    } else {
                        cap as nat
                    },
                decreases list@.len() - b,
            {
                proof {
                    assert(list@.take((b + 1) as int).drop_last() =~= list@.take(b as int));
                }
                if list[b].1 && count < cap {
                    count = count + 1;
                }
                b = b + 1;
            }
            proof {
                assert(list@.take(list@.len() as int) =~= list@);
                assert(ae.take((a + 1) as int).drop_last() =~= ae.take(a as int));
            }
            a = a + 1;
        }
        proof {
            assert(ae.take(ae.len() as int) =~= ae);
        }
        count
    }

    /// Whether every dealer's kept commitment list is non-empty.
    fn all_commitments_nonempty(&self) -> (res: bool)
        requires
            self.wf(),
        ensures
            res == commitments_nonempty(self.commitment_entries()),
    {
        let ghost ce = self.commitments.entries();
        let mut k: usize = 0;
        while k < self.commitments.len()
            invariant
                self.commitments.entries() == ce,
                0 <= k <= ce.len(),
                forall|j: int| 0 <= j < k ==> #[trigger] ce[j].1@.len() > 0,
            decreases ce.len() - k,
        {
            if self.commitments.value_at(k).len() == 0 {
                return false;
            }
            k = k + 1;
        }
        true
    }

    /// Whether handling `msg` would complete key generation while some dealer's kept
    /// commitment list is empty: then there is no constant-term commitment to sum, and
    /// `handle_message` does not take the message.
    pub fn completes_without_commitments(&self, msg: &ADKGMessage) -> (res: bool)
        requires
            self.wf(),
        ensures
            res == (*msg matches ADKGMessage::ShareAck { receiver_id, valid, .. } && receiver_id@
                == self.spec_id() && ack_count_after(self.ack_entries(), valid) >= self.spec_t()
                && !commitments_nonempty(self.commitment_entries())),
    {
        match msg {
            ADKGMessage::ShareProposal { .. } => false,
            ADKGMessage::ShareAck { receiver_id, valid, .. } => {
                if *receiver_id != self.id {
                    return false;
                }
                let t = self.t;
                let c = self.capped_valid_count(t);
                let reached = if *valid {
                    t == 0 || c >= t - 1
                } else {
                    c >= t
                };
                reached && !self.all_commitments_nonempty()
            },
        }
    }

    /// Completes key generation once at least `t` valid acknowledgements have arrived:
    /// the secret key share becomes the sum of the kept shares and the public key the
    /// sum of the dealers' constant-term commitments. Below the threshold nothing changes.
    fn check_completion(&mut self)
        requires
            old(self).wf(),
            total_valid(old(self).ack_entries()) >= old(self).spec_t() ==> commitments_nonempty(
                old(self).commitment_entries(),
            ),
        ensures
            final(self).wf(),
            final(self).commitment_entries() == old(self).commitment_entries(),
            final(self).share_entries() == old(self).share_entries(),
            final(self).ack_entries() == old(self).ack_entries(),
            final(self).spec_id() == old(self).spec_id(),
            final(self).spec_idx() == old(self).spec_idx(),
            final(self).spec_n() == old(self).spec_n(),
            final(self).spec_t() == old(self).spec_t(),
            total_valid(old(self).ack_entries()) >= old(self).spec_t() ==> {
                &&& final(self).spec_secret_key_share() matches Some(s) && s@ == share_sum(
                    old(self).share_entries(),
                ) % fq()
                &&& final(self).spec_public_key() matches Some(p) && p@
                    == constant_commitment_sum(old(self).commitment_entries()) % fq()
            },
            total_valid(old(self).ack_entries()) < old(self).spec_t() ==> {
                &&& final(self).spec_secret_key_share() == old(self).spec_secret_key_share()
                &&& final(self).spec_public_key() == old(self).spec_public_key()
            },
    {
        let ghost m = fq();
        let t = self.t;
        let count = self.capped_valid_count(t);
        if count >= t {
            let ghost se = self.shares.entries();
            let mut secret_key_share = fr_zero();
            proof {
                lemma_small_mod(0, m as nat);
            }
            let mut k: usize = 0;
            while k < self.shares.len()
                invariant
                    self.shares.entries() == se,
                    m == fq(),
                    0 <= k <= se.len(),
                    secret_key_share@ == share_sum(se.take(k as int)) % m,
                decreases se.len() - k,
            {
                let ghost prev = share_sum(se.take(k as int));
                let v = self.shares.value_at(k);
                secret_key_share = fr_add(&secret_key_share, v);
                proof {
                    assert(se.take((k + 1) as int).drop_last() =~= se.take(k as int));
                    assert(share_sum(se.take((k + 1) as int)) == prev + v@);
                    lemma_add_mod_noop(prev, v@ as int, m);
                    lemma_mod_twice(prev, m);
                    use_type_invariant(v);
                    lemma_value_bound(*v);
                    lemma_small_mod(v@, m as nat);
                }
                k = k + 1;
            }
            proof {
                assert(se.take(se.len() as int) =~= se);
            }
            self.secret_key_share = Some(secret_key_share);
            let ghost ce = self.commitments.entries();
            let mut public_key = G1Point::identity();
            let mut k: usize = 0;
            while k < self.commitments.len()
                invariant
                    self.commitments.entries() == ce,
                    commitments_nonempty(ce),
                    m == fq(),
                    0 <= k <= ce.len(),
                    public_key@ == constant_commitment_sum(ce.take(k as int)) % m,
                decreases ce.len() - k,
            {
                let ghost prev = constant_commitment_sum(ce.take(k as int));
                let comms = self.commitments.value_at(k);
                assert(ce[k as int].1@.len() > 0);
                let c0 = comms[0];
                public_key = public_key.add(&c0);
                proof {
                    assert(ce.take((k + 1) as int).drop_last() =~= ce.take(k as int));
                    assert(constant_commitment_sum(ce.take((k + 1) as int)) == prev + c0@);
                    lemma_add_mod_noop(prev, c0@ as int, m);
                    lemma_mod_twice(prev, m);
                    use_type_invariant(&c0);
                    lemma_point_bound(c0);
                    lemma_small_mod(c0@, m as nat);
                }
                k = k + 1;
            }
            proof {
                assert(ce.take(ce.len() as int) =~= ce);
            }
            self.public_key = Some(public_key);
        }
    }
    /// Handles a protocol message and returns the message to publish in reply, if any.
    ///
    /// A proposal whose share for this node passes Feldman's check is kept (the share
    /// and the commitments, under the dealer) and acknowledged; any other proposal is
    /// ignored. An acknowledgement addressed to this node is recorded under its sender,
    /// after which completion is checked; others are ignored.
    pub fn handle_message(&mut self, msg: ADKGMessage) -> (res: Option<ADKGMessage>)
        requires
            old(self).wf(),
            msg matches ADKGMessage::ShareAck { receiver_id, valid, .. } && receiver_id@ == old(
                self,
            ).spec_id() && ack_count_after(old(self).ack_entries(), valid) >= old(self).spec_t()
                ==> commitments_nonempty(old(self).commitment_entries()),
        ensures
            final(self).wf(),
            old(self).shares_consistent() ==> final(self).shares_consistent(),
            final(self).spec_id() == old(self).spec_id(),
            final(self).spec_idx() == old(self).spec_idx(),
            final(self).spec_n() == old(self).spec_n(),
            final(self).spec_t() == old(self).spec_t(),
            msg matches ADKGMessage::ShareProposal { sender_id, shares, commitments } ==> if share_matches(
                old(self).spec_idx(),
                shares@,
                commitments@,
            ) {
                &&& final(self).share_entries() == insert_entry(
                    old(self).share_entries(),
                    sender_id@,
                    shares@[old(self).spec_idx() - 1],
                )
                &&& final(self).commitment_entries() == insert_entry(
                    old(self).commitment_entries(),
                    sender_id@,
                    commitments,
                )
                &&& final(self).ack_entries() == old(self).ack_entries()
                &&& final(self).spec_secret_key_share() == old(self).spec_secret_key_share()
                &&& final(self).spec_public_key() == old(self).spec_public_key()
                &&& res matches Some(ADKGMessage::ShareAck { sender_id: s, receiver_id: r, valid: v })
                    && s@ == old(self).spec_id() && r@ == sender_id@ && v
            } else {
                *final(self) == *old(self) && res is None
            },
            msg matches ADKGMessage::ShareAck { sender_id, receiver_id, valid } ==> res is None && if receiver_id@
                == old(self).spec_id() {
                &&& pushed_entry(
                    old(self).ack_entries(),
                    final(self).ack_entries(),
                    sender_id@,
                    (sender_id, valid),
                )
                &&& final(self).share_entries() == old(self).share_entries()
                &&& final(self).commitment_entries() == old(self).commitment_entries()
                &&& ack_count_after(old(self).ack_entries(), valid) >= old(self).spec_t() ==> {
                    &&& final(self).spec_secret_key_share() matches Some(x) && x@ == share_sum(
                        old(self).share_entries(),
                    ) % fq()
                    &&& final(self).spec_public_key() matches Some(p) && p@
                        == constant_commitment_sum(old(self).commitment_entries()) % fq()
                }
                &&& ack_count_after(old(self).ack_entries(), valid) < old(self).spec_t() ==> {
                    &&& final(self).spec_secret_key_share() == old(self).spec_secret_key_share()
                    &&& final(self).spec_public_key() == old(self).spec_public_key()
                }
            } else {
                *final(self) == *old(self)
            },
    {
        match msg {
            ADKGMessage::ShareProposal { sender_id, shares, commitments } => {
                if self.verify_commitments(sender_id.as_str(), &shares, &commitments) {
                    if self.idx > 0 && (self.idx as usize) <= shares.len() {
                        let share = shares[self.idx as usize - 1];
                        let ghost c = commitments;
                        self.shares.insert(sender_id.clone(), share);
                        self.commitments.insert(sender_id.clone(), commitments);
                        proof {
                            if old(self).shares_consistent() {
                                lemma_matched_after_proposal(
                                    old(self).share_entries(),
                                    old(self).commitment_entries(),
                                    old(self).spec_id(),
                                    old(self).spec_idx(),
                                    sender_id@,
                                    share,
                                    c,
                                );
                            }
                        }
                    }
                    let ack = ADKGMessage::ShareAck {
                        sender_id: self.id.clone(),
                        receiver_id: sender_id,
                        valid: true,
                    };
                    Some(ack)
                } else {
                    None
                }
            },
            ADKGMessage::ShareAck { sender_id, receiver_id, valid } => {
                if receiver_id == self.id {
                    let ghost old_acks = self.acks.entries();
                    let ack = (sender_id.clone(), valid);
                    self.acks.push_to(sender_id, ack);
                    proof {
                        lemma_total_valid_pushed(old_acks, self.acks.entries(), sender_id@, ack);
                    }
                    self.check_completion();
                }
                None
            },
        }
    }

    /// The secret at zero of the polynomial through the given `(index, share)` points,
    /// by Lagrange interpolation in the field.
    pub fn reconstruct_secret(shares: Vec<(u64, Fr)>) -> (res: Fr)
        ensures
            res@ == lagrange_at_zero(share_indices(shares@), share_values(shares@)) % fq(),
            forall|c: Seq<int>|
                c.len() <= shares@.len() && (forall|a: int, b: int|
                    0 <= a < shares@.len() && 0 <= b < shares@.len() && a != b ==> shares@[a].0
                        != shares@[b].0) && (forall|a: int|
                    0 <= a < shares@.len() ==> (#[trigger] shares@[a].1@ as int) % fq()
                        == poly_eval(c, shares@[a].0 as int) % fq()) ==> res@ == poly_eval(c, 0)
                    % fq(),
    {
        interpolate_at_zero(shares.as_slice())
    }

    /// The node's identifier.
    pub fn id(&self) -> (res: &String)
        ensures
            res@ == self.spec_id(),
    {
        &self.id
    }

    /// The secret key share, once key generation has completed.
    pub fn secret_key_share(&self) -> (res: Option<Fr>)
        ensures
            res == self.spec_secret_key_share(),
    {
        self.secret_key_share
    }

    /// The group public key, once key generation has completed.
    pub fn public_key(&self) -> (res: Option<G1Point>)
        ensures
            res == self.spec_public_key(),
    {
        self.public_key
    }

    /// The share kept from a dealer, if any.
    pub fn share_from(&self, dealer: &String) -> (res: Option<Fr>)
        requires
            self.wf(),
        ensures
            res == lookup(self.share_entries(), dealer@),
    {
        match self.shares.get(dealer) {
            Some(v) => Some(*v),
            None => None,
        }
    }
}

} // verus!
