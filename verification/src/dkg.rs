//! Distributed key generation: each node deals shares of a random polynomial to the
//! nodes `1..=total_nodes` and acknowledges the shares it receives.

use vstd::prelude::*;
use crate::field::{Fr, fr_random};
use crate::curve::{lemma_point_bound, G1Point};
use crate::poly::{evaluate_polynomial, fq, fr_values, poly_eval};
use crate::strmap::{distinct_keys, insert_entry, pushed_entry, StrMap};
use crate::types::{KeyShare, SerializableG1Affine, SerializableScalar};
use vstd::arithmetic::div_mod::{lemma_add_mod_noop, lemma_mod_twice, lemma_small_mod};

verus! {

/// A message of the key generation protocol.
pub enum DKGMessage {
    /// A dealer's shares, each tagged with the index of the node it is for, and the
    /// commitments to its polynomial's coefficients.
    ShareDistribution {
        from: String,
        shares: Vec<KeyShare>,
        commitments: Vec<SerializableG1Affine>,
    },
    /// `from` reports on the shares that `to` dealt.
    ShareValidation { from: String, to: String, is_valid: bool },
}

/// Where a node stands in key generation.
#[derive(Debug, PartialEq, Eq)]
pub enum DKGStatus {
    New,
    Error { kind: String },
    Started,
    Completed,
}

/// `c` is an ASCII decimal digit.
pub open spec fn is_decimal_digit(c: char) -> bool {
    '0' <= c <= '9'
}

/// The number that a string of decimal digits denotes.
pub open spec fn decimal_value(d: Seq<char>) -> nat
    decreases d.len(),
{
    if d.len() == 0 {
        0
    } else {
        decimal_value(d.drop_last()) * 10 + ((d.last() as nat) - ('0' as nat)) as nat
    }
}

/// The digits of an unsigned number in text: what follows an optional leading `+`.
pub open spec fn unsigned_digits(s: Seq<char>) -> Seq<char> {
    if s.len() > 0 && s[0] == '+' {
        s.drop_first()
    } else {
        s
    }
}

/// How `str::parse::<usize>` reads a string: an optional `+` followed by one or more
/// decimal digits, denoting a number that fits a `usize`.
pub open spec fn parsed_usize(s: Seq<char>) -> Option<usize> {
    let d = unsigned_digits(s);
    if d.len() > 0 && (forall|i: int| 0 <= i < d.len() ==> #[trigger] is_decimal_digit(d[i]))
        && decimal_value(d) <= usize::MAX {
        Some(decimal_value(d) as usize)
    } else {
        None
    }
}

/// Appending digits never lowers the value: a prefix of a digit string denotes at most
/// what the whole string does.
proof fn lemma_decimal_value_prefix(d: Seq<char>, k: int)
    requires
        0 <= k <= d.len(),
        forall|i: int| 0 <= i < d.len() ==> #[trigger] is_decimal_digit(d[i]),
    ensures
        decimal_value(d.take(k)) <= decimal_value(d),
    decreases d.len(),
{
    if k < d.len() {
        let t = d.drop_last();
        assert forall|i: int| 0 <= i < t.len() implies #[trigger] is_decimal_digit(t[i]) by {
            assert(t[i] == d[i]);
        }
        lemma_decimal_value_prefix(t, k);
        assert(t.take(k) =~= d.take(k));
        assert(is_decimal_digit(d[d.len() - 1]));
    } else {
        assert(d.take(k) =~= d);
    }
}

/// Reads an unsigned decimal number the way `str::parse::<usize>` does: an optional
/// `+` followed by one or more decimal digits whose value fits a `usize`; anything else
/// (empty input, other characters, overflow) gives `None`.
fn parse_usize(s: &str) -> (res: Option<usize>)
    ensures
        res == parsed_usize(s@),
{
    let n = s.unicode_len();
    let ghost d = unsigned_digits(s@);
    let mut start: usize = 0;
    if n > 0 && s.get_char(0) == '+' {
        start = 1;
    }
    proof {
        assert(d =~= s@.subrange(start as int, n as int));
    }
    if start == n {
        return None;
    }
    let mut value: usize = 0;
    let mut i: usize = start;
    while i < n
        invariant
            start <= i <= n,
            start < n,
            n == s@.len(),
            d == s@.subrange(start as int, n as int),
            d == unsigned_digits(s@),
            forall|k: int| 0 <= k < i - start ==> #[trigger] is_decimal_digit(d[k]),
            value == decimal_value(d.take(i - start)),
        decreases n - i,
    {
        let c = s.get_char(i);
        proof {
            assert(d[i - start] == c);
        }
        if !('0' <= c && c <= '9') {
            proof {
                assert(!is_decimal_digit(d[i - start]));
            }
            return None;
        }
        let digit: u32 = (c as u32) - ('0' as u32);
        assert(digit <= 9);
        let ghost next = d.take(i - start + 1);
        proof {
            assert(next.drop_last() =~= d.take(i - start));
            assert(next.last() == c);
            assert(decimal_value(next) == value * 10 + digit);
        }
        if value > (usize::MAX - digit as usize) / 10 {
            proof {
                assert(value * 10 + digit > usize::MAX) by (nonlinear_arith)
                    requires
                        value > (usize::MAX - digit) / 10,
                        digit <= 9,
                ;
                assert(decimal_value(next) > usize::MAX);
                if forall|k: int| 0 <= k < d.len() ==> #[trigger] is_decimal_digit(d[k]) {
                    lemma_decimal_value_prefix(d, i - start + 1);
                    assert(decimal_value(d) > usize::MAX);
                }
            }
            return None;
        }
        proof {
            assert(value * 10 + digit <= usize::MAX) by (nonlinear_arith)
                requires
                    value <= (usize::MAX - digit) / 10,
                    digit <= 9,
            ;
        }
        value = value * 10 + digit as usize;
        i = i + 1;
    }
    proof {
        assert(d.take(n - start) =~= d);
    }
    Some(value)
}

/// The first share in the list whose index is `index`.
pub open spec fn first_with_index(s: Seq<KeyShare>, index: usize) -> Option<KeyShare>
    decreases s.len(),
{
    if s.len() == 0 {
        None
    } else if s[0].index == index {
        Some(s[0])
    } else {
        first_with_index(s.drop_first(), index)
    }
}

proof fn lemma_first_with_index_consecutive(s: Seq<KeyShare>, offset: int, index: usize)
    requires
        forall|k: int| 0 <= k < s.len() ==> (#[trigger] s[k]).index == k + offset,
        offset <= index < offset + s.len(),
    ensures
        first_with_index(s, index) == Some(s[index - offset]),
    decreases s.len(),
{
    if s[0].index != index {
        let t = s.drop_first();
        assert forall|k: int| 0 <= k < t.len() implies (#[trigger] t[k]).index == k + (offset
            + 1) by {
            assert(t[k] == s[k + 1]);
        }
        lemma_first_with_index_consecutive(t, offset + 1, index);
        assert(t[index - (offset + 1)] == s[index - offset]);
    }
}

/// A distribution dealt by `start_dkg` gives every node whose index lies in
/// `1..=total_nodes` the share meant for it: the first share tagged with its index is
/// the committed polynomial's value at that index.
pub proof fn lemma_dealt_share_is_found(
    shares: Seq<KeyShare>,
    commitments: Seq<SerializableG1Affine>,
    index: usize,
)
    requires
        forall|k: int|
            0 <= k < shares.len() ==> (#[trigger] shares[k]).index == k + 1 && shares[k].value.0@
                == poly_eval(wire_point_values(commitments), k + 1) % fq(),
        1 <= index <= shares.len(),
    ensures
        first_with_index(shares, index) matches Some(share) && share.index == index
            && share.value.0@ == poly_eval(wire_point_values(commitments), index as int) % fq(),
{
    lemma_first_with_index_consecutive(shares, 1, index);
    assert(shares[index - 1].index == index);
}

/// Every reporter has filed at least `t` validations.
pub open spec fn validations_complete(e: Seq<(Seq<char>, Vec<bool>)>, t: usize) -> bool {
    forall|k: int| 0 <= k < e.len() ==> #[trigger] e[k].1@.len() >= t
}

/// The sum of the kept shares' values.
pub open spec fn key_share_sum(e: Seq<(Seq<char>, KeyShare)>) -> int
    decreases e.len(),
{
    if e.len() == 0 {
        0
    } else {
        key_share_sum(e.drop_last()) + e.last().1.value.0@
    }
}

/// The discrete logarithms of wire points, as integers.
pub open spec fn wire_point_values(s: Seq<SerializableG1Affine>) -> Seq<int> {
    s.map_values(|p: SerializableG1Affine| p.0@ as int)
}

/// The points inside wire points.
pub open spec fn unwrap_points(s: Seq<SerializableG1Affine>) -> Seq<G1Point> {
    s.map_values(|p: SerializableG1Affine| p.0)
}

/// The node index that an identifier denotes: its decimal value, or `usize::MAX` when
/// it is not a decimal number that fits a `usize`.
pub open spec fn index_of_id(id: Seq<char>) -> usize {
    match parsed_usize(id) {
        Some(v) => v,
        None => usize::MAX,
    }
}

/// The status a node has after a run of steps, given for each step whether it started
/// key generation: `New` until the first start, `Started` from then on.
pub open spec fn status_after_steps(starts: Seq<bool>) -> DKGStatus {
    if starts.contains(true) {
        DKGStatus::Started
    } else {
        DKGStatus::New
    }
}

/// A node taking part in key generation.
pub struct DKGNode {
    id: String,
    status: DKGStatus,
    threshold: usize,
    total_nodes: usize,
    shares: StrMap<KeyShare>,
    commitments: StrMap<Vec<G1Point>>,
    validations: StrMap<Vec<bool>>,
}

impl DKGNode {
    /// The node's identifier.
    pub closed spec fn spec_id(&self) -> Seq<char> {
        self.id@
    }

    /// The node's status.
    pub closed spec fn spec_status(&self) -> DKGStatus {
        self.status
    }

    /// The threshold.
    pub closed spec fn spec_threshold(&self) -> usize {
        self.threshold
    }

    /// The number of nodes.
    pub closed spec fn spec_total_nodes(&self) -> usize {
        self.total_nodes
    }

    /// The share kept per dealer.
    pub closed spec fn share_entries(&self) -> Seq<(Seq<char>, KeyShare)> {
        self.shares.entries()
    }

    /// The commitments kept per dealer.
    pub closed spec fn commitment_entries(&self) -> Seq<(Seq<char>, Vec<G1Point>)> {
        self.commitments.entries()
    }

    /// The validations filed per dealer.
    pub closed spec fn validation_entries(&self) -> Seq<(Seq<char>, Vec<bool>)> {
        self.validations.entries()
    }

    /// The node's maps are well formed.
    pub closed spec fn wf(&self) -> bool {
        self.shares.wf() && self.commitments.wf() && self.validations.wf()
    }

    /// In a well-formed node no dealer is listed twice.
    pub proof fn lemma_keys_distinct(&self)
        requires
            self.wf(),
        ensures
            distinct_keys(self.share_entries()),
            distinct_keys(self.commitment_entries()),
            distinct_keys(self.validation_entries()),
    {
    }

    /// What starting key generation does: the status becomes `Started`, nothing else
    /// changes, and the distribution holds the values at `1..=total_nodes` of the
    /// polynomial whose coefficients the commitments are to.
    pub open spec fn started(self, new: DKGNode, res: DKGMessage) -> bool {
        &&& new.spec_status() == DKGStatus::Started
        &&& new.spec_id() == self.spec_id()
        &&& new.spec_threshold() == self.spec_threshold()
        &&& new.spec_total_nodes() == self.spec_total_nodes()
        &&& new.share_entries() == self.share_entries()
        &&& new.commitment_entries() == self.commitment_entries()
        &&& new.validation_entries() == self.validation_entries()
        &&& new.wf() == self.wf()
        &&& res matches DKGMessage::ShareDistribution { from, shares, commitments } && {
            &&& from@ == self.spec_id()
            &&& shares@.len() == self.spec_total_nodes()
            &&& commitments@.len() == self.spec_threshold() + 1
            &&& forall|k: int|
                0 <= k < shares@.len() ==> (#[trigger] shares@[k]).index == k + 1
                    && shares@[k].value.0@ == poly_eval(wire_point_values(commitments@), k + 1)
                    % fq()
        }
    }

    /// What handling a message does (see `handle_message`).
    pub open spec fn handled(self, new: DKGNode, msg: DKGMessage, res: Option<DKGMessage>) -> bool {
        &&& new.wf()
        &&& new.spec_id() == self.spec_id()
        &&& new.spec_status() == self.spec_status()
        &&& new.spec_threshold() == self.spec_threshold()
        &&& new.spec_total_nodes() == self.spec_total_nodes()
        &&& msg matches DKGMessage::ShareDistribution { from, shares, commitments }
            ==> match first_with_index(shares@, index_of_id(self.spec_id())) {
            Some(share) => {
                &&& new.share_entries() == insert_entry(self.share_entries(), from@, share)
                &&& exists|v: Vec<G1Point>|
                    v@ == unwrap_points(commitments@) && new.commitment_entries()
                        == insert_entry(self.commitment_entries(), from@, v)
                &&& new.validation_entries() == self.validation_entries()
                &&& res matches Some(DKGMessage::ShareValidation { from: f, to, is_valid })
                    && f@ == self.spec_id() && to@ == from@ && is_valid
            },
            None => new == self && res is None,
        }
    }

    /// A fresh node.
    pub fn new(id: String, threshold: usize, total_nodes: usize) -> (res: DKGNode)
        ensures
            res.wf(),
            res.spec_id() == id@,
            res.spec_status() == DKGStatus::New,
            res.spec_threshold() == threshold,
            res.spec_total_nodes() == total_nodes,
            res.share_entries().len() == 0,
            res.commitment_entries().len() == 0,
            res.validation_entries().len() == 0,
    {
        DKGNode {
            id,
            status: DKGStatus::New,
            threshold,
            total_nodes,
            shares: StrMap::new(),
            commitments: StrMap::new(),
            validations: StrMap::new(),
        }
    }

    /// The threshold: the degree of the polynomials the node deals.
    pub fn threshold(&self) -> (res: usize)
        ensures
            res == self.spec_threshold(),
    {
        self.threshold
    }

    /// A copy of the node's status.
    pub fn get_status(&self) -> (res: DKGStatus)
        ensures
            res == self.spec_status(),
    {
        match &self.status {
            DKGStatus::New => DKGStatus::New,
            DKGStatus::Error { kind } => DKGStatus::Error { kind: kind.clone() },
            DKGStatus::Started => DKGStatus::Started,
            DKGStatus::Completed => DKGStatus::Completed,
        }
    }

    /// `threshold + 1` random coefficients.
    fn generate_polynomial(&self) -> (res: Vec<Fr>)
        requires
            self.threshold < usize::MAX,
        ensures
            res@.len() == self.threshold + 1,
    {
        let mut coefficients: Vec<Fr> = Vec::new();
        let mut k: usize = 0;
        while k <= self.threshold
            invariant
                k <= self.threshold + 1,
                self.threshold < usize::MAX,
                coefficients@.len() == k,
            decreases self.threshold + 1 - k,
        {
            coefficients.push(fr_random());
            k = k + 1;
        }
        coefficients
    }

    /// The polynomial's value at each node index `1..=total_nodes`, tagged with the index.
    fn generate_shares(&self, polynomial: &[Fr]) -> (res: Vec<KeyShare>)
        ensures
            res@.len() == self.total_nodes,
            forall|k: int|
                0 <= k < res@.len() ==> (#[trigger] res@[k]).index == k + 1 && res@[k].value.0@
                    == poly_eval(fr_values(polynomial@), k + 1) % fq(),
    {
        let mut shares: Vec<KeyShare> = Vec::new();
        for k in 0..self.total_nodes
            invariant
                shares@.len() == k,
                forall|j: int|
                    0 <= j < k ==> (#[trigger] shares@[j]).index == j + 1 && shares@[j].value.0@
                        == poly_eval(fr_values(polynomial@), j + 1) % fq(),
        {
            let i = k + 1;
            let y = evaluate_polynomial(polynomial, i as u64);
            shares.push(KeyShare { index: i, value: SerializableScalar(y) });
        }
        shares
    }

    /// Commitments `g * c_j` to each coefficient.
    fn generate_commitments(&self, polynomial: &[Fr]) -> (res: Vec<SerializableG1Affine>)
        ensures
            wire_point_values(res@) == fr_values(polynomial@),
    {
        let mut commitments: Vec<SerializableG1Affine> = Vec::new();
        for j in 0..polynomial.len()
            invariant
                commitments@.len() == j,
                forall|k: int| 0 <= k < j ==> #[trigger] commitments@[k].0@ == polynomial@[k]@,
        {
            commitments.push(SerializableG1Affine(G1Point::generator_mul(&polynomial[j])));
        }
        proof {
            assert(wire_point_values(commitments@) =~= fr_values(polynomial@));
        }
        commitments
    }

    /// Starts key generation: deals a fresh random polynomial of degree `threshold` and
    /// returns the distribution to broadcast on the key generation topic.
    pub fn start_dkg(&mut self) -> (res: DKGMessage)
        requires
            old(self).spec_threshold() < usize::MAX,
        ensures
            old(self).started(*final(self), res),
    {
        let polynomial = self.generate_polynomial();
        let shares = self.generate_shares(&polynomial);
        let commitments = self.generate_commitments(&polynomial);
        proof {
            assert(wire_point_values(commitments@).len() == commitments@.len());
            assert(fr_values(polynomial@).len() == polynomial@.len());
        }
        self.status = DKGStatus::Started;
        DKGMessage::ShareDistribution { from: self.id.clone(), shares, commitments }
    }
    /// Handles a protocol message and returns the message to broadcast in reply, if any.
    ///
    /// From a distribution, the node keeps the first share tagged with its own index
    /// (its identifier read as a decimal number) together with the dealer's commitments,
    /// and reports it valid; a distribution without such a share is ignored.
    ///
    /// A validation report is not taken (`requires`): a node that is handed one does
    /// not come back from it, so callers hold such reports back.
    pub fn handle_message(&mut self, msg: DKGMessage) -> (res: Option<DKGMessage>)
        requires
            old(self).wf(),
            !(msg is ShareValidation),
        ensures
            old(self).handled(*final(self), msg, res),
    {
        match msg {
            DKGMessage::ShareDistribution { from, shares, commitments } => {
                self.handle_share_distribution(from, shares, commitments)
            },
            DKGMessage::ShareValidation { from, to, is_valid } => {
                self.handle_share_validation(from, to, is_valid);
                None
            },
        }
    }

    fn handle_share_distribution(
        &mut self,
        from: String,
        shares: Vec<KeyShare>,
        commitments: Vec<SerializableG1Affine>,
    ) -> (res: Option<DKGMessage>)
        requires
            old(self).wf(),
        ensures
            final(self).wf(),
            final(self).spec_id() == old(self).spec_id(),
            final(self).spec_status() == old(self).spec_status(),
            final(self).spec_threshold() == old(self).spec_threshold(),
            final(self).spec_total_nodes() == old(self).spec_total_nodes(),
            match first_with_index(shares@, index_of_id(old(self).spec_id())) {
                Some(share) => {
                    &&& final(self).share_entries() == insert_entry(
                        old(self).share_entries(),
                        from@,
                        share,
                    )
                    &&& exists|v: Vec<G1Point>|
                        v@ == unwrap_points(commitments@) && final(self).commitment_entries()
                            == insert_entry(old(self).commitment_entries(), from@, v)
                    &&& final(self).validation_entries() == old(self).validation_entries()
                    &&& res matches Some(DKGMessage::ShareValidation { from: f, to, is_valid })
                        && f@ == old(self).spec_id() && to@ == from@ && is_valid
                },
                None => *final(self) == *old(self) && res is None,
            },
    {
        let mut raw_commitments: Vec<G1Point> = Vec::new();
        for j in 0..commitments.len()
            invariant
                raw_commitments@ == unwrap_points(commitments@).take(j as int),
        {
            raw_commitments.push(commitments[j].0);
            proof {
                assert(unwrap_points(commitments@).take((j + 1) as int) =~= unwrap_points(
                    commitments@,
                ).take(j as int).push(commitments@[j as int].0));
            }
        }
        proof {
            assert(unwrap_points(commitments@).take(commitments@.len() as int) =~= unwrap_points(
                commitments@,
            ));
        }
        let id_parsed = match parse_usize(self.id.as_str()) {
            Some(v) => v,
            None => usize::MAX,
        };
        if self.verify_shares(&shares, &raw_commitments) {
            let mut found: Option<KeyShare> = None;
            let mut k: usize = 0;
            proof {
                assert(shares@.subrange(0, shares@.len() as int) =~= shares@);
            }
            while k < shares.len()
                invariant_except_break
                    0 <= k <= shares@.len(),
                    found is None,
                    first_with_index(shares@, id_parsed) == first_with_index(
                        shares@.subrange(k as int, shares@.len() as int),
                        id_parsed,
                    ),
                ensures
                    found == first_with_index(shares@, id_parsed),
                decreases shares@.len() - k,
            {
                let ghost rest = shares@.subrange(k as int, shares@.len() as int);
                proof {
                    assert(rest.drop_first() =~= shares@.subrange(k + 1, shares@.len() as int));
                    assert(rest[0] == shares@[k as int]);
                    if k + 1 == shares@.len() {
                        assert(shares@.subrange(k + 1, shares@.len() as int).len() == 0);
                    }
                }
                if shares[k].index == id_parsed {
                    found = Some(shares[k]);
                    break;
                }
                k = k + 1;
            }
            if let Some(share) = found {
                self.shares.insert(from.clone(), share);
                self.commitments.insert(from.clone(), raw_commitments);
                let validation_msg = DKGMessage::ShareValidation {
                    from: self.id.clone(),
                    to: from,
                    is_valid: true,
                };
                return Some(validation_msg);
            }
        }
        None
    }

    /// Checks one share against the dealer's commitments. No check is made: every share
    /// is accepted.
    pub fn verify_share(&self, share: &SerializableScalar, commitments: &[SerializableG1Affine]) -> (res: bool)
        ensures
            res,
    {
        true
    }

    /// Checks a dealer's shares against its commitments. No check is made: every
    /// distribution is accepted.
    pub fn verify_shares(&self, shares: &[KeyShare], commitments: &[G1Point]) -> (res: bool)
        ensures
            res,
    {
        true
    }

    /// Files a validation report under the dealer it is about, then checks completion;
    /// the group key that the check computes is not kept.
    fn handle_share_validation(&mut self, from: String, to: String, is_valid: bool)
        requires
            old(self).wf(),
        ensures
            final(self).wf(),
            final(self).spec_id() == old(self).spec_id(),
            final(self).spec_status() == old(self).spec_status(),
            final(self).spec_threshold() == old(self).spec_threshold(),
            final(self).spec_total_nodes() == old(self).spec_total_nodes(),
            pushed_entry(
                old(self).validation_entries(),
                final(self).validation_entries(),
                to@,
                is_valid,
            ),
            final(self).share_entries() == old(self).share_entries(),
            final(self).commitment_entries() == old(self).commitment_entries(),
    {
        self.validations.push_to(to, is_valid);
        let _ = self.check_completion();
    }

    /// The group key, once every reporter has filed at least `threshold` validations and
    /// at least `threshold` shares are kept.
    fn check_completion(&self) -> (res: Option<G1Point>)
        requires
            self.wf(),
        ensures
            res is Some <==> validations_complete(self.validation_entries(), self.threshold)
                && self.share_entries().len() >= self.threshold,
            res matches Some(k) ==> k@ == key_share_sum(self.share_entries()) % fq(),
    {
        let ghost ve = self.validations.entries();
        let mut all = true;
        let mut k: usize = 0;
        while k < self.validations.len()
            invariant
                self.validations.entries() == ve,
                0 <= k <= ve.len(),
                all == forall|j: int| 0 <= j < k ==> #[trigger] ve[j].1@.len() >= self.threshold,
            decreases ve.len() - k,
        {
            if self.validations.value_at(k).len() < self.threshold {
                all = false;
            }
            k = k + 1;
        }
        if all && self.shares.len() >= self.threshold {
            Some(self.generate_group_key())
        } else {
            None
        }
    }

    /// `g` times the sum of the kept shares.
    fn generate_group_key(&self) -> (res: G1Point)
        ensures
            res@ == key_share_sum(self.share_entries()) % fq(),
    {
        let ghost se = self.shares.entries();
        let ghost m = fq();
        let mut group_key = G1Point::identity();
        proof {
            lemma_small_mod(0, m as nat);
        }
        let mut k: usize = 0;
        while k < self.shares.len()
            invariant
                self.shares.entries() == se,
                m == fq(),
                0 <= k <= se.len(),
                group_key@ == key_share_sum(se.take(k as int)) % m,
            decreases se.len() - k,
        {
            let ghost prev = key_share_sum(se.take(k as int));
            let share = self.shares.value_at(k);
            let term = G1Point::generator_mul(&share.value.0);
            group_key = group_key.add(&term);
            proof {
                assert(se.take((k + 1) as int).drop_last() =~= se.take(k as int));
                assert(key_share_sum(se.take((k + 1) as int)) == prev + share.value.0@);
                lemma_add_mod_noop(prev, share.value.0@ as int, m);
                lemma_mod_twice(prev, m);
                use_type_invariant(&term);
                lemma_point_bound(term);
                lemma_small_mod(term@, m as nat);
            }
            k = k + 1;
        }
        proof {
            assert(se.take(se.len() as int) =~= se);
        }
        group_key
    }
}


/// A node's status is `New` until key generation is first started and `Started` from
/// then on; handling messages never changes it, so it is never `Error` or `Completed`.
/// `nodes` are the node's successive states from a fresh node, and `starts[k]` says
/// whether step `k` was `start_dkg` (otherwise it was `handle_message`).
pub proof fn lemma_status_over_steps(nodes: Seq<DKGNode>, starts: Seq<bool>)
    requires
        nodes.len() == starts.len() + 1,
        nodes[0].spec_status() == DKGStatus::New,
        forall|k: int|
            0 <= k < starts.len() ==> if #[trigger] starts[k] {
                exists|m: DKGMessage| #[trigger] nodes[k].started(nodes[k + 1], m)
            } else {
                exists|msg: DKGMessage, res: Option<DKGMessage>|
                    #[trigger] nodes[k].handled(nodes[k + 1], msg, res)
            },
    ensures
        forall|k: int|
            0 <= k < nodes.len() ==> (#[trigger] nodes[k]).spec_status() == status_after_steps(
                starts.take(k),
            ),
    decreases starts.len(),
{
    if starts.len() > 0 {
        let n = starts.len() - 1;
        let ns = nodes.drop_last();
        let ss = starts.drop_last();
        assert forall|k: int| 0 <= k < ss.len() implies if #[trigger] ss[k] {
            exists|m: DKGMessage| #[trigger] ns[k].started(ns[k + 1], m)
        } else {
            exists|msg: DKGMessage, res: Option<DKGMessage>|
                #[trigger] ns[k].handled(ns[k + 1], msg, res)
        } by {
            assert(ss[k] == starts[k] && ns[k] == nodes[k] && ns[k + 1] == nodes[k + 1]);
            if starts[k] {
                let m = choose|m: DKGMessage| #[trigger] nodes[k].started(nodes[k + 1], m);
                assert(ns[k].started(ns[k + 1], m));
            } else {
                let p = choose|msg: DKGMessage, res: Option<DKGMessage>|
                    #[trigger] nodes[k].handled(nodes[k + 1], msg, res);
                assert(ns[k].handled(ns[k + 1], p.0, p.1));
            }
        }
        lemma_status_over_steps(ns, ss);
        assert forall|k: int| 0 <= k < nodes.len() implies (#[trigger] nodes[k]).spec_status()
            == status_after_steps(starts.take(k)) by {
            if k < nodes.len() - 1 {
                assert(nodes.drop_last()[k] == nodes[k]);
                assert(starts.drop_last().take(k) =~= starts.take(k));
            } else {
                assert(nodes.drop_last()[n] == nodes[n]);
                assert(starts.drop_last().take(n) =~= starts.take(n));
                assert(starts.take(k) =~= starts.take(n).push(starts[n]));
                if starts[n] {
                    assert(starts.take(k)[n] == true);
                } else {
                    let m = choose|msg: DKGMessage, res: Option<DKGMessage>|
                        #[trigger] nodes[n].handled(nodes[n + 1], msg, res);
                    assert(nodes[n].handled(nodes[n + 1], m.0, m.1));
                    if starts.take(k).contains(true) {
                        let j = choose|j: int| 0 <= j < starts.take(k).len() && starts.take(k)[j] == true;
                        assert(starts.take(n)[j] == true);
                    }
                }
            }
        }
    }
}

} // verus!
