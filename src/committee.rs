use crate::base_types::{key_bytes_eq, AuthorityName, Signature};
use crate::error::FastPayError;
use vstd::prelude::*;

verus! {

/// The sum of all weights of a list of voting rights.
pub open spec fn total_of(rights: Seq<(AuthorityName, u64)>) -> int
    decreases rights.len(),
{
    if rights.len() == 0 {
        0
    } else {
        total_of(rights.drop_last()) + rights.last().1
    }
}

/// The combined weight of the authorities of `rights` whose name lies in `names`.
pub open spec fn weight_in(rights: Seq<(AuthorityName, u64)>, names: Set<Seq<u8>>) -> int
    decreases rights.len(),
{
    if rights.len() == 0 {
        0
    } else {
        weight_in(rights.drop_last(), names) + if names.contains(rights.last().0@) {
            rights.last().1 as int
        } else {
            0
        }
    }
}

/// The names that occur in a list of authorities.
pub open spec fn name_set(names: Seq<AuthorityName>) -> Set<Seq<u8>> {
    Set::new(|k: Seq<u8>| exists|j: int| 0 <= j < names.len() && names[j]@ == k)
}

/// The names that sign a list of votes.
pub open spec fn signer_set(votes: Seq<(AuthorityName, Signature)>) -> Set<Seq<u8>> {
    Set::new(|k: Seq<u8>| exists|j: int| 0 <= j < votes.len() && votes[j].0@ == k)
}

/// Whether `name` is a member of the committee given by `rights`.
pub open spec fn is_member(rights: Seq<(AuthorityName, u64)>, name: Seq<u8>) -> bool {
    exists|i: int| 0 <= i < rights.len() && rights[i].0@ == name
}

/// The least weight of a quorum: more than two thirds of the total.
pub open spec fn quorum_threshold_of(total: int) -> int {
    2 * total / 3 + 1
}

/// The least weight that must hold one honest authority: more than a third of the total.
pub open spec fn validity_threshold_of(total: int) -> int {
    (total - 1) / 3 + 1
}

/// A set of authorities with their voting weights.
pub struct Committee {
    pub voting_rights: Vec<(AuthorityName, u64)>,
    pub total_votes: u64,
}

impl Committee {
    /// Distinct names, positive weights, and a total that is the sum of the weights.
    pub open spec fn wf(&self) -> bool {
        &&& forall|i: int, j: int|
            0 <= i < j < self.voting_rights@.len() ==> self.voting_rights@[i].0@
                != self.voting_rights@[j].0@
        &&& forall|i: int| 0 <= i < self.voting_rights@.len() ==> self.voting_rights@[i].1 > 0
        &&& self.total_votes == total_of(self.voting_rights@)
    }

    pub open spec fn quorum_threshold_spec(&self) -> int {
        quorum_threshold_of(self.total_votes as int)
    }

    pub open spec fn has_quorum_spec(&self, names: Set<Seq<u8>>) -> bool {
        weight_in(self.voting_rights@, names) >= self.quorum_threshold_spec()
    }

    /// A committee of the given authorities; `None` where a name repeats, a
    /// weight is zero, or the total does not fit in a `u64`.
    pub fn new(voting_rights: Vec<(AuthorityName, u64)>) -> (r: Option<Committee>)
        ensures
            r is Some <==> {
                &&& forall|i: int, j: int|
                    0 <= i < j < voting_rights@.len() ==> voting_rights@[i].0@
                        != voting_rights@[j].0@
                &&& forall|i: int| 0 <= i < voting_rights@.len() ==> voting_rights@[i].1 > 0
                &&& total_of(voting_rights@) <= u64::MAX
            },
            r is Some ==> r->Some_0.wf() && r->Some_0.voting_rights@ == voting_rights@,
    {
        let mut total: u64 = 0;
        let mut i: usize = 0;
        while i < voting_rights.len()
            invariant
                i <= voting_rights@.len(),
                total == total_of(voting_rights@.subrange(0, i as int)),
                forall|a: int, b: int| 0 <= a < b < i ==> voting_rights@[a].0@ != voting_rights@[b].0@,
                forall|a: int| 0 <= a < i ==> voting_rights@[a].1 > 0,
            decreases voting_rights@.len() - i,
        {
            proof {
                assert(voting_rights@.subrange(0, i + 1).drop_last() =~= voting_rights@.subrange(0, i as int));
            }
            if voting_rights[i].1 == 0 {
                return None;
            }
            let mut j: usize = 0;
            while j < i
                invariant
                    i < voting_rights@.len(),
                    j <= i,
                    forall|a: int| 0 <= a < j ==> voting_rights@[a].0@ != voting_rights@[i as int].0@,
                decreases i - j,
            {
                if key_bytes_eq(&voting_rights[j].0, &voting_rights[i].0) {
                    return None;
                }
                j = j + 1;
            }
            match total.checked_add(voting_rights[i].1) {
                None => {
                    proof {
                        lemma_total_prefix_le(voting_rights@, i + 1);
                    }
                    return None;
                },
                Some(t) => {
                    total = t;
                },
            }
            i = i + 1;
        }
        proof {
            assert(voting_rights@.subrange(0, i as int) =~= voting_rights@);
        }
        Some(Committee { voting_rights, total_votes: total })
    }

    /// A copy of this committee.
    pub fn duplicate(&self) -> (r: Committee)
        ensures
            r.voting_rights@ == self.voting_rights@,
            r.total_votes == self.total_votes,
    {
        let mut voting_rights: Vec<(AuthorityName, u64)> = Vec::new();
        let mut i: usize = 0;
        while i < self.voting_rights.len()
            invariant
                i <= self.voting_rights@.len(),
                voting_rights@ == self.voting_rights@.subrange(0, i as int),
            decreases self.voting_rights@.len() - i,
        {
            voting_rights.push(self.voting_rights[i]);
            proof {
                assert(self.voting_rights@.subrange(0, i + 1) =~= self.voting_rights@.subrange(0, i as int).push(
                    self.voting_rights@[i as int],
                ));
            }
            i = i + 1;
        }
        proof {
            assert(self.voting_rights@.subrange(0, i as int) =~= self.voting_rights@);
        }
        Committee { voting_rights, total_votes: self.total_votes }
    }

    /// The quorum threshold: the floor of two thirds of the total weight, plus one.
    pub fn quorum_threshold(&self) -> (r: u64)
        requires
            self.wf(),
        ensures
            r == quorum_threshold_of(self.total_votes as int),
    {
        let n = self.total_votes as u128;
        (2 * n / 3 + 1) as u64
    }

    /// The validity threshold: the floor of a third of the total weight less one, plus one.
    pub fn validity_threshold(&self) -> (r: u64)
        requires
            self.wf(),
        ensures
            r == validity_threshold_of(self.total_votes as int),
    {
        if self.total_votes == 0 {
            0
        } else {
            (self.total_votes - 1) / 3 + 1
        }
    }

    /// The weight of an authority; zero for a name outside the committee.
    pub fn weight(&self, name: &AuthorityName) -> (r: u64)
        requires
            self.wf(),
        ensures
            r == weight_in(self.voting_rights@, set![name@]),
    {
        let mut i: usize = 0;
        let ghost rights = self.voting_rights@;
        while i < self.voting_rights.len()
            invariant
                self.wf(),
                i <= rights.len(),
                rights == self.voting_rights@,
                weight_in(rights.subrange(0, i as int), set![name@]) == 0,
            decreases rights.len() - i,
        {
            proof {
                assert(rights.subrange(0, i + 1).drop_last() =~= rights.subrange(0, i as int));
            }
            if key_bytes_eq(&self.voting_rights[i].0, name) {
                proof {
                    lemma_weight_absent_rest(rights, i as int, name@);
                }
                return self.voting_rights[i].1;
            }
            i = i + 1;
        }
        proof {
            assert(rights.subrange(0, i as int) =~= rights);
        }
        0
    }

    /// Whether the distinct authorities among `names` together hold a quorum.
    pub fn has_quorum(&self, names: &Vec<AuthorityName>) -> (r: bool)
        requires
            self.wf(),
        ensures
            r == (weight_in(self.voting_rights@, name_set(names@)) >= quorum_threshold_of(
                self.total_votes as int,
            )),
    {
        let ghost s = name_set(names@);
        let ghost rights = self.voting_rights@;
        let mut acc: u64 = 0;
        let mut i: usize = 0;
        while i < self.voting_rights.len()
            invariant
                self.wf(),
                rights == self.voting_rights@,
                i <= rights.len(),
                s == name_set(names@),
                acc == weight_in(rights.subrange(0, i as int), s),
            decreases rights.len() - i,
        {
            proof {
                assert(rights.subrange(0, i + 1).drop_last() =~= rights.subrange(0, i as int));
                lemma_weight_le_total(rights.subrange(0, i + 1), s);
                lemma_total_prefix_le(rights, i + 1);
            }
            let name = &self.voting_rights[i].0;
            let mut j: usize = 0;
            let mut found = false;
            while j < names.len()
                invariant
                    j <= names@.len(),
                    found <==> exists|k: int| 0 <= k < j && names@[k]@ == name@,
                decreases names@.len() - j,
            {
                if key_bytes_eq(&names[j], name) {
                    found = true;
                }
                j = j + 1;
            }
            proof {
                if found {
                    let k = choose|k: int| 0 <= k < names@.len() && names@[k]@ == name@;
                    assert(s.contains(name@));
                } else {
                    assert(!s.contains(name@));
                }
                assert(rights.subrange(0, i + 1).last() == rights[i as int]);
            }
            if found {
                acc = acc + self.voting_rights[i].1;
            }
            i = i + 1;
        }
        proof {
            assert(rights.subrange(0, i as int) =~= rights);
        }
        let q = self.quorum_threshold();
        acc >= q
    }

    /// Checks that the signers of a certificate are members of the committee and
    /// that the distinct ones among them hold a quorum.
    pub fn check_quorum(&self, votes: &Vec<(AuthorityName, Signature)>) -> (r: Result<(), FastPayError>)
        requires
            self.wf(),
        ensures
            r is Ok <==> (forall|j: int|
                0 <= j < votes@.len() ==> is_member(self.voting_rights@, #[trigger] votes@[j].0@))
                && self.has_quorum_spec(signer_set(votes@)),
            r is Err ==> (r->Err_0 == FastPayError::UnknownSigner <==> exists|j: int|
                0 <= j < votes@.len() && !is_member(self.voting_rights@, #[trigger] votes@[j].0@)),
            r is Err ==> r->Err_0 == FastPayError::UnknownSigner || r->Err_0
                == FastPayError::CertificateRequiresQuorum,
    {
        let mut names: Vec<AuthorityName> = Vec::new();
        let mut j: usize = 0;
        while j < votes.len()
            invariant
                self.wf(),
                j <= votes@.len(),
                names@.len() == j,
                forall|k: int| 0 <= k < j ==> names@[k] == votes@[k].0,
                forall|k: int| 0 <= k < j ==> is_member(self.voting_rights@, #[trigger] votes@[k].0@),
            decreases votes@.len() - j,
        {
            let w = self.weight(&votes[j].0);
            if w == 0 {
                proof {
                    if is_member(self.voting_rights@, votes@[j as int].0@) {
                        let i = choose|i: int|
                            0 <= i < self.voting_rights@.len() && self.voting_rights@[i].0@ == votes@[j as int].0@;
                        lemma_member_weight_positive(self.voting_rights@, i, set![votes@[j as int].0@]);
                    }
                }
                return Err(FastPayError::UnknownSigner);
            }
            proof {
                lemma_positive_weight_has_member(self.voting_rights@, set![votes@[j as int].0@]);
                let i = choose|i: int|
                    0 <= i < self.voting_rights@.len() && set![votes@[j as int].0@].contains(
                        #[trigger] self.voting_rights@[i].0@,
                    );
                assert(self.voting_rights@[i].0@ == votes@[j as int].0@);
            }
            names.push(votes[j].0);
            j = j + 1;
        }
        proof {
            assert(name_set(names@) =~= signer_set(votes@)) by {
                assert forall|k: Seq<u8>| name_set(names@).contains(k) implies signer_set(votes@).contains(k) by {
                    let a = choose|a: int| 0 <= a < names@.len() && names@[a]@ == k;
                    assert(votes@[a].0@ == k);
                }
                assert forall|k: Seq<u8>| signer_set(votes@).contains(k) implies name_set(names@).contains(k) by {
                    let a = choose|a: int| 0 <= a < votes@.len() && votes@[a].0@ == k;
                    assert(names@[a]@ == k);
                }
            }
        }
        if self.has_quorum(&names) {
            Ok(())
        } else {
            Err(FastPayError::CertificateRequiresQuorum)
        }
    }
}

proof fn lemma_total_prefix_le(rights: Seq<(AuthorityName, u64)>, n: int)
    requires
        0 <= n <= rights.len(),
    ensures
        total_of(rights.subrange(0, n)) <= total_of(rights),
        0 <= total_of(rights.subrange(0, n)),
    decreases rights.len(),
{
    if n == rights.len() {
        assert(rights.subrange(0, n) =~= rights);
        lemma_total_nonneg(rights);
    } else {
        assert(rights.drop_last().subrange(0, n) =~= rights.subrange(0, n));
        lemma_total_prefix_le(rights.drop_last(), n);
    }
}

proof fn lemma_total_nonneg(rights: Seq<(AuthorityName, u64)>)
    ensures
        0 <= total_of(rights),
    decreases rights.len(),
{
    if rights.len() > 0 {
        lemma_total_nonneg(rights.drop_last());
    }
}

/// The weight of any set of names is between zero and the total weight.
pub proof fn lemma_weight_le_total(rights: Seq<(AuthorityName, u64)>, names: Set<Seq<u8>>)
    ensures
        0 <= weight_in(rights, names) <= total_of(rights),
    decreases rights.len(),
{
    if rights.len() > 0 {
        lemma_weight_le_total(rights.drop_last(), names);
    }
}

proof fn lemma_weight_absent_rest(rights: Seq<(AuthorityName, u64)>, i: int, name: Seq<u8>)
    requires
        0 <= i < rights.len(),
        rights[i].0@ == name,
        forall|a: int, b: int| 0 <= a < b < rights.len() ==> rights[a].0@ != rights[b].0@,
        weight_in(rights.subrange(0, i), set![name]) == 0,
    ensures
        weight_in(rights, set![name]) == rights[i].1,
    decreases rights.len(),
{
    if i == rights.len() - 1 {
        assert(rights.drop_last() =~= rights.subrange(0, i));
    } else {
        assert(rights.drop_last().subrange(0, i) =~= rights.subrange(0, i));
        lemma_weight_absent_rest(rights.drop_last(), i, name);
        assert(rights.last().0@ != name);
    }
}

proof fn lemma_member_weight_positive(rights: Seq<(AuthorityName, u64)>, i: int, names: Set<Seq<u8>>)
    requires
        0 <= i < rights.len(),
        names.contains(rights[i].0@),
        forall|a: int| 0 <= a < rights.len() ==> rights[a].1 > 0,
    ensures
        weight_in(rights, names) > 0,
    decreases rights.len(),
{
    lemma_weight_le_total(rights.drop_last(), names);
    if i < rights.len() - 1 {
        lemma_member_weight_positive(rights.drop_last(), i, names);
    }
}

/// Counting twice the weight shared by two sets of names.
pub proof fn lemma_weight_union_intersect(
    rights: Seq<(AuthorityName, u64)>,
    a: Set<Seq<u8>>,
    b: Set<Seq<u8>>,
)
    ensures
        weight_in(rights, a) + weight_in(rights, b) == weight_in(rights, a.union(b)) + weight_in(
            rights,
            a.intersect(b),
        ),
    decreases rights.len(),
{
    if rights.len() > 0 {
        lemma_weight_union_intersect(rights.drop_last(), a, b);
    }
}

/// A set of names with positive weight holds a member of the committee.
pub proof fn lemma_positive_weight_has_member(rights: Seq<(AuthorityName, u64)>, names: Set<Seq<u8>>)
    requires
        weight_in(rights, names) > 0,
    ensures
        exists|i: int| 0 <= i < rights.len() && names.contains(#[trigger] rights[i].0@),
    decreases rights.len(),
{
    if !names.contains(rights.last().0@) {
        lemma_positive_weight_has_member(rights.drop_last(), names);
        let i = choose|i: int| 0 <= i < rights.len() - 1 && names.contains(#[trigger] rights.drop_last()[i].0@);
        assert(rights[i] == rights.drop_last()[i]);
    } else {
        assert(names.contains(rights[rights.len() - 1].0@));
    }
}

proof fn lemma_quorum_overlap_arith(n: int)
    requires
        n >= 1,
    ensures
        2 * quorum_threshold_of(n) - n >= validity_threshold_of(n),
{
    let k = n / 3;
    let m = n % 3;
    assert(n == 3 * k + m && 0 <= m < 3) by (nonlinear_arith)
        requires k == n / 3, m == n % 3, n >= 1;
    if m == 0 {
        assert(2 * n / 3 == 2 * k) by (nonlinear_arith) requires n == 3 * k;
        assert((n - 1) / 3 == k - 1) by (nonlinear_arith) requires n == 3 * k, n >= 1;
    } else if m == 1 {
        assert(2 * n / 3 == 2 * k) by (nonlinear_arith) requires n == 3 * k + 1;
        assert((n - 1) / 3 == k) by (nonlinear_arith) requires n == 3 * k + 1;
    } else {
        assert(2 * n / 3 == 2 * k + 1) by (nonlinear_arith) requires n == 3 * k + 2;
        assert((n - 1) / 3 == k) by (nonlinear_arith) requires n == 3 * k + 2;
    }
}

/// Two quorums of a committee share at least the validity threshold of weight.
/// Where the faulty authorities weigh less than that threshold, the two quorums
/// therefore share a member of the committee that is not faulty; since such an
/// authority votes for at most one order per sender and sequence number, two
/// certificates for one slot carry the same order.
pub proof fn lemma_quorums_share_honest_authority(
    committee: &Committee,
    a: Set<Seq<u8>>,
    b: Set<Seq<u8>>,
    faulty: Set<Seq<u8>>,
)
    requires
        committee.wf(),
        committee.has_quorum_spec(a),
        committee.has_quorum_spec(b),
        weight_in(committee.voting_rights@, faulty) < validity_threshold_of(
            committee.total_votes as int,
        ),
    ensures
        weight_in(committee.voting_rights@, a.intersect(b)) >= validity_threshold_of(
            committee.total_votes as int,
        ),
        exists|i: int|
            0 <= i < committee.voting_rights@.len() && #[trigger] a.intersect(b).difference(
                faulty,
            ).contains(committee.voting_rights@[i].0@),
{
    let rights = committee.voting_rights@;
    let n = committee.total_votes as int;
    let ab = a.intersect(b);
    lemma_weight_union_intersect(rights, a, b);
    lemma_weight_le_total(rights, a.union(b));
    lemma_weight_le_total(rights, a);
    if n == 0 {
        assert(false);
    }
    lemma_quorum_overlap_arith(n);
    let inside = ab.intersect(faulty);
    let outside = ab.difference(faulty);
    lemma_weight_union_intersect(rights, inside, outside);
    assert(inside.union(outside) =~= ab);
    assert(inside.intersect(outside) =~= Set::<Seq<u8>>::empty());
    lemma_weight_empty(rights);
    let rest = faulty.difference(inside);
    lemma_weight_union_intersect(rights, inside, rest);
    assert(inside.union(rest) =~= faulty);
    assert(inside.intersect(rest) =~= Set::<Seq<u8>>::empty());
    lemma_weight_le_total(rights, rest);
    lemma_weight_le_total(rights, inside);
    lemma_positive_weight_has_member(rights, outside);
}

proof fn lemma_weight_empty(rights: Seq<(AuthorityName, u64)>)
    ensures
        weight_in(rights, Set::<Seq<u8>>::empty()) == 0,
    decreases rights.len(),
{
    if rights.len() > 0 {
        lemma_weight_empty(rights.drop_last());
    }
}

} // verus!
