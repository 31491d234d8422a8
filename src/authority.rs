use crate::base_types::{
    digest_spec, ed25519_accepts, ed25519_point, ed25519_sign_of, signature_scalar_reduced, AuthorityName, Balance, FastPayAddress, SecretKey,
    SequenceNumber, ShardId, Signature,
};
use crate::committee::{
    is_member, lemma_quorums_share_honest_authority, signer_set, validity_threshold_of, weight_in,
    Committee,
};
use crate::error::FastPayError;
use crate::messages::{
    order_eq, same_order, transfer_bytes, AccountId, CertifiedTransferOrder, SignedTransferOrder,
    TransferOrder,
};
use vstd::hash_map::HashMapWithView;
use vstd::prelude::*;

verus! {

broadcast use vstd::std_specs::hash::group_hash_axioms;

/// Whether every signer of a certificate is a member of the committee and the
/// distinct signers hold a quorum.
pub open spec fn certified(committee: Committee, cert: CertifiedTransferOrder) -> bool {
    &&& forall|j: int|
        0 <= j < cert.signatures@.len() ==> is_member(
            committee.voting_rights@,
            #[trigger] cert.signatures@[j].0@,
        )
    &&& committee.has_quorum_spec(signer_set(cert.signatures@))
}

/// Whether every vote of a certificate has a key that is a curve point and a
/// signature whose scalar has its top bits clear.
pub open spec fn signatures_well_formed(cert: CertifiedTransferOrder) -> bool {
    forall|j: int|
        0 <= j < cert.signatures@.len() ==> ed25519_point(#[trigger] cert.signatures@[j].0.0@)
            && signature_scalar_reduced(cert.signatures@[j].1.0@)
}

/// Whether some signer of a certificate is not a member of the committee.
pub open spec fn has_unknown_signer(committee: Committee, cert: CertifiedTransferOrder) -> bool {
    exists|j: int|
        0 <= j < cert.signatures@.len() && !is_member(
            committee.voting_rights@,
            #[trigger] cert.signatures@[j].0@,
        )
}

/// Two certificates that both carry a quorum hold the same order, where the
/// faulty authorities weigh less than the validity threshold and every other
/// authority gave its one vote for the slot, `vote_of(name)`, to each
/// certificate that it signed.
pub proof fn lemma_certificates_agree(
    committee: Committee,
    c1: CertifiedTransferOrder,
    c2: CertifiedTransferOrder,
    faulty: Set<Seq<u8>>,
    vote_of: spec_fn(Seq<u8>) -> TransferOrder,
)
    requires
        committee.wf(),
        certified(committee, c1),
        certified(committee, c2),
        weight_in(committee.voting_rights@, faulty) < validity_threshold_of(
            committee.total_votes as int,
        ),
        forall|j: int|
            0 <= j < c1.signatures@.len() && !faulty.contains(#[trigger] c1.signatures@[j].0@)
                ==> vote_of(c1.signatures@[j].0@) == c1.value,
        forall|j: int|
            0 <= j < c2.signatures@.len() && !faulty.contains(#[trigger] c2.signatures@[j].0@)
                ==> vote_of(c2.signatures@[j].0@) == c2.value,
    ensures
        c1.value == c2.value,
{
    let a = signer_set(c1.signatures@);
    let b = signer_set(c2.signatures@);
    lemma_quorums_share_honest_authority(&committee, a, b, faulty);
    let i = choose|i: int|
        0 <= i < committee.voting_rights@.len() && #[trigger] a.intersect(b).difference(
            faulty,
        ).contains(committee.voting_rights@[i].0@);
    let name = committee.voting_rights@[i].0@;
    assert(a.contains(name));
    assert(b.contains(name));
    let j1 = choose|j: int| 0 <= j < c1.signatures@.len() && c1.signatures@[j].0@ == name;
    let j2 = choose|j: int| 0 <= j < c2.signatures@.len() && c2.signatures@[j].0@ == name;
    assert(!faulty.contains(c1.signatures@[j1].0@));
    assert(!faulty.contains(c2.signatures@[j2].0@));
}

/// The ledger entry of one account on its home shard.
pub struct AccountState {
    pub owner: Option<FastPayAddress>,
    pub balance: Balance,
    pub next_sequence_number: SequenceNumber,
    pub pending_confirmation: Option<SignedTransferOrder>,
    pub confirmed_log: Vec<CertifiedTransferOrder>,
    pub synchronization_log: Vec<CertifiedTransferOrder>,
    pub received_log: Vec<CertifiedTransferOrder>,
    /// The balance that the account started from.
    pub initial_balance: Ghost<int>,
}

/// The total amount moved by the certificates of a log.
pub open spec fn amount_sum(log: Seq<CertifiedTransferOrder>) -> int
    decreases log.len(),
{
    if log.len() == 0 {
        0
    } else {
        amount_sum(log.drop_last()) + log.last().value.transfer.amount.0
    }
}

/// Whether an account holds, untouched, the genesis entry of `owner` and `balance`.
pub open spec fn genesis_fields(a: AccountState, entry: (AccountId, FastPayAddress, Balance)) -> bool {
    &&& a.owner == Some(entry.1)
    &&& a.balance == entry.2
    &&& a.next_sequence_number.0 == 0
    &&& a.pending_confirmation is None
    &&& a.confirmed_log@.len() == 0
    &&& a.synchronization_log@.len() == 0
    &&& a.received_log@.len() == 0
}

/// Whether account `k` was loaded from the last of the first `n` genesis
/// entries that name it.
pub open spec fn genesis_loaded(
    a: AccountState,
    accounts: Seq<(AccountId, FastPayAddress, Balance)>,
    k: u64,
    n: int,
) -> bool {
    exists|j: int|
        0 <= j < n && accounts[j].0.0 == k && (forall|l: int| j < l < n ==> accounts[l].0.0 != k)
            && genesis_fields(a, accounts[j])
}

/// Whether an account is the one that a first credit creates: no owner, nothing held.
pub open spec fn is_fresh(a: AccountState) -> bool {
    &&& a.owner is None
    &&& a.balance.0 == 0
    &&& a.next_sequence_number.0 == 0
    &&& a.pending_confirmation is None
    &&& a.confirmed_log@.len() == 0
    &&& a.synchronization_log@.len() == 0
    &&& a.received_log@.len() == 0
    &&& a.initial_balance@ == 0
}

/// The account after a vote is stored in its pending slot.
pub open spec fn with_pending(a: AccountState, v: SignedTransferOrder) -> AccountState {
    AccountState { pending_confirmation: Some(v), ..a }
}

/// Whether some certificate of `log` carries the same order as `cert`.
pub open spec fn log_holds(log: Seq<CertifiedTransferOrder>, cert: CertifiedTransferOrder) -> bool {
    exists|k: int| 0 <= k < log.len() && same_order(#[trigger] log[k].value, cert.value)
}

/// Whether a log holds a certificate with the same order.
pub fn log_contains(log: &Vec<CertifiedTransferOrder>, cert: &CertifiedTransferOrder) -> (r: bool)
    ensures
        r == log_holds(log@, *cert),
{
    let mut k: usize = 0;
    while k < log.len()
        invariant
            k <= log@.len(),
            forall|j: int| 0 <= j < k ==> !same_order(#[trigger] log@[j].value, cert.value),
        decreases log@.len() - k,
    {
        if order_eq(&log[k].value, &cert.value) {
            return true;
        }
        k = k + 1;
    }
    false
}

/// The certificates of a log other than the one for `seq`, in their order.
pub open spec fn without_sequence(log: Seq<CertifiedTransferOrder>, seq: SequenceNumber) -> Seq<
    CertifiedTransferOrder,
>
    decreases log.len(),
{
    if log.len() == 0 {
        log
    } else {
        let rest = without_sequence(log.drop_last(), seq);
        if log.last().value.transfer.sequence_number == seq {
            rest
        } else {
            rest.push(log.last())
        }
    }
}

proof fn lemma_without_sequence_subset(log: Seq<CertifiedTransferOrder>, seq: SequenceNumber)
    ensures
        forall|k: int|
            0 <= k < without_sequence(log, seq).len() ==> exists|j: int|
                0 <= j < log.len() && #[trigger] without_sequence(log, seq)[k] == log[j],
    decreases log.len(),
{
    if log.len() > 0 {
        lemma_without_sequence_subset(log.drop_last(), seq);
        let rest = without_sequence(log.drop_last(), seq);
        assert forall|k: int|
            0 <= k < without_sequence(log, seq).len() implies exists|j: int|
                0 <= j < log.len() && #[trigger] without_sequence(log, seq)[k] == log[j] by {
            if k < rest.len() {
                let j = choose|j: int| 0 <= j < log.drop_last().len() && rest[k] == log.drop_last()[j];
                assert(log[j] == log.drop_last()[j]);
            } else {
                assert(without_sequence(log, seq)[k] == log[log.len() - 1]);
            }
        }
    }
}

impl AccountState {
    /// A genesis account with an owner and a balance.
    pub fn new(owner: FastPayAddress, balance: Balance) -> (r: AccountState)
        ensures
            r.owner == Some(owner),
            r.balance == balance,
            r.next_sequence_number.0 == 0,
            r.pending_confirmation is None,
            r.confirmed_log@.len() == 0,
            r.synchronization_log@.len() == 0,
            r.received_log@.len() == 0,
            r.initial_balance@ == balance.0,
    {
        AccountState {
            owner: Some(owner),
            balance,
            next_sequence_number: SequenceNumber(0),
            pending_confirmation: None,
            confirmed_log: Vec::new(),
            synchronization_log: Vec::new(),
            received_log: Vec::new(),
            initial_balance: Ghost(balance.0 as int),
        }
    }

    /// An account with no owner and nothing held.
    pub fn fresh() -> (r: AccountState)
        ensures
            is_fresh(r),
    {
        AccountState {
            owner: None,
            balance: Balance(0),
            next_sequence_number: SequenceNumber(0),
            pending_confirmation: None,
            confirmed_log: Vec::new(),
            synchronization_log: Vec::new(),
            received_log: Vec::new(),
            initial_balance: Ghost(0),
        }
    }

    /// The account invariants: the pending vote locks the current slot, the
    /// confirmed log holds one certificate per past sequence number, every stored
    /// certificate carries a quorum, no order is credited twice, and the balance
    /// is the starting balance less the confirmed debits plus the credits.
    pub open spec fn wf(&self, id: AccountId, committee: Committee) -> bool {
        &&& self.balance.0 == self.initial_balance@ - amount_sum(self.confirmed_log@) + amount_sum(
            self.received_log@,
        )
        &&& (self.pending_confirmation matches Some(v) ==> v.value.transfer.sender == id
            && v.value.transfer.sequence_number == self.next_sequence_number)
        &&& self.confirmed_log@.len() == self.next_sequence_number.0
        &&& self.next_sequence_number.0 <= 0x7fff_ffff_ffff_ffff
        &&& (self.initial_balance@ >= 0 ==> self.balance.0 >= 0)
        &&& forall|k: int|
            0 <= k < self.confirmed_log@.len() ==> {
                &&& (#[trigger] self.confirmed_log@[k]).value.transfer.sender == id
                &&& self.confirmed_log@[k].value.transfer.sequence_number.0 == k
                &&& certified(committee, self.confirmed_log@[k])
            }
        &&& forall|k: int|
            0 <= k < self.synchronization_log@.len() ==> {
                &&& (#[trigger] self.synchronization_log@[k]).value.transfer.sender == id
                &&& certified(committee, self.synchronization_log@[k])
            }
        &&& forall|k: int|
            0 <= k < self.received_log@.len() ==> {
                &&& (#[trigger] self.received_log@[k]).value.transfer.recipient == id
                &&& certified(committee, self.received_log@[k])
            }
        &&& forall|i: int, j: int|
            0 <= i < j < self.received_log@.len() ==> !same_order(
                #[trigger] self.received_log@[i].value,
                #[trigger] self.received_log@[j].value,
            )
    }
}

/// A certificate to deliver to the shard of its recipient.
#[derive(Clone, Debug, PartialEq, Eq)]
pub struct CrossShardUpdate {
    pub shard_id: ShardId,
    pub certificate: CertifiedTransferOrder,
}

/// What an authority reports of an account.
#[derive(Clone, Debug, PartialEq, Eq)]
pub struct AccountInfoResponse {
    pub account_id: AccountId,
    pub owner: Option<FastPayAddress>,
    pub balance: Balance,
    pub next_sequence_number: SequenceNumber,
    pub pending_confirmation: Option<SignedTransferOrder>,
    pub requested_certificate: Option<CertifiedTransferOrder>,
}

/// One shard of an authority: its keys, its committee, and the accounts it owns.
pub struct AuthorityState {
    pub name: AuthorityName,
    pub committee: Committee,
    pub secret: SecretKey,
    pub shard_id: ShardId,
    pub number_of_shards: u32,
    pub accounts: HashMapWithView<u64, AccountState>,
}

/// The shard that owns an account.
pub open spec fn shard_of(id: AccountId, number_of_shards: u32) -> int {
    (id.0 as int) % (number_of_shards as int)
}

/// What confirming a certified transfer does, from `pre` to `post` with result
/// `r`: wrong shard, stale replay, gap, sequence overflow and insufficient funds
/// are told apart; otherwise the sender is debited and the certificate logged.
pub open spec fn confirmation_step(
    pre: AuthorityState,
    post: AuthorityState,
    cert: CertifiedTransferOrder,
    r: Result<CrossShardUpdate, FastPayError>,
) -> bool {
    let id = cert.value.transfer.sender;
    let seq = cert.value.transfer.sequence_number.0 as int;
    let next = pre.next_of(id);
    let bal = pre.balance_of(id);
    let amount = cert.value.transfer.amount.0 as int;
    if shard_of(id, pre.number_of_shards) != pre.shard_id {
        r == Err::<CrossShardUpdate, FastPayError>(FastPayError::WrongShard)
    } else if seq < next {
        if same_order(pre.confirmed_of(id)[seq].value, cert.value) {
            r is Ok && post.accounts@ == pre.accounts@
        } else {
            r == Err::<CrossShardUpdate, FastPayError>(
                FastPayError::UnexpectedSequenceNumber,
            )
        }
    } else if seq > next {
        r == Err::<CrossShardUpdate, FastPayError>(
            FastPayError::MissingEarlierConfirmations,
        )
    } else if seq >= 0x7fff_ffff_ffff_ffff {
        r == Err::<CrossShardUpdate, FastPayError>(FastPayError::SequenceOverflow)
    } else if bal < amount {
        r == Err::<CrossShardUpdate, FastPayError>(FastPayError::InsufficientFunding)
    } else {
        let f = post.accounts@[id.0];
        &&& r is Ok
        &&& post.accounts@.dom() == pre.accounts@.dom().insert(id.0)
        &&& forall|k: u64| k != id.0 && #[trigger] pre.accounts@.contains_key(k)
            ==> post.accounts@[k] == pre.accounts@[k]
        &&& f.owner == pre.owner_of(id)
        &&& f.balance.0 == bal - amount
        &&& f.next_sequence_number.0 == seq + 1
        &&& f.pending_confirmation is None
        &&& f.confirmed_log@.len() == seq + 1
        &&& f.confirmed_log@.drop_last() == pre.confirmed_of(id)
        &&& f.confirmed_log@.last().value == cert.value
        &&& f.synchronization_log@.drop_last() == pre.synchronization_of(id)
        &&& f.synchronization_log@.last().value == cert.value
        &&& f.received_log@ == pre.received_of(id)
    }
}

/// What crediting a certified transfer does, from `pre` to `post` with result
/// `r`: a certificate already credited changes nothing; otherwise the recipient
/// is credited and the certificate logged.
pub open spec fn credit_step(
    pre: AuthorityState,
    post: AuthorityState,
    cert: CertifiedTransferOrder,
    r: Result<(), FastPayError>,
) -> bool {
    let id = cert.value.transfer.recipient;
    let bal = pre.balance_of(id);
    let amount = cert.value.transfer.amount.0 as int;
    if shard_of(id, pre.number_of_shards) != pre.shard_id {
        r == Err::<(), FastPayError>(FastPayError::WrongShard)
    } else if log_holds(pre.received_of(id), cert) {
        r is Ok && post.accounts@ == pre.accounts@
    } else if bal + amount > i128::MAX {
        r == Err::<(), FastPayError>(FastPayError::BalanceOverflow)
    } else {
        let f = post.accounts@[id.0];
        &&& r is Ok
        &&& post.accounts@.dom() == pre.accounts@.dom().insert(id.0)
        &&& forall|k: u64| k != id.0 && #[trigger] pre.accounts@.contains_key(k)
            ==> post.accounts@[k] == pre.accounts@[k]
        &&& f.owner == pre.owner_of(id)
        &&& f.balance.0 == bal + amount
        &&& f.next_sequence_number.0 == pre.next_of(id)
        &&& f.pending_confirmation == pre.pending_of(id)
        &&& f.confirmed_log@ == pre.confirmed_of(id)
        &&& f.synchronization_log@ == pre.synchronization_of(id)
        &&& f.received_log@.drop_last() == pre.received_of(id)
        &&& f.received_log@.last().value == cert.value
        &&& log_holds(f.received_log@, cert)
    }
}

impl AuthorityState {
    /// The committee is well formed, the shard is one of the authority's, and
    /// every account belongs here and keeps its invariants.
    pub open spec fn wf(&self) -> bool {
        &&& self.committee.wf()
        &&& self.number_of_shards > 0
        &&& self.shard_id < self.number_of_shards
        &&& forall|k: u64|
            #[trigger] self.accounts@.contains_key(k) ==> shard_of(AccountId(k), self.number_of_shards)
                == self.shard_id && self.accounts@[k].wf(AccountId(k), self.committee)
    }

    /// Name, keys, committee and shard stay as they were.
    pub open spec fn same_setup(&self, other: &AuthorityState) -> bool {
        &&& self.name == other.name
        &&& self.committee == other.committee
        &&& self.secret == other.secret
        &&& self.shard_id == other.shard_id
        &&& self.number_of_shards == other.number_of_shards
    }

    pub open spec fn known(&self, id: AccountId) -> bool {
        self.accounts@.contains_key(id.0)
    }

    /// The balance of an account; zero for an account not yet created.
    pub open spec fn balance_of(&self, id: AccountId) -> int {
        if self.known(id) { self.accounts@[id.0].balance.0 as int } else { 0 }
    }

    /// The next sequence number of an account; zero for an account not yet created.
    pub open spec fn next_of(&self, id: AccountId) -> int {
        if self.known(id) { self.accounts@[id.0].next_sequence_number.0 as int } else { 0 }
    }

    pub open spec fn owner_of(&self, id: AccountId) -> Option<FastPayAddress> {
        if self.known(id) { self.accounts@[id.0].owner } else { None }
    }

    pub open spec fn pending_of(&self, id: AccountId) -> Option<SignedTransferOrder> {
        if self.known(id) { self.accounts@[id.0].pending_confirmation } else { None }
    }

    pub open spec fn confirmed_of(&self, id: AccountId) -> Seq<CertifiedTransferOrder> {
        if self.known(id) { self.accounts@[id.0].confirmed_log@ } else { Seq::empty() }
    }

    pub open spec fn synchronization_of(&self, id: AccountId) -> Seq<CertifiedTransferOrder> {
        if self.known(id) { self.accounts@[id.0].synchronization_log@ } else { Seq::empty() }
    }

    pub open spec fn received_of(&self, id: AccountId) -> Seq<CertifiedTransferOrder> {
        if self.known(id) { self.accounts@[id.0].received_log@ } else { Seq::empty() }
    }

    /// An empty shard of an authority.
    pub fn new_shard(
        committee: Committee,
        name: AuthorityName,
        secret: SecretKey,
        shard_id: ShardId,
        number_of_shards: u32,
    ) -> (r: AuthorityState)
        requires
            committee.wf(),
            shard_id < number_of_shards,
        ensures
            r.wf(),
            r.accounts@ == Map::<u64, AccountState>::empty(),
            r.name == name,
            r.committee == committee,
            r.secret == secret,
            r.shard_id == shard_id,
            r.number_of_shards == number_of_shards,
    {
        AuthorityState {
            name,
            committee,
            secret,
            shard_id,
            number_of_shards,
            accounts: HashMapWithView::new(),
        }
    }

    /// The shard of an account among `number_of_shards`.
    pub fn get_shard(number_of_shards: u32, id: &AccountId) -> (r: ShardId)
        requires
            number_of_shards > 0,
        ensures
            r == shard_of(*id, number_of_shards),
    {
        (id.0 % (number_of_shards as u64)) as u32
    }

    /// Whether this shard owns the account.
    pub fn in_shard(&self, id: &AccountId) -> (r: bool)
        requires
            self.number_of_shards > 0,
        ensures
            r == (shard_of(*id, self.number_of_shards) == self.shard_id),
    {
        Self::get_shard(self.number_of_shards, id) == self.shard_id
    }

    /// Adds a genesis account; refused with `WrongShard` where another shard owns it.
    pub fn insert_account(&mut self, id: AccountId, account: AccountState) -> (r: Result<
        (),
        FastPayError,
    >)
        requires
            old(self).wf(),
            account.wf(id, old(self).committee),
        ensures
            final(self).wf(),
            final(self).same_setup(old(self)),
            shard_of(id, old(self).number_of_shards) == old(self).shard_id ==> r is Ok
                && final(self).accounts@ == old(self).accounts@.insert(id.0, account),
            shard_of(id, old(self).number_of_shards) != old(self).shard_id ==> r
                == Err::<(), FastPayError>(FastPayError::WrongShard) && final(self).accounts@
                == old(self).accounts@,
    {
        if !self.in_shard(&id) {
            return Err(FastPayError::WrongShard);
        }
        self.accounts.insert(id.0, account);
        proof {
            assert(self.accounts@.dom() =~= old(self).accounts@.dom().insert(id.0));
        }
        Ok(())
    }

    /// A shard loaded with the genesis accounts that it owns; the accounts of
    /// other shards are passed over, and of two entries for one account the
    /// later one stands.
    pub fn make_shard_state(
        committee: Committee,
        name: AuthorityName,
        secret: SecretKey,
        shard_id: ShardId,
        number_of_shards: u32,
        accounts: &Vec<(AccountId, FastPayAddress, Balance)>,
    ) -> (r: AuthorityState)
        requires
            committee.wf(),
            shard_id < number_of_shards,
        ensures
            r.wf(),
            r.name == name,
            r.committee == committee,
            r.secret == secret,
            r.shard_id == shard_id,
            r.number_of_shards == number_of_shards,
            forall|i: int|
                0 <= i < accounts@.len() ==> (r.accounts@.contains_key(#[trigger] accounts@[i].0.0)
                    <==> shard_of(accounts@[i].0, number_of_shards) == shard_id),
            forall|k: u64|
                #[trigger] r.accounts@.contains_key(k) ==> genesis_loaded(
                    r.accounts@[k],
                    accounts@,
                    k,
                    accounts@.len() as int,
                ),
    {
        let mut state = AuthorityState::new_shard(committee, name, secret, shard_id, number_of_shards);
        let mut i: usize = 0;
        while i < accounts.len()
            invariant
                state.wf(),
                state.name == name,
                state.committee == committee,
                state.secret == secret,
                state.shard_id == shard_id,
                state.number_of_shards == number_of_shards,
                i <= accounts@.len(),
                forall|j: int|
                    0 <= j < i ==> (state.accounts@.contains_key(#[trigger] accounts@[j].0.0)
                        <==> shard_of(accounts@[j].0, number_of_shards) == shard_id),
                forall|k: u64|
                    #[trigger] state.accounts@.contains_key(k) ==> genesis_loaded(
                        state.accounts@[k],
                        accounts@,
                        k,
                        i as int,
                    ),
            decreases accounts@.len() - i,
        {
            let (id, owner, balance) = accounts[i];
            let account = AccountState::new(owner, balance);
            let ghost prev = state.accounts@;
            let ghost placed = account;
            let _ = state.insert_account(id, account);
            proof {
                assert forall|k: u64| #[trigger] state.accounts@.contains_key(k) implies genesis_loaded(
                    state.accounts@[k],
                    accounts@,
                    k,
                    i + 1,
                ) by {
                    if k == id.0 && shard_of(id, number_of_shards) == shard_id {
                        assert(state.accounts@[k] == placed);
                        assert(accounts@[i as int].0.0 == k);
                    } else {
                        assert(prev.contains_key(k));
                        assert(state.accounts@[k] == prev[k]);
                        let j = choose|j: int|
                            0 <= j < i && accounts@[j].0.0 == k && (forall|l: int|
                                j < l < i ==> accounts@[l].0.0 != k) && genesis_fields(
                                prev[k],
                                accounts@[j],
                            );
                        assert(accounts@[i as int].0.0 != k);
                        assert(forall|l: int| j < l < i + 1 ==> accounts@[l].0.0 != k);
                    }
                }
            }
            i = i + 1;
        }
        state
    }

    /// One state for each shard of an authority, each loaded with the genesis
    /// accounts that it owns.
    pub fn make_shard_states(
        committee: &Committee,
        name: AuthorityName,
        secret: &SecretKey,
        number_of_shards: u32,
        accounts: &Vec<(AccountId, FastPayAddress, Balance)>,
    ) -> (r: Vec<AuthorityState>)
        requires
            committee.wf(),
            number_of_shards > 0,
        ensures
            r@.len() == number_of_shards,
            forall|k: int|
                0 <= k < r@.len() ==> {
                    &&& (#[trigger] r@[k]).wf()
                    &&& r@[k].shard_id == k
                    &&& r@[k].number_of_shards == number_of_shards
                    &&& r@[k].name == name
                    &&& r@[k].secret.seed() == secret.seed()
                    &&& r@[k].committee.voting_rights@ == committee.voting_rights@
                    &&& r@[k].committee.total_votes == committee.total_votes
                },
            forall|k: int, i: int|
                0 <= k < r@.len() && 0 <= i < accounts@.len() ==> ((#[trigger] r@[k]).accounts@.contains_key(
                    #[trigger] accounts@[i].0.0,
                ) <==> shard_of(accounts@[i].0, number_of_shards) == k),
            forall|k: int, key: u64|
                0 <= k < r@.len() && #[trigger] r@[k].accounts@.contains_key(key) ==> genesis_loaded(
                    r@[k].accounts@[key],
                    accounts@,
                    key,
                    accounts@.len() as int,
                ),
    {
        let mut states: Vec<AuthorityState> = Vec::new();
        let mut shard: u32 = 0;
        while shard < number_of_shards
            invariant
                committee.wf(),
                shard <= number_of_shards,
                states@.len() == shard,
                forall|k: int|
                    0 <= k < states@.len() ==> {
                        &&& (#[trigger] states@[k]).wf()
                        &&& states@[k].shard_id == k
                        &&& states@[k].number_of_shards == number_of_shards
                        &&& states@[k].name == name
                        &&& states@[k].secret.seed() == secret.seed()
                        &&& states@[k].committee.voting_rights@ == committee.voting_rights@
                        &&& states@[k].committee.total_votes == committee.total_votes
                    },
                forall|k: int, i: int|
                    0 <= k < states@.len() && 0 <= i < accounts@.len() ==> ((#[trigger] states@[k]).accounts@.contains_key(
                        #[trigger] accounts@[i].0.0,
                    ) <==> shard_of(accounts@[i].0, number_of_shards) == k),
                forall|k: int, key: u64|
                    0 <= k < states@.len() && #[trigger] states@[k].accounts@.contains_key(key)
                        ==> genesis_loaded(states@[k].accounts@[key], accounts@, key, accounts@.len() as int),
            decreases number_of_shards - shard,
        {
            let state = AuthorityState::make_shard_state(
                committee.duplicate(),
                name,
                secret.copy(),
                shard,
                number_of_shards,
                accounts,
            );
            states.push(state);
            shard = shard + 1;
        }
        states
    }

    /// Votes for a transfer order. A vote already issued for the same order is
    /// returned again and nothing changes; at most one order is voted per sender
    /// and sequence number.
    pub fn handle_transfer_order(&mut self, order: TransferOrder) -> (r: Result<
        SignedTransferOrder,
        FastPayError,
    >)
        requires
            old(self).wf(),
        ensures
            final(self).wf(),
            final(self).same_setup(old(self)),
            r is Err ==> final(self).accounts@ == old(self).accounts@,
            ({
                let id = order.transfer.sender;
                let a = old(self).accounts@[id.0];
                let known = old(self).accounts@.contains_key(id.0);
                if shard_of(id, old(self).number_of_shards) != old(self).shard_id {
                    r == Err::<SignedTransferOrder, FastPayError>(FastPayError::WrongShard)
                } else if !known {
                    r == Err::<SignedTransferOrder, FastPayError>(FastPayError::IncorrectSigner)
                } else if a.pending_confirmation is Some {
                    let v = a.pending_confirmation->Some_0;
                    if same_order(v.value, order) {
                        r == Ok::<SignedTransferOrder, FastPayError>(v) && final(self).accounts@
                            == old(self).accounts@
                    } else {
                        r == Err::<SignedTransferOrder, FastPayError>(
                            FastPayError::PreviousTransferMustBeConfirmedFirst,
                        )
                    }
                } else if a.owner is None {
                    r == Err::<SignedTransferOrder, FastPayError>(FastPayError::IncorrectSigner)
                } else if !ed25519_accepts(
                    a.owner->Some_0@,
                    digest_spec(transfer_bytes(order.transfer)),
                    order.signature.0@,
                ) {
                    r is Err && r->Err_0 is InvalidSignature
                } else if order.transfer.sequence_number != a.next_sequence_number {
                    r == Err::<SignedTransferOrder, FastPayError>(
                        FastPayError::InvalidSequenceNumber,
                    )
                } else if a.balance.0 < order.transfer.amount.0 {
                    r == Err::<SignedTransferOrder, FastPayError>(FastPayError::InsufficientFunding)
                } else {
                    &&& r is Ok
                    &&& r->Ok_0.value == order
                    &&& r->Ok_0.authority == old(self).name
                    &&& r->Ok_0.signature.0@ == ed25519_sign_of(
                        old(self).secret.seed(),
                        digest_spec(transfer_bytes(order.transfer)),
                    )
                    &&& final(self).accounts@ == old(self).accounts@.insert(
                        id.0,
                        with_pending(a, r->Ok_0),
                    )
                }
            }),
    {
        let id = order.transfer.sender;
        if !self.in_shard(&id) {
            return Err(FastPayError::WrongShard);
        }
        let account = match self.accounts.get(&id.0) {
            Some(account) => account,
            None => return Err(FastPayError::IncorrectSigner),
        };
        match &account.pending_confirmation {
            Some(v) => {
                if order_eq(&v.value, &order) {
                    return Ok(*v);
                } else {
                    return Err(FastPayError::PreviousTransferMustBeConfirmedFirst);
                }
            },
            None => {},
        }
        let owner = match account.owner {
            Some(owner) => owner,
            None => return Err(FastPayError::IncorrectSigner),
        };
        match order.signature.check(&order, owner) {
            Ok(()) => {},
            Err(e) => return Err(e),
        }
        if order.transfer.sequence_number != account.next_sequence_number {
            return Err(FastPayError::InvalidSequenceNumber);
        }
        if account.balance.0 < order.transfer.amount.0 as i128 {
            return Err(FastPayError::InsufficientFunding);
        }
        let vote = SignedTransferOrder {
            value: order,
            authority: self.name,
            signature: Signature::new(&order, &self.secret),
        };
        let mut account = match self.accounts.remove(&id.0) {
            Some(account) => account,
            None => return Err(FastPayError::IncorrectSigner),
        };
        account.pending_confirmation = Some(vote);
        self.accounts.insert(id.0, account);
        proof {
            assert(self.accounts@ =~= old(self).accounts@.insert(id.0, with_pending(old(self).accounts@[id.0], vote)));
        }
        Ok(vote)
    }

    /// Confirms a certified transfer on the sender's shard: the sender is debited,
    /// the certificate logged, and the sequence number advanced. A certificate
    /// that was already confirmed is answered again and changes nothing. The
    /// result is the credit to deliver to the recipient's shard.
    pub fn handle_confirmation_order(&mut self, cert: CertifiedTransferOrder) -> (r: Result<
        CrossShardUpdate,
        FastPayError,
    >)
        requires
            old(self).wf(),
        ensures
            final(self).wf(),
            final(self).same_setup(old(self)),
            r is Err ==> final(self).accounts@ == old(self).accounts@,
            r is Ok ==> certified(old(self).committee, cert) && r->Ok_0.certificate == cert
                && r->Ok_0.shard_id == shard_of(cert.value.transfer.recipient, old(self).number_of_shards),
            has_unknown_signer(old(self).committee, cert) ==> r is Err && r->Err_0
                == FastPayError::UnknownSigner,
            !has_unknown_signer(old(self).committee, cert) && !certified(old(self).committee, cert)
                ==> r is Err && r->Err_0 == FastPayError::CertificateRequiresQuorum,
            r is Err && r->Err_0 is InvalidSignature ==> certified(old(self).committee, cert),
            r is Ok ==> signatures_well_formed(cert),
            certified(old(self).committee, cert) && !(r is Err && r->Err_0 is InvalidSignature)
                ==> confirmation_step(*old(self), *final(self), cert, r),
    {
        match self.check_certificate(&cert) {
            Ok(()) => {},
            Err(e) => return Err(e),
        }
        self.confirm_certified(cert)
    }

    /// Confirms a certificate whose signers are known to hold a quorum, as
    /// `handle_confirmation_order` does once the signatures are checked.
    pub fn confirm_certified(&mut self, cert: CertifiedTransferOrder) -> (r: Result<
        CrossShardUpdate,
        FastPayError,
    >)
        requires
            old(self).wf(),
            certified(old(self).committee, cert),
        ensures
            final(self).wf(),
            final(self).same_setup(old(self)),
            r is Err ==> final(self).accounts@ == old(self).accounts@,
            r is Ok ==> r->Ok_0.certificate == cert && r->Ok_0.shard_id == shard_of(
                cert.value.transfer.recipient,
                old(self).number_of_shards,
            ),
            confirmation_step(*old(self), *final(self), cert, r),
    {
        let id = cert.value.transfer.sender;
        if !self.in_shard(&id) {
            return Err(FastPayError::WrongShard);
        }
        let recipient_shard = Self::get_shard(self.number_of_shards, &cert.value.transfer.recipient);
        let seq = cert.value.transfer.sequence_number;
        let (next, balance) = match self.accounts.get(&id.0) {
            Some(a) => {
                if seq.0 < a.next_sequence_number.0 {
                    proof {
                        assert(old(self).accounts@.contains_key(id.0));
                        assert(a.confirmed_log@.len() == a.next_sequence_number.0);
                    }
                    let _logged = a.confirmed_log.len();
                    let k = seq.0 as usize;
                    proof {
                        assert(k as int == seq.0 as int);
                    }
                    if order_eq(&a.confirmed_log[k].value, &cert.value) {
                        return Ok(CrossShardUpdate { shard_id: recipient_shard, certificate: cert });
                    } else {
                        return Err(FastPayError::UnexpectedSequenceNumber);
                    }
                }
                (a.next_sequence_number, a.balance)
            },
            None => (SequenceNumber(0), Balance(0)),
        };
        if seq.0 > next.0 {
            return Err(FastPayError::MissingEarlierConfirmations);
        }
        let new_next = match next.increment() {
            Ok(n) => n,
            Err(e) => return Err(e),
        };
        if balance.0 < cert.value.transfer.amount.0 as i128 {
            return Err(FastPayError::InsufficientFunding);
        }
        let new_balance = Balance(balance.0 - cert.value.transfer.amount.0 as i128);
        let mut account = match self.accounts.remove(&id.0) {
            Some(a) => a,
            None => AccountState::fresh(),
        };
        let ghost before = account;
        proof {
            if old(self).accounts@.contains_key(id.0) {
                assert(before.wf(id, self.committee));
            }
            assert(before.balance == balance);
            assert(before.confirmed_log@ =~= old(self).confirmed_of(id));
            assert(before.synchronization_log@ =~= old(self).synchronization_of(id));
            assert(before.received_log@ =~= old(self).received_of(id));
        }
        account.balance = new_balance;
        account.next_sequence_number = new_next;
        account.pending_confirmation = None;
        let c1 = cert.duplicate();
        let c2 = cert.duplicate();
        account.confirmed_log.push(c1);
        account.synchronization_log.push(c2);
        proof {
            assert(account.confirmed_log@.drop_last() =~= before.confirmed_log@);
            assert(account.synchronization_log@.drop_last() =~= before.synchronization_log@);
            assert(certified(self.committee, c1));
            assert(certified(self.committee, c2));
            assert(account.confirmed_log@.last() == c1);
            assert(amount_sum(account.confirmed_log@) == amount_sum(before.confirmed_log@)
                + cert.value.transfer.amount.0);
            assert(account.received_log@ == before.received_log@);
            assert(account.wf(id, self.committee));
        }
        self.accounts.insert(id.0, account);
        proof {
            assert(self.accounts@.dom() =~= old(self).accounts@.dom().insert(id.0));
        }
        Ok(CrossShardUpdate { shard_id: recipient_shard, certificate: cert })
    }

    /// Credits the recipient of a certified transfer on its shard. A certificate
    /// already credited changes nothing.
    pub fn handle_cross_shard_recipient_commit(&mut self, cert: CertifiedTransferOrder) -> (r:
        Result<(), FastPayError>)
        requires
            old(self).wf(),
        ensures
            final(self).wf(),
            final(self).same_setup(old(self)),
            r is Err ==> final(self).accounts@ == old(self).accounts@,
            r is Ok ==> certified(old(self).committee, cert),
            has_unknown_signer(old(self).committee, cert) ==> r is Err && r->Err_0
                == FastPayError::UnknownSigner,
            !has_unknown_signer(old(self).committee, cert) && !certified(old(self).committee, cert)
                ==> r is Err && r->Err_0 == FastPayError::CertificateRequiresQuorum,
            r is Err && r->Err_0 is InvalidSignature ==> certified(old(self).committee, cert),
            r is Ok ==> signatures_well_formed(cert),
            certified(old(self).committee, cert) && !(r is Err && r->Err_0 is InvalidSignature)
                ==> credit_step(*old(self), *final(self), cert, r),
    {
        match self.check_certificate(&cert) {
            Ok(()) => {},
            Err(e) => return Err(e),
        }
        self.apply_credit(cert)
    }

    /// Credits a certificate whose signers are known to hold a quorum, as
    /// `handle_cross_shard_recipient_commit` does once the signatures are checked.
    pub fn apply_credit(&mut self, cert: CertifiedTransferOrder) -> (r: Result<(), FastPayError>)
        requires
            old(self).wf(),
            certified(old(self).committee, cert),
        ensures
            final(self).wf(),
            final(self).same_setup(old(self)),
            r is Err ==> final(self).accounts@ == old(self).accounts@,
            credit_step(*old(self), *final(self), cert, r),
    {
        let id = cert.value.transfer.recipient;
        if !self.in_shard(&id) {
            return Err(FastPayError::WrongShard);
        }
        let balance = match self.accounts.get(&id.0) {
            Some(a) => {
                if log_contains(&a.received_log, &cert) {
                    return Ok(());
                }
                a.balance
            },
            None => Balance(0),
        };
        let new_balance = match balance.try_add(Balance(cert.value.transfer.amount.0 as i128)) {
            Ok(b) => b,
            Err(e) => return Err(e),
        };
        let mut account = match self.accounts.remove(&id.0) {
            Some(a) => a,
            None => AccountState::fresh(),
        };
        let ghost before = account;
        proof {
            if old(self).accounts@.contains_key(id.0) {
                assert(before.wf(id, self.committee));
            }
            assert(before.balance == balance);
            assert(before.confirmed_log@ =~= old(self).confirmed_of(id));
            assert(before.synchronization_log@ =~= old(self).synchronization_of(id));
            assert(before.received_log@ =~= old(self).received_of(id));
        }
        account.balance = new_balance;
        let c = cert.duplicate();
        account.received_log.push(c);
        proof {
            assert(account.received_log@.drop_last() =~= before.received_log@);
            assert(certified(self.committee, c));
            assert(same_order(c.value, cert.value));
            assert(account.received_log@.last() == c);
            assert(amount_sum(account.received_log@) == amount_sum(before.received_log@)
                + cert.value.transfer.amount.0);
            assert(account.confirmed_log@ == before.confirmed_log@);
            assert(account.wf(id, self.committee));
        }
        self.accounts.insert(id.0, account);
        proof {
            assert(self.accounts@.dom() =~= old(self).accounts@.dom().insert(id.0));
        }
        Ok(())
    }

    /// Takes the certificate of `sequence_number` out of the sender's
    /// synchronization log once the recipient's shard has credited it.
    pub fn handle_cross_shard_acknowledgment(&mut self, sender: AccountId, sequence_number: SequenceNumber)
        requires
            old(self).wf(),
        ensures
            final(self).wf(),
            final(self).same_setup(old(self)),
            !old(self).known(sender) ==> final(self).accounts@ == old(self).accounts@,
            old(self).known(sender) ==> ({
                let a = old(self).accounts@[sender.0];
                let f = final(self).accounts@[sender.0];
                &&& final(self).accounts@.dom() == old(self).accounts@.dom()
                &&& forall|k: u64| k != sender.0 && #[trigger] old(self).accounts@.contains_key(k)
                    ==> final(self).accounts@[k] == old(self).accounts@[k]
                &&& f.owner == a.owner
                &&& f.balance == a.balance
                &&& f.next_sequence_number == a.next_sequence_number
                &&& f.pending_confirmation == a.pending_confirmation
                &&& f.confirmed_log@ == a.confirmed_log@
                &&& f.received_log@ == a.received_log@
                &&& f.synchronization_log@ == without_sequence(a.synchronization_log@, sequence_number)
            }),
    {
        let mut account = match self.accounts.remove(&sender.0) {
            Some(a) => a,
            None => return,
        };
        let ghost before = account;
        let ghost orig = account.synchronization_log@;
        let mut log: Vec<CertifiedTransferOrder> = Vec::new();
        std::mem::swap(&mut log, &mut account.synchronization_log);
        let mut kept: Vec<CertifiedTransferOrder> = Vec::new();
        while log.len() > 0
            invariant
                log@.len() <= orig.len(),
                log@ == orig.subrange(orig.len() - log@.len(), orig.len() as int),
                kept@ == without_sequence(orig.subrange(0, orig.len() - log@.len()), sequence_number),
            decreases log@.len(),
        {
            let ghost n = orig.len() - log@.len();
            proof {
                assert(orig.subrange(0, n + 1).drop_last() =~= orig.subrange(0, n));
                assert(orig.subrange(0, n + 1).last() == log@[0]);
            }
            let c = log.remove(0);
            proof {
                assert(log@ =~= orig.subrange(orig.len() - log@.len(), orig.len() as int));
            }
            if c.value.transfer.sequence_number != sequence_number {
                kept.push(c);
            }
        }
        proof {
            assert(orig.subrange(0, orig.len() as int) =~= orig);
            lemma_without_sequence_subset(orig, sequence_number);
        }
        account.synchronization_log = kept;
        self.accounts.insert(sender.0, account);
    }

    /// Reports an account: owner, balance, next sequence number, pending vote,
    /// and, where asked for and present, the confirmed certificate of one
    /// sequence number. An account not yet created reads as an empty one.
    pub fn handle_account_info_request(&self, account_id: AccountId, request_sequence: Option<
        SequenceNumber,
    >) -> (r: AccountInfoResponse)
        requires
            self.wf(),
        ensures
            r.account_id == account_id,
            r.owner == self.owner_of(account_id),
            r.balance.0 == self.balance_of(account_id),
            r.next_sequence_number.0 == self.next_of(account_id),
            r.pending_confirmation == self.pending_of(account_id),
            match request_sequence {
                Some(q) if q.0 < self.next_of(account_id) => r.requested_certificate is Some
                    && r.requested_certificate->Some_0.value == self.confirmed_of(
                    account_id,
                )[q.0 as int].value && r.requested_certificate->Some_0.signatures@
                    == self.confirmed_of(account_id)[q.0 as int].signatures@,
                _ => r.requested_certificate is None,
            },
    {
        match self.accounts.get(&account_id.0) {
            None => AccountInfoResponse {
                account_id,
                owner: None,
                balance: Balance(0),
                next_sequence_number: SequenceNumber(0),
                pending_confirmation: None,
                requested_certificate: None,
            },
            Some(a) => {
                proof {
                    assert(self.accounts@.contains_key(account_id.0));
                }
                let _logged = a.confirmed_log.len();
                let requested_certificate = match request_sequence {
                    Some(q) => {
                        if q.0 < a.next_sequence_number.0 {
                            Some(a.confirmed_log[q.0 as usize].duplicate())
                        } else {
                            None
                        }
                    },
                    None => None,
                };
                AccountInfoResponse {
                    account_id,
                    owner: a.owner,
                    balance: a.balance,
                    next_sequence_number: a.next_sequence_number,
                    pending_confirmation: a.pending_confirmation,
                    requested_certificate,
                }
            },
        }
    }

    /// Checks the signers and the signatures of a certificate.
    pub fn check_certificate(&self, cert: &CertifiedTransferOrder) -> (r: Result<(), FastPayError>)
        requires
            self.wf(),
        ensures
            r is Ok ==> certified(self.committee, *cert),
            r is Ok ==> signatures_well_formed(*cert),
            certified(self.committee, *cert) && r is Err ==> r->Err_0 is InvalidSignature,
            has_unknown_signer(self.committee, *cert) ==> r is Err && r->Err_0
                == FastPayError::UnknownSigner,
            !has_unknown_signer(self.committee, *cert) && !certified(self.committee, *cert) ==> r is Err
                && r->Err_0 == FastPayError::CertificateRequiresQuorum,
            r is Err && r->Err_0 is InvalidSignature ==> certified(self.committee, *cert),
            r is Err ==> r->Err_0 == FastPayError::UnknownSigner || r->Err_0
                == FastPayError::CertificateRequiresQuorum || r->Err_0 is InvalidSignature,
    {
        match self.committee.check_quorum(&cert.signatures) {
            Ok(()) => {},
            Err(e) => return Err(e),
        }
        Signature::verify_batch(&cert.value, &cert.signatures)
    }
}

} // verus!
