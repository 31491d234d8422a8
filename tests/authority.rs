use fastpay_core::authority::{AccountState, AuthorityState};
use fastpay_core::base_types::{
    get_key_pair, Amount, AuthorityName, Balance, EdPublicKeyBytes, SecretKey, SequenceNumber,
    Signature, UserData,
};
use fastpay_core::committee::Committee;
use fastpay_core::error::FastPayError;
use fastpay_core::messages::{AccountId, CertifiedTransferOrder, Transfer, TransferOrder};

const A: AccountId = AccountId(0);
const B: AccountId = AccountId(1);
const C: AccountId = AccountId(3);

struct Setup {
    authorities: Vec<AuthorityState>,
    keys: Vec<(AuthorityName, SecretKey)>,
    owner: EdPublicKeyBytes,
    owner_key: SecretKey,
}

fn committee_of(keys: &[(AuthorityName, SecretKey)]) -> Committee {
    Committee::new(keys.iter().map(|(n, _)| (*n, 1u64)).collect()).unwrap()
}

/// Four equal authorities, each one shard of `shards`, holding A (100) and B (0).
fn setup(shards: u32, shard: u32) -> Setup {
    let keys: Vec<(AuthorityName, SecretKey)> = (0..4).map(|_| get_key_pair()).collect();
    let (owner, owner_key) = get_key_pair();
    let (owner_b, _) = get_key_pair();
    let mut authorities = Vec::new();
    for (name, secret) in keys.iter() {
        let mut state =
            AuthorityState::new_shard(committee_of(&keys), *name, secret.copy(), shard, shards);
        let _ = state.insert_account(A, AccountState::new(owner, Balance(100)));
        let _ = state.insert_account(B, AccountState::new(owner_b, Balance(0)));
        authorities.push(state);
    }
    Setup { authorities, keys, owner, owner_key }
}

fn order(s: &Setup, recipient: AccountId, amount: u64, seq: u64) -> TransferOrder {
    let transfer = Transfer {
        sender: A,
        recipient,
        amount: Amount(amount),
        sequence_number: SequenceNumber(seq),
        user_data: UserData(None),
    };
    let signature = Signature::new(&transfer, &s.owner_key);
    TransferOrder { transfer, signature }
}

fn certificate(s: &mut Setup, o: TransferOrder, signers: usize) -> CertifiedTransferOrder {
    let mut signatures = Vec::new();
    for state in s.authorities.iter_mut().take(signers) {
        let vote = state.handle_transfer_order(o).unwrap();
        signatures.push((vote.authority, vote.signature));
    }
    CertifiedTransferOrder { value: o, signatures }
}

fn balance(state: &AuthorityState, id: AccountId) -> i128 {
    state.accounts.get(&id.0).map(|a| a.balance.0).unwrap_or(0)
}

#[test]
fn committee_thresholds() {
    let s = setup(1, 0);
    let committee = committee_of(&s.keys);
    assert_eq!(committee.quorum_threshold(), 3);
    assert_eq!(committee.validity_threshold(), 2);
    let names: Vec<AuthorityName> = s.keys.iter().map(|(n, _)| *n).collect();
    assert!(committee.has_quorum(&names[0..3].to_vec()));
    assert!(!committee.has_quorum(&names[0..2].to_vec()));
    assert!(!committee.has_quorum(&vec![names[0], names[0], names[1], names[1]]));
    assert_eq!(committee.weight(&names[2]), 1);
    assert_eq!(committee.weight(&s.owner), 0);
    assert!(Committee::new(vec![(names[0], 1), (names[0], 2)]).is_none());
    assert!(Committee::new(vec![(names[0], 0)]).is_none());
    assert!(Committee::new(vec![(names[0], u64::MAX), (names[1], 1)]).is_none());
}

#[test]
fn happy_path() {
    let mut s = setup(1, 0);
    let o = order(&s, B, 30, 0);
    let cert = certificate(&mut s, o, 3);
    for state in s.authorities.iter_mut() {
        let update = state.handle_confirmation_order(cert.clone()).unwrap();
        assert_eq!(update.shard_id, 0);
        state.handle_cross_shard_recipient_commit(update.certificate).unwrap();
        assert_eq!(balance(state, A), 70);
        assert_eq!(balance(state, B), 30);
        let a = state.accounts.get(&A.0).unwrap();
        assert_eq!(a.next_sequence_number, SequenceNumber(1));
        assert!(a.pending_confirmation.is_none());
        assert_eq!(a.confirmed_log.len(), 1);
    }
}

#[test]
fn vote_replay_returns_the_same_vote() {
    let mut s = setup(1, 0);
    let o = order(&s, B, 30, 0);
    let first = s.authorities[0].handle_transfer_order(o).unwrap();
    let second = s.authorities[0].handle_transfer_order(o).unwrap();
    assert_eq!(first, second);
    assert_eq!(first.value, o);
}

#[test]
fn double_spend_attempt() {
    let mut s = setup(1, 0);
    let t = order(&s, B, 30, 0);
    let t2 = order(&s, C, 30, 0);
    for state in s.authorities.iter_mut() {
        assert!(state.handle_transfer_order(t).is_ok());
        assert_eq!(
            state.handle_transfer_order(t2),
            Err(FastPayError::PreviousTransferMustBeConfirmedFirst)
        );
    }
}

#[test]
fn confirmation_replay_is_a_no_op() {
    let mut s = setup(1, 0);
    let o = order(&s, B, 30, 0);
    let cert = certificate(&mut s, o, 4);
    let state = &mut s.authorities[0];
    let update = state.handle_confirmation_order(cert.clone()).unwrap();
    state.handle_cross_shard_recipient_commit(update.certificate.clone()).unwrap();
    let again = state.handle_confirmation_order(cert.clone()).unwrap();
    state.handle_cross_shard_recipient_commit(again.certificate).unwrap();
    state.handle_cross_shard_recipient_commit(update.certificate).unwrap();
    assert_eq!(balance(state, B), 30);
    assert_eq!(balance(state, A), 70);
    assert_eq!(state.accounts.get(&B.0).unwrap().received_log.len(), 1);
}

#[test]
fn insufficient_funds() {
    let mut s = setup(1, 0);
    let o = order(&s, B, 150, 0);
    let state = &mut s.authorities[0];
    assert_eq!(state.handle_transfer_order(o), Err(FastPayError::InsufficientFunding));
    let a = state.accounts.get(&A.0).unwrap();
    assert!(a.pending_confirmation.is_none());
    assert_eq!(a.balance, Balance(100));
}

#[test]
fn wrong_sequence_and_signer() {
    let mut s = setup(1, 0);
    let o = order(&s, B, 10, 1);
    assert_eq!(
        s.authorities[0].handle_transfer_order(o),
        Err(FastPayError::InvalidSequenceNumber)
    );
    let mut forged = order(&s, B, 10, 0);
    forged.signature = Signature::new(&forged.transfer, &s.keys[0].1);
    assert!(matches!(
        s.authorities[0].handle_transfer_order(forged),
        Err(FastPayError::InvalidSignature { .. })
    ));
    let mut unknown = order(&s, B, 10, 0);
    unknown.transfer.sender = AccountId(7);
    assert_eq!(
        s.authorities[0].handle_transfer_order(unknown),
        Err(FastPayError::IncorrectSigner)
    );
    assert_eq!(s.owner, s.owner_key.public());
}

#[test]
fn cross_shard_transfer() {
    let mut shard0 = setup(2, 0);
    let o = order(&shard0, B, 30, 0);
    let cert = certificate(&mut shard0, o, 3);
    let committee = committee_of(&shard0.keys);
    let (name, secret) = (&shard0.keys[0].0, &shard0.keys[0].1);
    let mut shard1 = AuthorityState::new_shard(committee, *name, secret.copy(), 1, 2);
    let (owner_b, _) = get_key_pair();
    assert_eq!(
        shard1.insert_account(A, AccountState::new(owner_b, Balance(0))),
        Err(FastPayError::WrongShard)
    );
    shard1.insert_account(B, AccountState::new(owner_b, Balance(0))).unwrap();
    let sender = &mut shard0.authorities[0];
    assert_eq!(sender.accounts.get(&B.0).is_some(), false);
    let update = sender.handle_confirmation_order(cert.clone()).unwrap();
    assert_eq!(update.shard_id, 1);
    assert_eq!(
        sender.handle_cross_shard_recipient_commit(update.certificate.clone()),
        Err(FastPayError::WrongShard)
    );
    assert_eq!(sender.accounts.get(&A.0).unwrap().synchronization_log.len(), 1);
    shard1.handle_cross_shard_recipient_commit(update.certificate.clone()).unwrap();
    assert_eq!(balance(&shard1, B), 30);
    assert_eq!(balance(sender, A), 70);
    sender.handle_cross_shard_acknowledgment(A, SequenceNumber(0));
    assert_eq!(sender.accounts.get(&A.0).unwrap().synchronization_log.len(), 0);
}

#[test]
fn quorum_deficit() {
    let mut s = setup(1, 0);
    let o = order(&s, B, 30, 0);
    let cert = certificate(&mut s, o, 2);
    let state = &mut s.authorities[3];
    assert_eq!(
        state.handle_confirmation_order(cert.clone()),
        Err(FastPayError::CertificateRequiresQuorum)
    );
    assert_eq!(
        state.handle_cross_shard_recipient_commit(cert),
        Err(FastPayError::CertificateRequiresQuorum)
    );
    assert_eq!(balance(state, A), 100);
    assert_eq!(balance(state, B), 0);
}

#[test]
fn unknown_signer_and_missing_confirmations() {
    let mut s = setup(1, 0);
    let o = order(&s, B, 30, 0);
    let mut cert = certificate(&mut s, o, 3);
    let (stranger, stranger_key) = get_key_pair();
    cert.signatures.push((stranger, Signature::new(&o, &stranger_key)));
    assert_eq!(
        s.authorities[3].handle_confirmation_order(cert),
        Err(FastPayError::UnknownSigner)
    );
    let later = order(&s, B, 30, 1);
    let mut signatures = Vec::new();
    for (name, key) in s.keys.iter().take(3) {
        signatures.push((*name, Signature::new(&later, key)));
    }
    let cert = CertifiedTransferOrder { value: later, signatures };
    assert_eq!(
        s.authorities[3].handle_confirmation_order(cert),
        Err(FastPayError::MissingEarlierConfirmations)
    );
}

#[test]
fn account_info_reports_the_ledger() {
    let mut s = setup(1, 0);
    let o = order(&s, B, 30, 0);
    let cert = certificate(&mut s, o, 3);
    let state = &mut s.authorities[0];
    state.handle_confirmation_order(cert.clone()).unwrap();
    let info = state.handle_account_info_request(A, Some(SequenceNumber(0)));
    assert_eq!(info.account_id, A);
    assert_eq!(info.balance, Balance(70));
    assert_eq!(info.next_sequence_number, SequenceNumber(1));
    assert!(info.pending_confirmation.is_none());
    assert_eq!(info.requested_certificate.unwrap().value, o);
    let info = state.handle_account_info_request(A, Some(SequenceNumber(1)));
    assert!(info.requested_certificate.is_none());
    let info = state.handle_account_info_request(AccountId(99), None);
    assert_eq!(info.owner, None);
    assert_eq!(info.balance, Balance(0));
}

#[test]
fn genesis_keeps_only_local_accounts() {
    let s = setup(1, 0);
    let accounts = vec![(A, s.owner, Balance(5)), (B, s.owner, Balance(6)), (C, s.owner, Balance(7))];
    let state = AuthorityState::make_shard_state(
        committee_of(&s.keys),
        s.keys[0].0,
        s.keys[0].1.copy(),
        1,
        2,
        &accounts,
    );
    assert!(state.accounts.get(&A.0).is_none());
    assert_eq!(state.accounts.get(&B.0).unwrap().balance, Balance(6));
    assert_eq!(state.accounts.get(&C.0).unwrap().balance, Balance(7));
    assert_eq!(AuthorityState::get_shard(2, &C), 1);
}

fn signed_by(s: &Setup, o: TransferOrder, signers: usize) -> CertifiedTransferOrder {
    let signatures = s.keys.iter().take(signers).map(|(n, k)| (*n, Signature::new(&o, k))).collect();
    CertifiedTransferOrder { value: o, signatures }
}

#[test]
fn confirmation_refuses_overdraft_and_bad_signatures() {
    let mut s = setup(1, 0);
    let big = order(&s, B, 150, 0);
    let cert = signed_by(&s, big, 3);
    assert_eq!(
        s.authorities[0].handle_confirmation_order(cert),
        Err(FastPayError::InsufficientFunding)
    );
    assert_eq!(balance(&s.authorities[0], A), 100);
    let o = order(&s, B, 30, 0);
    let mut cert = signed_by(&s, o, 3);
    cert.signatures[1].1 = Signature::new(&big, &s.keys[1].1);
    assert!(matches!(
        s.authorities[0].handle_confirmation_order(cert),
        Err(FastPayError::InvalidSignature { .. })
    ));
    assert_eq!(balance(&s.authorities[0], A), 100);
}

#[test]
fn one_state_per_shard() {
    let s = setup(1, 0);
    let accounts = vec![(A, s.owner, Balance(5)), (B, s.owner, Balance(6)), (A, s.owner, Balance(9))];
    let states = AuthorityState::make_shard_states(
        &committee_of(&s.keys),
        s.keys[0].0,
        &s.keys[0].1,
        2,
        &accounts,
    );
    assert_eq!(states.len(), 2);
    assert_eq!(states[0].shard_id, 0);
    assert_eq!(states[1].shard_id, 1);
    assert_eq!(states[0].accounts.get(&A.0).unwrap().balance, Balance(9));
    assert!(states[0].accounts.get(&B.0).is_none());
    assert_eq!(states[1].accounts.get(&B.0).unwrap().balance, Balance(6));
}
