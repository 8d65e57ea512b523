use smart_agreement::pallet::Pallet;
use smart_agreement::types::{bytes_eq, copy_bytes};
use smart_agreement::{AcceptanceState, AccountId, Error, Event, SmartAgreementState, StatusTransition};

const PROPOSER: AccountId = 1;
const X: AccountId = 10;
const Y: AccountId = 11;
const Z: AccountId = 12;

fn hash() -> Vec<u8> {
    vec![0xab, 0xcd, 0xef]
}

fn create(p: &mut Pallet, quorum: u128, accounts: Vec<AccountId>) -> Result<(), Error> {
    let dids: Vec<Vec<u8>> = accounts.iter().map(|a| vec![*a as u8, 7]).collect();
    p.add_document(PROPOSER, hash(), vec![1, 2], quorum, 5, 1000, accounts, dids, vec![9])
}

fn counters(p: &Pallet) -> (u128, u128) {
    let d = p.get_anchor(&hash()).unwrap();
    (d.accepted_counterparties, d.declined_counterparties)
}

fn status(p: &Pallet) -> SmartAgreementState {
    p.get_anchor(&hash()).unwrap().status
}

#[test]
fn scenario_a_quorum_two_of_three() {
    let mut p = Pallet::new();
    assert_eq!(create(&mut p, 2, vec![X, Y, Z]), Ok(()));
    assert_eq!(p.respond_to_agreement(X, hash(), true), Ok(StatusTransition::NoChange));
    assert_eq!(counters(&p), (1, 0));
    assert_eq!(status(&p), SmartAgreementState::PendingSignature);
    assert_eq!(p.respond_to_agreement(Y, hash(), true), Ok(StatusTransition::Accepted));
    assert_eq!(counters(&p), (2, 0));
    assert_eq!(status(&p), SmartAgreementState::Accepted);
    assert_eq!(p.respond_to_agreement(Z, hash(), true), Err(Error::DocumentFinalized));
    assert_eq!(counters(&p), (2, 0));
}

#[test]
fn scenario_b_second_decline_makes_quorum_unreachable() {
    let mut p = Pallet::new();
    assert_eq!(create(&mut p, 3, vec![X, Y, Z]), Ok(()));
    assert_eq!(p.respond_to_agreement(X, hash(), false), Ok(StatusTransition::Declined));
    assert_eq!(status(&p), SmartAgreementState::Declined);
    assert_eq!(p.respond_to_agreement(Y, hash(), false), Err(Error::DocumentFinalized));
}

#[test]
fn two_declines_decline_a_two_of_three_quorum() {
    let mut p = Pallet::new();
    assert_eq!(create(&mut p, 2, vec![X, Y, Z]), Ok(()));
    assert_eq!(p.respond_to_agreement(X, hash(), false), Ok(StatusTransition::NoChange));
    assert_eq!(p.respond_to_agreement(Y, hash(), false), Ok(StatusTransition::Declined));
    assert_eq!(counters(&p), (0, 2));
    assert_eq!(status(&p), SmartAgreementState::Declined);
}

#[test]
fn scenario_c_length_mismatch_creates_nothing() {
    let mut p = Pallet::new();
    let r = p.add_document(
        PROPOSER,
        hash(),
        vec![1],
        1,
        0,
        0,
        vec![X, Y],
        vec![vec![1], vec![2], vec![3]],
        vec![],
    );
    assert_eq!(r, Err(Error::LengthMismatch));
    assert!(p.get_anchor(&hash()).is_none());
    assert!(p.get_counterparty(&hash(), X).is_none());
    assert!(p.events().is_empty());
}

#[test]
fn scenario_d_zero_quorum_is_invalid() {
    let mut p = Pallet::new();
    assert_eq!(create(&mut p, 0, vec![X, Y]), Err(Error::InvalidQuorum));
    assert!(p.get_anchor(&hash()).is_none());
}

#[test]
fn quorum_above_signer_count_is_invalid() {
    let mut p = Pallet::new();
    assert_eq!(create(&mut p, 3, vec![X, Y]), Err(Error::InvalidQuorum));
}

#[test]
fn empty_signer_list_is_rejected() {
    let mut p = Pallet::new();
    assert_eq!(create(&mut p, 1, vec![]), Err(Error::EmptyCounterpartyList));
}

#[test]
fn duplicate_signer_is_rejected_before_any_write() {
    let mut p = Pallet::new();
    assert_eq!(create(&mut p, 1, vec![X, Y, X]), Err(Error::DuplicateCounterparty));
    assert!(p.get_anchor(&hash()).is_none());
    assert!(p.get_counterparty(&hash(), X).is_none());
    assert!(p.events().is_empty());
}

#[test]
fn second_creation_under_same_fingerprint_is_rejected() {
    let mut p = Pallet::new();
    assert_eq!(create(&mut p, 1, vec![X]), Ok(()));
    assert_eq!(create(&mut p, 1, vec![Y]), Err(Error::AlreadyExists));
    assert!(p.get_counterparty(&hash(), Y).is_none());
    assert_eq!(p.events().len(), 2);
}

#[test]
fn creation_requests_every_signer() {
    let mut p = Pallet::new();
    assert_eq!(create(&mut p, 2, vec![X, Y, Z]), Ok(()));
    for a in [X, Y, Z] {
        let c = p.get_counterparty(&hash(), a).unwrap();
        assert_eq!(c.account, a);
        assert_eq!(c.did, vec![a as u8, 7]);
        assert_eq!(c.acceptance_state, AcceptanceState::Requested);
    }
    assert!(p.get_counterparty(&hash(), PROPOSER).is_none());
    let d = p.get_anchor(&hash()).unwrap();
    assert_eq!(d.file_hash, hash());
    assert_eq!(d.proposer_account, PROPOSER);
    assert_eq!(d.proposer_did, vec![1, 2]);
    assert_eq!(d.required_quorum, 2);
    assert_eq!(d.template_id, 5);
    assert_eq!(d.valid_until, 1000);
    assert_eq!(d.metadata, vec![9]);
    assert_eq!(d.counterparties, vec![X, Y, Z]);
    assert_eq!(d.status, SmartAgreementState::PendingSignature);
    assert_eq!(counters(&p), (0, 0));
}

#[test]
fn creation_events_in_order() {
    let mut p = Pallet::new();
    assert_eq!(create(&mut p, 1, vec![X, Y]), Ok(()));
    assert_eq!(
        p.events(),
        &vec![
            Event::SignatureRequested(X, hash()),
            Event::SignatureRequested(Y, hash()),
            Event::DocumentAnchored(PROPOSER, hash()),
        ]
    );
}

#[test]
fn response_events() {
    let mut p = Pallet::new();
    assert_eq!(create(&mut p, 2, vec![X, Y, Z]), Ok(()));
    assert_eq!(p.respond_to_agreement(Z, hash(), false), Ok(StatusTransition::NoChange));
    assert_eq!(p.respond_to_agreement(X, hash(), true), Ok(StatusTransition::NoChange));
    assert_eq!(p.respond_to_agreement(Y, hash(), true), Ok(StatusTransition::Accepted));
    assert_eq!(
        &p.events()[4..],
        &[
            Event::SignatureDeclined(Z, hash()),
            Event::SignatureAccepted(X, hash()),
            Event::SignatureAccepted(Y, hash()),
            Event::AgreementAccepted(hash()),
        ]
    );
    assert_eq!(p.get_counterparty(&hash(), Z).unwrap().acceptance_state, AcceptanceState::Declined);
    assert_eq!(p.get_counterparty(&hash(), X).unwrap().acceptance_state, AcceptanceState::Accepted);
}

#[test]
fn declined_agreement_emits_terminal_event() {
    let mut p = Pallet::new();
    assert_eq!(create(&mut p, 1, vec![X]), Ok(()));
    assert_eq!(p.respond_to_agreement(X, hash(), false), Ok(StatusTransition::Declined));
    assert_eq!(
        &p.events()[2..],
        &[Event::SignatureDeclined(X, hash()), Event::AgreementDeclined(hash())]
    );
}

#[test]
fn counters_never_exceed_signers() {
    let mut p = Pallet::new();
    assert_eq!(create(&mut p, 3, vec![X, Y, Z]), Ok(()));
    for (a, accept) in [(X, true), (Y, true), (Z, true), (X, false), (Y, true)] {
        let _ = p.respond_to_agreement(a, hash(), accept);
        let (acc, dec) = counters(&p);
        assert!(acc + dec <= 3);
    }
    assert_eq!(counters(&p), (3, 0));
    assert_eq!(status(&p), SmartAgreementState::Accepted);
}

#[test]
fn finalized_document_rejects_responses() {
    let mut p = Pallet::new();
    assert_eq!(create(&mut p, 1, vec![X, Y, Z]), Ok(()));
    assert_eq!(p.respond_to_agreement(Y, hash(), true), Ok(StatusTransition::Accepted));
    assert_eq!(p.respond_to_agreement(X, hash(), false), Err(Error::DocumentFinalized));
    assert_eq!(p.respond_to_agreement(Z, hash(), true), Err(Error::DocumentFinalized));
    assert_eq!(status(&p), SmartAgreementState::Accepted);
    assert_eq!(counters(&p), (1, 0));
    assert_eq!(p.get_counterparty(&hash(), X).unwrap().acceptance_state, AcceptanceState::Requested);
}

#[test]
fn reached_quorum_means_accepted() {
    let mut p = Pallet::new();
    assert_eq!(create(&mut p, 2, vec![X, Y, Z]), Ok(()));
    assert_eq!(p.respond_to_agreement(Z, hash(), false), Ok(StatusTransition::NoChange));
    assert_eq!(p.respond_to_agreement(X, hash(), true), Ok(StatusTransition::NoChange));
    assert_eq!(p.respond_to_agreement(Y, hash(), true), Ok(StatusTransition::Accepted));
    let d = p.get_anchor(&hash()).unwrap();
    assert!(d.accepted_counterparties >= d.required_quorum);
    assert_eq!(d.status, SmartAgreementState::Accepted);
}

#[test]
fn second_response_from_same_signer_is_rejected() {
    let mut p = Pallet::new();
    assert_eq!(create(&mut p, 2, vec![X, Y, Z]), Ok(()));
    assert_eq!(p.respond_to_agreement(X, hash(), true), Ok(StatusTransition::NoChange));
    let events_before = p.events().len();
    assert_eq!(p.respond_to_agreement(X, hash(), false), Err(Error::AlreadyResponded));
    assert_eq!(p.respond_to_agreement(X, hash(), true), Err(Error::AlreadyResponded));
    assert_eq!(counters(&p), (1, 0));
    assert_eq!(p.get_counterparty(&hash(), X).unwrap().acceptance_state, AcceptanceState::Accepted);
    assert_eq!(p.events().len(), events_before);
}

#[test]
fn response_to_unknown_document() {
    let mut p = Pallet::new();
    assert_eq!(p.respond_to_agreement(X, hash(), true), Err(Error::UnknownCounterparty));
}

#[test]
fn response_from_unlisted_account() {
    let mut p = Pallet::new();
    assert_eq!(create(&mut p, 1, vec![X, Y]), Ok(()));
    assert_eq!(p.respond_to_agreement(Z, hash(), true), Err(Error::Unauthorized));
    assert_eq!(p.respond_to_agreement(PROPOSER, hash(), true), Err(Error::Unauthorized));
    assert_eq!(counters(&p), (0, 0));
}

#[test]
fn documents_are_independent() {
    let mut p = Pallet::new();
    let other = vec![1u8];
    assert_eq!(create(&mut p, 1, vec![X]), Ok(()));
    assert_eq!(
        p.add_document(Y, other.clone(), vec![], 1, 0, 0, vec![X], vec![vec![]], vec![]),
        Ok(())
    );
    assert_eq!(p.respond_to_agreement(X, other.clone(), false), Ok(StatusTransition::Declined));
    assert_eq!(status(&p), SmartAgreementState::PendingSignature);
    assert_eq!(p.respond_to_agreement(X, hash(), true), Ok(StatusTransition::Accepted));
    assert_eq!(p.get_anchor(&other).unwrap().status, SmartAgreementState::Declined);
}

#[test]
fn default_states() {
    assert_eq!(SmartAgreementState::default(), SmartAgreementState::PendingSignature);
    assert_eq!(AcceptanceState::default(), AcceptanceState::Empty);
}

#[test]
fn byte_helpers() {
    assert_eq!(copy_bytes(&vec![3, 4, 5]), vec![3, 4, 5]);
    assert!(bytes_eq(&vec![1, 2], &vec![1, 2]));
    assert!(!bytes_eq(&vec![1, 2], &vec![1, 3]));
    assert!(!bytes_eq(&vec![1, 2], &vec![1, 2, 3]));
}
