use vstd::prelude::*;

verus! {

/// An authenticated account, as handed over by the host's identity provider.
pub type AccountId = u64;

/// Aggregate status of an anchored document.
#[derive(PartialEq, Eq, Structural, Clone, Copy, Debug)]
pub enum SmartAgreementState {
    PendingSignature,
    Accepted,
    Declined,
}

impl Default for SmartAgreementState {
    fn default() -> (r: Self)
        ensures
            r == SmartAgreementState::PendingSignature,
    {
        SmartAgreementState::PendingSignature
    }
}

/// Lifecycle of one counterparty's answer.
#[derive(PartialEq, Eq, Structural, Clone, Copy, Debug)]
pub enum AcceptanceState {
    Empty,
    Requested,
    Accepted,
    Declined,
}

impl Default for AcceptanceState {
    fn default() -> (r: Self)
        ensures
            r == AcceptanceState::Empty,
    {
        AcceptanceState::Empty
    }
}

/// What a single response did to the document's aggregate status.
#[derive(PartialEq, Eq, Structural, Clone, Copy, Debug)]
pub enum StatusTransition {
    NoChange,
    Accepted,
    Declined,
}

/// Every way an operation can be rejected; a rejected operation changes nothing.
#[derive(PartialEq, Eq, Structural, Clone, Copy, Debug)]
pub enum Error {
    LengthMismatch,
    InvalidQuorum,
    EmptyCounterpartyList,
    DuplicateCounterparty,
    AlreadyExists,
    AlreadyResponded,
    DocumentFinalized,
    Unauthorized,
    UnknownCounterparty,
}

/// The record of one required signer of one document.
#[derive(PartialEq, Eq, Debug)]
pub struct Counterparty {
    pub account: AccountId,
    pub did: Vec<u8>,
    pub acceptance_state: AcceptanceState,
}

pub struct CounterpartyView {
    pub account: AccountId,
    pub did: Seq<u8>,
    pub acceptance_state: AcceptanceState,
}

impl View for Counterparty {
    type V = CounterpartyView;

    open spec fn view(&self) -> CounterpartyView {
        CounterpartyView {
            account: self.account,
            did: self.did@,
            acceptance_state: self.acceptance_state,
        }
    }
}

/// One agreement, keyed by the fingerprint of the document's content.
#[derive(PartialEq, Eq, Debug)]
pub struct AnchoredDocument {
    pub file_hash: Vec<u8>,
    pub proposer_account: AccountId,
    pub proposer_did: Vec<u8>,
    pub required_quorum: u128,
    pub template_id: u128,
    pub metadata: Vec<u8>,
    pub valid_until: u128,
    pub status: SmartAgreementState,
    pub counterparties: Vec<AccountId>,
    pub accepted_counterparties: u128,
    pub declined_counterparties: u128,
}

pub struct AnchoredDocumentView {
    pub file_hash: Seq<u8>,
    pub proposer_account: AccountId,
    pub proposer_did: Seq<u8>,
    pub required_quorum: u128,
    pub template_id: u128,
    pub metadata: Seq<u8>,
    pub valid_until: u128,
    pub status: SmartAgreementState,
    pub counterparties: Seq<AccountId>,
    pub accepted_counterparties: u128,
    pub declined_counterparties: u128,
}

impl View for AnchoredDocument {
    type V = AnchoredDocumentView;

    open spec fn view(&self) -> AnchoredDocumentView {
        AnchoredDocumentView {
            file_hash: self.file_hash@,
            proposer_account: self.proposer_account,
            proposer_did: self.proposer_did@,
            required_quorum: self.required_quorum,
            template_id: self.template_id,
            metadata: self.metadata@,
            valid_until: self.valid_until,
            status: self.status,
            counterparties: self.counterparties@,
            accepted_counterparties: self.accepted_counterparties,
            declined_counterparties: self.declined_counterparties,
        }
    }
}

/// Notifications for observers; the field order is part of the listener contract.
#[derive(PartialEq, Eq, Debug)]
pub enum Event {
    SignatureRequested(AccountId, Vec<u8>),
    DocumentAnchored(AccountId, Vec<u8>),
    SignatureAccepted(AccountId, Vec<u8>),
    SignatureDeclined(AccountId, Vec<u8>),
    AgreementAccepted(Vec<u8>),
    AgreementDeclined(Vec<u8>),
}

pub enum EventView {
    SignatureRequested(AccountId, Seq<u8>),
    DocumentAnchored(AccountId, Seq<u8>),
    SignatureAccepted(AccountId, Seq<u8>),
    SignatureDeclined(AccountId, Seq<u8>),
    AgreementAccepted(Seq<u8>),
    AgreementDeclined(Seq<u8>),
}

impl View for Event {
    type V = EventView;

    open spec fn view(&self) -> EventView {
        match self {
            Event::SignatureRequested(a, h) => EventView::SignatureRequested(*a, h@),
            Event::DocumentAnchored(a, h) => EventView::DocumentAnchored(*a, h@),
            Event::SignatureAccepted(a, h) => EventView::SignatureAccepted(*a, h@),
            Event::SignatureDeclined(a, h) => EventView::SignatureDeclined(*a, h@),
            Event::AgreementAccepted(h) => EventView::AgreementAccepted(h@),
            Event::AgreementDeclined(h) => EventView::AgreementDeclined(h@),
        }
    }
}

/// A fresh copy of a byte string.
pub fn copy_bytes(v: &Vec<u8>) -> (r: Vec<u8>)
    ensures
        r@ == v@,
{
    let mut r: Vec<u8> = Vec::new();
    let mut i: usize = 0;
    while i < v.len()
        invariant
            i <= v.len(),
            r@ == v@.subrange(0, i as int),
        decreases v.len() - i,
    {
        r.push(v[i]);
        i = i + 1;
        assert(r@ =~= v@.subrange(0, i as int));
    }
    assert(r@ =~= v@);
    r
}

/// Byte-wise equality of two byte strings.
pub fn bytes_eq(a: &Vec<u8>, b: &Vec<u8>) -> (r: bool)
    ensures
        r == (a@ == b@),
{
    if a.len() != b.len() {
        return false;
    }
    let mut i: usize = 0;
    while i < a.len()
        invariant
            a.len() == b.len(),
            i <= a.len(),
            forall|j: int| 0 <= j < i ==> a@[j] == b@[j],
        decreases a.len() - i,
    {
        if a[i] != b[i] {
            return false;
        }
        i = i + 1;
    }
    assert(a@ =~= b@);
    true
}

} // verus!
