use vstd::prelude::*;
use crate::registry::lemma_after_response_wf;
use crate::types::{
    bytes_eq, copy_bytes, AccountId, AcceptanceState, AnchoredDocument, AnchoredDocumentView,
    Counterparty, CounterpartyView, Error, Event, EventView, SmartAgreementState,
    StatusTransition,
};

verus! {

/// The agreement state: the document registry, the counterparty records and the
/// log of emitted events.
///
/// `records[i]` holds the records of the signers of `anchors[i]`, in the order in
/// which its counterparties were listed, so that a record exists for a
/// (fingerprint, account) pair exactly when the account is listed on that document.
pub struct Pallet {
    anchors: Vec<AnchoredDocument>,
    records: Vec<Vec<Counterparty>>,
    events: Vec<Event>,
}

/// Some account is listed twice or more.
pub open spec fn has_duplicates(s: Seq<AccountId>) -> bool {
    exists|i: int, j: int| 0 <= i < j < s.len() && s[i] == s[j]
}

/// Where an account stands in a list of accounts.
pub open spec fn position(s: Seq<AccountId>, a: AccountId) -> int {
    choose|k: int| 0 <= k < s.len() && s[k] == a
}

/// The records that a new document starts with: one per signer, all `Requested`.
pub open spec fn requested_records(accounts: Seq<AccountId>, dids: Seq<Seq<u8>>) -> Seq<
    CounterpartyView,
> {
    Seq::new(
        accounts.len(),
        |k: int|
            CounterpartyView {
                account: accounts[k],
                did: dids[k],
                acceptance_state: AcceptanceState::Requested,
            },
    )
}

/// One signature request per signer, in the order listed.
pub open spec fn signature_requests(accounts: Seq<AccountId>, h: Seq<u8>) -> Seq<EventView> {
    Seq::new(accounts.len(), |k: int| EventView::SignatureRequested(accounts[k], h))
}

/// The identity references as byte strings.
pub open spec fn dids_view(dids: Seq<Vec<u8>>) -> Seq<Seq<u8>> {
    dids.map_values(|d: Vec<u8>| d@)
}

/// The state in which a document is registered.
pub open spec fn new_document(
    h: Seq<u8>,
    who: AccountId,
    proposer_did: Seq<u8>,
    required_quorum: u128,
    template_id: u128,
    valid_until: u128,
    accounts: Seq<AccountId>,
    metadata: Seq<u8>,
) -> AnchoredDocumentView {
    AnchoredDocumentView {
        file_hash: h,
        proposer_account: who,
        proposer_did,
        required_quorum,
        template_id,
        metadata,
        valid_until,
        status: SmartAgreementState::PendingSignature,
        counterparties: accounts,
        accepted_counterparties: 0,
        declined_counterparties: 0,
    }
}

/// The events that a successful response emits.
pub open spec fn response_events(
    who: AccountId,
    h: Seq<u8>,
    accept: bool,
    t: StatusTransition,
) -> Seq<EventView> {
    let signer = if accept {
        EventView::SignatureAccepted(who, h)
    } else {
        EventView::SignatureDeclined(who, h)
    };
    match t {
        StatusTransition::NoChange => seq![signer],
        StatusTransition::Accepted => seq![signer, EventView::AgreementAccepted(h)],
        StatusTransition::Declined => seq![signer, EventView::AgreementDeclined(h)],
    }
}

/// The state a record moves to on a response.
pub open spec fn answered(accept: bool) -> AcceptanceState {
    if accept {
        AcceptanceState::Accepted
    } else {
        AcceptanceState::Declined
    }
}

/// How many of the records are in state `st`.
pub open spec fn count_state(records: Seq<CounterpartyView>, st: AcceptanceState) -> nat
    decreases records.len(),
{
    if records.len() == 0 {
        0
    } else {
        count_state(records.drop_last(), st) + if records.last().acceptance_state == st {
            1nat
        } else {
            0nat
        }
    }
}

/// Replacing one record changes each count by what the two records differ in.
pub proof fn lemma_count_update(
    records: Seq<CounterpartyView>,
    k: int,
    v: CounterpartyView,
    st: AcceptanceState,
)
    requires
        0 <= k < records.len(),
    ensures
        count_state(records.update(k, v), st) + (if records[k].acceptance_state == st {
            1int
        } else {
            0int
        }) == count_state(records, st) + (if v.acceptance_state == st {
            1int
        } else {
            0int
        }),
    decreases records.len(),
{
    let u = records.update(k, v);
    if k == records.len() - 1 {
        assert(u.drop_last() =~= records.drop_last());
    } else {
        assert(u.drop_last() =~= records.drop_last().update(k, v));
        lemma_count_update(records.drop_last(), k, v, st);
    }
}

/// None of the records a new document starts with has answered.
pub proof fn lemma_count_requested(accounts: Seq<AccountId>, dids: Seq<Seq<u8>>, st: AcceptanceState)
    requires
        st != AcceptanceState::Requested,
    ensures
        count_state(requested_records(accounts, dids), st) == 0,
    decreases accounts.len(),
{
    if accounts.len() > 0 {
        let shorter = accounts.drop_last();
        assert(requested_records(accounts, dids).drop_last() =~= requested_records(shorter, dids));
        lemma_count_requested(shorter, dids, st);
    }
}

impl Pallet {
    /// The registered documents, in the order of registration.
    pub closed spec fn anchors_view(self) -> Seq<AnchoredDocumentView> {
        self.anchors@.map_values(|d: AnchoredDocument| d@)
    }

    /// The counterparty records, one list per registered document.
    pub closed spec fn records_view(self) -> Seq<Seq<CounterpartyView>> {
        self.records@.map_values(|v: Vec<Counterparty>| v@.map_values(|c: Counterparty| c@))
    }

    /// The events emitted so far, oldest first.
    pub closed spec fn events_view(self) -> Seq<EventView> {
        self.events@.map_values(|e: Event| e@)
    }

    /// A document is registered under this fingerprint.
    pub open spec fn has_anchor(self, h: Seq<u8>) -> bool {
        exists|i: int| 0 <= i < self.anchors_view().len() && self.anchors_view()[i].file_hash == h
    }

    /// Where the document registered under this fingerprint is stored.
    pub open spec fn anchor_index(self, h: Seq<u8>) -> int {
        choose|i: int| 0 <= i < self.anchors_view().len() && self.anchors_view()[i].file_hash == h
    }

    /// The document registered under this fingerprint.
    pub open spec fn anchor(self, h: Seq<u8>) -> AnchoredDocumentView {
        self.anchors_view()[self.anchor_index(h)]
    }

    /// A counterparty record exists for the pair.
    pub open spec fn has_record(self, h: Seq<u8>, a: AccountId) -> bool {
        self.has_anchor(h) && self.anchor(h).counterparties.contains(a)
    }

    /// The counterparty record of the pair.
    pub open spec fn record(self, h: Seq<u8>, a: AccountId) -> CounterpartyView {
        self.records_view()[self.anchor_index(h)][position(self.anchor(h).counterparties, a)]
    }

    /// The registry and the record store agree, and each document is consistent.
    pub open spec fn wf(self) -> bool {
        let anchors = self.anchors_view();
        let records = self.records_view();
        &&& anchors.len() == records.len()
        &&& forall|i: int| 0 <= i < anchors.len() ==> (#[trigger] anchors[i]).wf()
        &&& forall|i: int, j: int|
            0 <= i < anchors.len() && 0 <= j < anchors.len() && i != j
                ==> (#[trigger] anchors[i]).file_hash != (#[trigger] anchors[j]).file_hash
        &&& forall|i: int| 0 <= i < anchors.len() ==> !has_duplicates(#[trigger] anchors[i].counterparties)
        &&& forall|i: int| 0 <= i < anchors.len() ==> (#[trigger] records[i]).len() == anchors[i].counterparties.len()
        &&& forall|i: int, k: int|
            0 <= i < anchors.len() && 0 <= k < records[i].len() ==> (#[trigger] records[i][k]).account
                == anchors[i].counterparties[k] && records[i][k].acceptance_state
                != AcceptanceState::Empty
        &&& forall|i: int|
            0 <= i < anchors.len() ==> (#[trigger] anchors[i]).accepted_counterparties == count_state(
                records[i],
                AcceptanceState::Accepted,
            ) && anchors[i].declined_counterparties == count_state(
                records[i],
                AcceptanceState::Declined,
            )
    }

    /// `next` is this state with the document `h` and its signers' records added.
    pub open spec fn created(
        self,
        next: Pallet,
        who: AccountId,
        h: Seq<u8>,
        proposer_did: Seq<u8>,
        required_quorum: u128,
        template_id: u128,
        valid_until: u128,
        accounts: Seq<AccountId>,
        dids: Seq<Seq<u8>>,
        metadata: Seq<u8>,
    ) -> bool {
        &&& next.anchors_view() == self.anchors_view().push(
            new_document(
                h,
                who,
                proposer_did,
                required_quorum,
                template_id,
                valid_until,
                accounts,
                metadata,
            ),
        )
        &&& next.records_view() == self.records_view().push(requested_records(accounts, dids))
        &&& next.events_view() == self.events_view() + signature_requests(accounts, h).push(
            EventView::DocumentAnchored(who, h),
        )
    }

    /// `next` is this state with `who`'s answer on `h` recorded and counted.
    pub open spec fn responded(self, next: Pallet, who: AccountId, h: Seq<u8>, accept: bool) -> bool {
        let i = self.anchor_index(h);
        let k = position(self.anchor(h).counterparties, who);
        &&& next.anchors_view() == self.anchors_view().update(i, self.anchor(h).after_response(accept))
        &&& next.records_view() == self.records_view().update(
            i,
            self.records_view()[i].update(
                k,
                CounterpartyView { acceptance_state: answered(accept), ..self.record(h, who) },
            ),
        )
        &&& next.events_view() == self.events_view() + response_events(
            who,
            h,
            accept,
            self.anchor(h).transition_of(accept),
        )
    }

    /// What creating an agreement answers, from the state before the call.
    pub open spec fn create_outcome(
        self,
        h: Seq<u8>,
        required_quorum: u128,
        accounts: Seq<AccountId>,
        dids_len: int,
    ) -> Result<(), Error> {
        if accounts.len() != dids_len {
            Err(Error::LengthMismatch)
        } else if self.has_anchor(h) {
            Err(Error::AlreadyExists)
        } else if accounts.len() == 0 {
            Err(Error::EmptyCounterpartyList)
        } else if required_quorum == 0 || required_quorum > accounts.len() {
            Err(Error::InvalidQuorum)
        } else if has_duplicates(accounts) {
            Err(Error::DuplicateCounterparty)
        } else {
            Ok(())
        }
    }

    /// What a response answers, from the state before the call.
    pub open spec fn respond_outcome(self, who: AccountId, h: Seq<u8>, accept: bool) -> Result<
        StatusTransition,
        Error,
    > {
        if !self.has_anchor(h) {
            Err(Error::UnknownCounterparty)
        } else if !self.anchor(h).counterparties.contains(who) {
            Err(Error::Unauthorized)
        } else if self.record(h, who).acceptance_state != AcceptanceState::Requested {
            Err(Error::AlreadyResponded)
        } else if self.anchor(h).is_final() {
            Err(Error::DocumentFinalized)
        } else {
            Ok(self.anchor(h).transition_of(accept))
        }
    }

    /// An empty registry.
    pub fn new() -> (r: Pallet)
        ensures
            r.wf(),
            r.anchors_view() == Seq::<AnchoredDocumentView>::empty(),
            r.records_view() == Seq::<Seq<CounterpartyView>>::empty(),
            r.events_view() == Seq::<EventView>::empty(),
    {
        let r = Pallet { anchors: Vec::new(), records: Vec::new(), events: Vec::new() };
        assert(r.anchors_view() =~= Seq::<AnchoredDocumentView>::empty());
        assert(r.records_view() =~= Seq::<Seq<CounterpartyView>>::empty());
        assert(r.events_view() =~= Seq::<EventView>::empty());
        r
    }

    /// Registers a document under its fingerprint together with its signers.
    ///
    /// All or nothing: on every rejection the state is left exactly as it was.
    pub fn add_document(
        &mut self,
        who: AccountId,
        file_hash: Vec<u8>,
        proposer_did: Vec<u8>,
        required_quorum: u128,
        template_id: u128,
        valid_until: u128,
        counterparty_accounts: Vec<AccountId>,
        counterparty_dids: Vec<Vec<u8>>,
        metadata: Vec<u8>,
    ) -> (r: Result<(), Error>)
        requires
            old(self).wf(),
        ensures
            final(self).wf(),
            r == old(self).create_outcome(
                file_hash@,
                required_quorum,
                counterparty_accounts@,
                counterparty_dids@.len() as int,
            ),
            r is Err ==> *final(self) == *old(self),
            r is Ok ==> old(self).created(
                *final(self),
                who,
                file_hash@,
                proposer_did@,
                required_quorum,
                template_id,
                valid_until,
                counterparty_accounts@,
                dids_view(counterparty_dids@),
                metadata@,
            ),
    {
        let n = counterparty_accounts.len();
        if n != counterparty_dids.len() {
            return Err(Error::LengthMismatch);
        }
        if self.find_anchor(&file_hash).is_some() {
            return Err(Error::AlreadyExists);
        }
        if n == 0 {
            return Err(Error::EmptyCounterpartyList);
        }
        if required_quorum == 0 || required_quorum > n as u128 {
            return Err(Error::InvalidQuorum);
        }
        if find_duplicates(&counterparty_accounts) {
            return Err(Error::DuplicateCounterparty);
        }
        let ghost accs = counterparty_accounts@;
        let ghost dids = dids_view(counterparty_dids@);
        let mut counterparties: Vec<AccountId> = Vec::new();
        let mut recs: Vec<Counterparty> = Vec::new();
        let mut requests: Vec<Event> = Vec::new();
        let mut i: usize = 0;
        while i < n
            invariant
                n == counterparty_accounts@.len(),
                n == counterparty_dids@.len(),
                accs == counterparty_accounts@,
                dids == dids_view(counterparty_dids@),
                i <= n,
                counterparties@ == accs.subrange(0, i as int),
                recs@.map_values(|c: Counterparty| c@) == requested_records(accs, dids).subrange(
                    0,
                    i as int,
                ),
                requests@.map_values(|e: Event| e@) == signature_requests(accs, file_hash@).subrange(
                    0,
                    i as int,
                ),
            decreases n - i,
        {
            let account = counterparty_accounts[i];
            let did = copy_bytes(&counterparty_dids[i]);
            assert(dids[i as int] == did@);
            let record = Counterparty { account, did, acceptance_state: AcceptanceState::Requested };
            let request = Event::SignatureRequested(account, copy_bytes(&file_hash));
            assert(record@ == requested_records(accs, dids)[i as int]);
            assert(request@ == signature_requests(accs, file_hash@)[i as int]);
            let ghost recs_before = recs@;
            let ghost requests_before = requests@;
            counterparties.push(account);
            recs.push(record);
            requests.push(request);
            assert(recs@.map_values(|c: Counterparty| c@) =~= recs_before.map_values(
                |c: Counterparty| c@,
            ).push(record@));
            assert(requests@.map_values(|e: Event| e@) =~= requests_before.map_values(
                |e: Event| e@,
            ).push(request@));
            i = i + 1;
            assert(counterparties@ =~= accs.subrange(0, i as int));
            assert(recs@.map_values(|c: Counterparty| c@) =~= requested_records(
                accs,
                dids,
            ).subrange(0, i as int));
            assert(requests@.map_values(|e: Event| e@) =~= signature_requests(
                accs,
                file_hash@,
            ).subrange(0, i as int));
        }
        assert(counterparties@ =~= accs);
        assert(recs@.map_values(|c: Counterparty| c@) =~= requested_records(accs, dids));
        assert(requests@.map_values(|e: Event| e@) =~= signature_requests(accs, file_hash@));
        let anchored = Event::DocumentAnchored(who, copy_bytes(&file_hash));
        let document = AnchoredDocument {
            file_hash,
            proposer_account: who,
            proposer_did,
            required_quorum,
            template_id,
            metadata,
            valid_until,
            status: SmartAgreementState::PendingSignature,
            counterparties,
            accepted_counterparties: 0,
            declined_counterparties: 0,
        };
        let ghost pre = *self;
        self.anchors.push(document);
        self.records.push(recs);
        self.events.append(&mut requests);
        self.events.push(anchored);
        proof {
            assert(self.anchors_view() =~= pre.anchors_view().push(document@));
            assert(self.records_view() =~= pre.records_view().push(
                requested_records(accs, dids),
            ));
            assert(self.events_view() =~= pre.events_view() + signature_requests(
                accs,
                document.file_hash@,
            ).push(EventView::DocumentAnchored(who, document.file_hash@)));
            assert(!pre.has_anchor(document.file_hash@));
            let anchors = self.anchors_view();
            let last = anchors.len() - 1;
            assert forall|a: int, b: int|
                0 <= a < anchors.len() && 0 <= b < anchors.len() && a != b implies (
                #[trigger] anchors[a]).file_hash != (#[trigger] anchors[b]).file_hash by {
                if a == last {
                    assert(pre.anchors_view()[b] == anchors[b]);
                } else if b == last {
                    assert(pre.anchors_view()[a] == anchors[a]);
                } else {
                    assert(pre.anchors_view()[a] == anchors[a]);
                    assert(pre.anchors_view()[b] == anchors[b]);
                }
            }
            lemma_count_requested(accs, dids, AcceptanceState::Accepted);
            lemma_count_requested(accs, dids, AcceptanceState::Declined);
            let records = self.records_view();
            assert forall|a: int| 0 <= a < anchors.len() implies (#[trigger] anchors[a]).accepted_counterparties
                == count_state(records[a], AcceptanceState::Accepted)
                && anchors[a].declined_counterparties == count_state(
                records[a],
                AcceptanceState::Declined,
            ) by {
                if a != last {
                    assert(pre.anchors_view()[a] == anchors[a]);
                    assert(pre.records_view()[a] == records[a]);
                }
            }
        }
        Ok(())
    }

    /// Records `who`'s answer on the document `file_hash` and re-evaluates its status.
    ///
    /// All or nothing: on every rejection the state is left exactly as it was.
    pub fn respond_to_agreement(&mut self, who: AccountId, file_hash: Vec<u8>, accept: bool) -> (r:
        Result<StatusTransition, Error>)
        requires
            old(self).wf(),
        ensures
            final(self).wf(),
            r == old(self).respond_outcome(who, file_hash@, accept),
            r is Err ==> *final(self) == *old(self),
            r is Ok ==> old(self).responded(*final(self), who, file_hash@, accept),
    {
        let i = match self.find_anchor(&file_hash) {
            None => return Err(Error::UnknownCounterparty),
            Some(i) => i,
        };
        let k = match find_account(&self.anchors[i].counterparties, who) {
            None => return Err(Error::Unauthorized),
            Some(k) => k,
        };
        let ghost pre = *self;
        let ghost doc = self.anchors_view()[i as int];
        proof {
            assert(self.anchors_view()[i as int] == self.anchors@[i as int]@);
            self.lemma_position(file_hash@, who, k as int);
            assert(self.records_view()[i as int][k as int] == self.records@[i as int]@[k as int]@);
        }
        if self.records[i][k].acceptance_state != AcceptanceState::Requested {
            return Err(Error::AlreadyResponded);
        }
        if self.anchors[i].status != SmartAgreementState::PendingSignature {
            return Err(Error::DocumentFinalized);
        }
        let mut document = self.anchors.remove(i);
        let outcome = document.apply_response(accept);
        self.anchors.insert(i, document);
        let transition = match outcome {
            Ok(t) => t,
            Err(e) => return Err(e),
        };
        let mut recs = self.records.remove(i);
        let ghost recs_before = recs@;
        let mut record = recs.remove(k);
        record.acceptance_state = if accept {
            AcceptanceState::Accepted
        } else {
            AcceptanceState::Declined
        };
        recs.insert(k, record);
        let ghost recs_after = recs@;
        self.records.insert(i, recs);
        let ghost events_before = self.events@;
        if accept {
            self.events.push(Event::SignatureAccepted(who, copy_bytes(&file_hash)));
        } else {
            self.events.push(Event::SignatureDeclined(who, copy_bytes(&file_hash)));
        }
        match transition {
            StatusTransition::Accepted => {
                self.events.push(Event::AgreementAccepted(copy_bytes(&file_hash)));
            },
            StatusTransition::Declined => {
                self.events.push(Event::AgreementDeclined(copy_bytes(&file_hash)));
            },
            StatusTransition::NoChange => {},
        }
        proof {
            assert(self.anchors@ =~= pre.anchors@.update(i as int, document));
            assert(self.anchors_view() =~= pre.anchors_view().update(i as int, doc.after_response(accept)));
            assert(recs_after =~= recs_before.update(k as int, record));
            assert(self.records@ =~= pre.records@.update(i as int, recs));
            assert(recs@.map_values(|c: Counterparty| c@) =~= pre.records_view()[i as int].update(
                k as int,
                CounterpartyView { acceptance_state: answered(accept), ..pre.record(file_hash@, who) },
            ));
            assert(self.records_view() =~= pre.records_view().update(
                i as int,
                pre.records_view()[i as int].update(
                    k as int,
                    CounterpartyView { acceptance_state: answered(accept), ..pre.record(file_hash@, who) },
                ),
            ));
            assert(self.events_view() =~= pre.events_view() + response_events(who, file_hash@, accept, transition));
            let anchors = self.anchors_view();
            assert forall|a: int, b: int|
                0 <= a < anchors.len() && 0 <= b < anchors.len() && a != b implies (
                #[trigger] anchors[a]).file_hash != (#[trigger] anchors[b]).file_hash by {
                assert(pre.anchors_view()[a].file_hash == anchors[a].file_hash);
                assert(pre.anchors_view()[b].file_hash == anchors[b].file_hash);
            }
            assert forall|a: int| 0 <= a < anchors.len() implies (#[trigger] anchors[a]).wf() by {
                if a == i {
                    lemma_after_response_wf(doc, accept);
                } else {
                    assert(pre.anchors_view()[a] == anchors[a]);
                }
            }
            let updated = CounterpartyView { acceptance_state: answered(accept), ..pre.record(file_hash@, who) };
            lemma_count_update(pre.records_view()[i as int], k as int, updated, AcceptanceState::Accepted);
            lemma_count_update(pre.records_view()[i as int], k as int, updated, AcceptanceState::Declined);
            let records = self.records_view();
            assert forall|a: int| 0 <= a < anchors.len() implies (#[trigger] anchors[a]).accepted_counterparties
                == count_state(records[a], AcceptanceState::Accepted)
                && anchors[a].declined_counterparties == count_state(
                records[a],
                AcceptanceState::Declined,
            ) by {
                if a != i {
                    assert(pre.anchors_view()[a] == anchors[a]);
                    assert(pre.records_view()[a] == records[a]);
                }
            }
        }
        Ok(transition)
    }

    /// The document registered under `file_hash`, if any.
    pub fn get_anchor(&self, file_hash: &Vec<u8>) -> (r: Option<&AnchoredDocument>)
        requires
            self.wf(),
        ensures
            r is None <==> !self.has_anchor(file_hash@),
            r matches Some(d) ==> d@ == self.anchor(file_hash@),
    {
        match self.find_anchor(file_hash) {
            None => None,
            Some(i) => Some(&self.anchors[i]),
        }
    }

    /// The record of `account` on the document `file_hash`, if any.
    pub fn get_counterparty(&self, file_hash: &Vec<u8>, account: AccountId) -> (r: Option<&Counterparty>)
        requires
            self.wf(),
        ensures
            r is None <==> !self.has_record(file_hash@, account),
            r matches Some(c) ==> c@ == self.record(file_hash@, account),
    {
        let i = match self.find_anchor(file_hash) {
            None => return None,
            Some(i) => i,
        };
        let k = match find_account(&self.anchors[i].counterparties, account) {
            None => return None,
            Some(k) => k,
        };
        proof {
            self.lemma_position(file_hash@, account, k as int);
        }
        Some(&self.records[i][k])
    }

    /// The events emitted so far, oldest first.
    pub fn events(&self) -> (r: &Vec<Event>)
        ensures
            r@.map_values(|e: Event| e@) == self.events_view(),
    {
        &self.events
    }

    /// A listed account's chosen position is its only position, and its record is
    /// the one stored there.
    proof fn lemma_position(self, h: Seq<u8>, who: AccountId, k: int)
        requires
            self.wf(),
            self.has_anchor(h),
            0 <= k < self.anchor(h).counterparties.len(),
            self.anchor(h).counterparties[k] == who,
        ensures
            position(self.anchor(h).counterparties, who) == k,
            self.record(h, who) == self.records@[self.anchor_index(h)]@[k]@,
    {
        let i = self.anchor_index(h);
        let doc = self.anchor(h);
        let p = position(doc.counterparties, who);
        assert(!has_duplicates(self.anchors_view()[i].counterparties));
        if p != k {
            if p < k {
                assert(doc.counterparties[p] == doc.counterparties[k]);
            } else {
                assert(doc.counterparties[k] == doc.counterparties[p]);
            }
        }
        assert(self.records_view()[i][k] == self.records@[i]@[k]@);
    }

    /// Index of the document registered under `h`.
    fn find_anchor(&self, h: &Vec<u8>) -> (r: Option<usize>)
        requires
            self.wf(),
        ensures
            r is None <==> !self.has_anchor(h@),
            r matches Some(i) ==> i as int == self.anchor_index(h@) && i < self.anchors@.len()
                && self.anchors_view()[i as int].file_hash == h@,
    {
        let mut i: usize = 0;
        while i < self.anchors.len()
            invariant
                self.wf(),
                i <= self.anchors@.len(),
                forall|j: int| 0 <= j < i ==> (#[trigger] self.anchors_view()[j]).file_hash != h@,
            decreases self.anchors@.len() - i,
        {
            if bytes_eq(&self.anchors[i].file_hash, h) {
                proof {
                    self.lemma_anchor_index(h@, i as int);
                }
                return Some(i);
            }
            i = i + 1;
        }
        None
    }

    /// Every registered document is consistent.
    pub proof fn lemma_anchor_wf(self, h: Seq<u8>)
        requires
            self.wf(),
            self.has_anchor(h),
        ensures
            0 <= self.anchor_index(h) < self.anchors_view().len(),
            self.anchors_view()[self.anchor_index(h)].file_hash == h,
            self.anchor(h).wf(),
    {
    }

    /// A fingerprint found at index `i` is registered, and `i` is its chosen index.
    pub proof fn lemma_anchor_index(self, h: Seq<u8>, i: int)
        requires
            self.wf(),
            0 <= i < self.anchors_view().len(),
            self.anchors_view()[i].file_hash == h,
        ensures
            self.has_anchor(h),
            self.anchor_index(h) == i,
    {
        let j = self.anchor_index(h);
        assert(self.anchors_view()[j].file_hash == h);
    }
}

/// Index of `a` in `s`.
fn find_account(s: &Vec<AccountId>, a: AccountId) -> (r: Option<usize>)
    ensures
        r is None <==> !s@.contains(a),
        r matches Some(k) ==> k < s@.len() && s@[k as int] == a,
{
    let mut k: usize = 0;
    while k < s.len()
        invariant
            k <= s@.len(),
            forall|j: int| 0 <= j < k ==> s@[j] != a,
        decreases s@.len() - k,
    {
        if s[k] == a {
            return Some(k);
        }
        k = k + 1;
    }
    None
}

/// Whether some account is listed twice.
fn find_duplicates(s: &Vec<AccountId>) -> (r: bool)
    ensures
        r == has_duplicates(s@),
{
    let mut j: usize = 0;
    while j < s.len()
        invariant
            j <= s@.len(),
            forall|a: int, b: int| 0 <= a < b < j ==> s@[a] != s@[b],
        decreases s@.len() - j,
    {
        let mut i: usize = 0;
        while i < j
            invariant
                i <= j < s@.len(),
                forall|a: int| 0 <= a < i ==> s@[a] != s@[j as int],
            decreases j - i,
        {
            if s[i] == s[j] {
                return true;
            }
            i = i + 1;
        }
        j = j + 1;
    }
    false
}

} // verus!
