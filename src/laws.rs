use vstd::prelude::*;
use crate::pallet::{answered, count_state, position, requested_records, Pallet};
use crate::registry::lemma_after_response_wf;
use crate::types::{AccountId, AcceptanceState, Error, SmartAgreementState};

verus! {

/// After a successful creation every listed signer, and no one else, has a record
/// on the new document, each record is `Requested`, and both counters are zero.
pub proof fn lemma_creation_requests_every_signer(
    before: Pallet,
    after: Pallet,
    who: AccountId,
    h: Seq<u8>,
    proposer_did: Seq<u8>,
    required_quorum: u128,
    template_id: u128,
    valid_until: u128,
    accounts: Seq<AccountId>,
    dids: Seq<Seq<u8>>,
    metadata: Seq<u8>,
)
    requires
        before.wf(),
        after.wf(),
        before.create_outcome(h, required_quorum, accounts, dids.len() as int) is Ok,
        before.created(
            after,
            who,
            h,
            proposer_did,
            required_quorum,
            template_id,
            valid_until,
            accounts,
            dids,
            metadata,
        ),
    ensures
        after.has_anchor(h),
        after.anchor(h).accepted_counterparties == 0,
        after.anchor(h).declined_counterparties == 0,
        after.records_view()[after.anchor_index(h)].len() == accounts.len(),
        forall|a: AccountId| after.has_record(h, a) <==> accounts.contains(a),
        forall|a: AccountId|
            accounts.contains(a) ==> (#[trigger] after.record(h, a)).acceptance_state
                == AcceptanceState::Requested,
{
    let last = before.anchors_view().len() as int;
    assert(after.anchors_view()[last].file_hash == h);
    after.lemma_anchor_index(h, last);
    assert forall|a: AccountId| accounts.contains(a) implies (#[trigger] after.record(
        h,
        a,
    )).acceptance_state == AcceptanceState::Requested by {
        let k = position(accounts, a);
        assert(0 <= k < accounts.len() && accounts[k] == a);
        assert(after.records_view()[last] == requested_records(accounts, dids));
    }
}

/// In every consistent state, each document's counters are the numbers of its
/// signers that accepted and declined, and together never exceed its signers.
pub proof fn lemma_counters_bounded(p: Pallet, h: Seq<u8>)
    requires
        p.wf(),
        p.has_anchor(h),
    ensures
        p.anchor(h).accepted_counterparties == count_state(
            p.records_view()[p.anchor_index(h)],
            AcceptanceState::Accepted,
        ),
        p.anchor(h).declined_counterparties == count_state(
            p.records_view()[p.anchor_index(h)],
            AcceptanceState::Declined,
        ),
        p.anchor(h).accepted_counterparties + p.anchor(h).declined_counterparties
            <= p.anchor(h).counterparties.len(),
{
    p.lemma_anchor_wf(h);
}

/// A response to a finalized document is rejected, and a signer that has not yet
/// answered is told that the document is final.
pub proof fn lemma_finalized_rejects_responses(p: Pallet, who: AccountId, h: Seq<u8>, accept: bool)
    requires
        p.wf(),
        p.has_anchor(h),
        p.anchor(h).is_final(),
    ensures
        p.respond_outcome(who, h, accept) is Err,
        p.has_record(h, who) && p.record(h, who).acceptance_state == AcceptanceState::Requested
            ==> p.respond_outcome(who, h, accept) == Err::<crate::types::StatusTransition, Error>(
            Error::DocumentFinalized,
        ),
{
}

/// A successful response leaves the status of every finalized document as it was.
pub proof fn lemma_response_keeps_final_status(
    before: Pallet,
    after: Pallet,
    who: AccountId,
    h: Seq<u8>,
    accept: bool,
    g: Seq<u8>,
)
    requires
        before.wf(),
        after.wf(),
        before.respond_outcome(who, h, accept) is Ok,
        before.responded(after, who, h, accept),
        before.has_anchor(g),
        before.anchor(g).is_final(),
    ensures
        after.has_anchor(g),
        after.anchor(g).status == before.anchor(g).status,
{
    let i = before.anchor_index(g);
    let j = before.anchor_index(h);
    assert(i != j);
    assert(after.anchors_view()[i] == before.anchors_view()[i]);
    after.lemma_anchor_index(g, i);
}

/// A successful creation leaves every registered document as it was.
pub proof fn lemma_creation_keeps_documents(
    before: Pallet,
    after: Pallet,
    who: AccountId,
    h: Seq<u8>,
    proposer_did: Seq<u8>,
    required_quorum: u128,
    template_id: u128,
    valid_until: u128,
    accounts: Seq<AccountId>,
    dids: Seq<Seq<u8>>,
    metadata: Seq<u8>,
    g: Seq<u8>,
)
    requires
        before.wf(),
        after.wf(),
        before.create_outcome(h, required_quorum, accounts, dids.len() as int) is Ok,
        before.created(
            after,
            who,
            h,
            proposer_did,
            required_quorum,
            template_id,
            valid_until,
            accounts,
            dids,
            metadata,
        ),
        before.has_anchor(g),
    ensures
        after.has_anchor(g),
        after.anchor(g) == before.anchor(g),
{
    let i = before.anchor_index(g);
    assert(after.anchors_view()[i] == before.anchors_view()[i]);
    after.lemma_anchor_index(g, i);
}

/// Once enough signers have accepted, the document is `Accepted`, in every
/// consistent state.
pub proof fn lemma_quorum_means_accepted(p: Pallet, h: Seq<u8>)
    requires
        p.wf(),
        p.has_anchor(h),
        p.anchor(h).quorum_reached(),
    ensures
        p.anchor(h).status == SmartAgreementState::Accepted,
{
    p.lemma_anchor_wf(h);
}

/// After a signer's answer has been recorded, a second answer from that signer is
/// rejected as already given.
pub proof fn lemma_second_response_rejected(
    before: Pallet,
    after: Pallet,
    who: AccountId,
    h: Seq<u8>,
    first: bool,
    second: bool,
)
    requires
        before.wf(),
        after.wf(),
        before.respond_outcome(who, h, first) is Ok,
        before.responded(after, who, h, first),
    ensures
        after.respond_outcome(who, h, second) == Err::<crate::types::StatusTransition, Error>(
            Error::AlreadyResponded,
        ),
{
    let i = before.anchor_index(h);
    let doc = before.anchor(h);
    lemma_after_response_wf(doc, first);
    assert(after.anchors_view()[i] == doc.after_response(first));
    after.lemma_anchor_index(h, i);
    assert(after.anchor(h).counterparties == doc.counterparties);
    let k = position(doc.counterparties, who);
    assert(after.records_view()[i][k].acceptance_state == answered(first));
}

} // verus!
