use vstd::prelude::*;
use crate::types::{AnchoredDocument, AnchoredDocumentView, Error, SmartAgreementState, StatusTransition};

verus! {

impl AnchoredDocumentView {
    /// Number of required signers.
    pub open spec fn total(self) -> int {
        self.counterparties.len() as int
    }

    /// Enough signers have accepted.
    pub open spec fn quorum_reached(self) -> bool {
        self.accepted_counterparties >= self.required_quorum
    }

    /// So many signers have declined that the quorum can no longer be met.
    pub open spec fn quorum_unreachable(self) -> bool {
        self.declined_counterparties > self.total() - self.required_quorum
    }

    /// The document holds a final answer.
    pub open spec fn is_final(self) -> bool {
        self.status != SmartAgreementState::PendingSignature
    }

    /// Consistency of the configuration, the counters and the status.
    pub open spec fn wf(self) -> bool {
        &&& 1 <= self.required_quorum <= self.total() <= usize::MAX
        &&& self.accepted_counterparties + self.declined_counterparties <= self.total()
        &&& self.status == SmartAgreementState::PendingSignature ==> !self.quorum_reached()
            && !self.quorum_unreachable()
        &&& self.status == SmartAgreementState::Accepted ==> self.quorum_reached()
            && !self.quorum_unreachable()
        &&& self.status == SmartAgreementState::Declined ==> self.quorum_unreachable()
            && !self.quorum_reached()
    }

    /// The document after one more response, counted and re-evaluated.
    pub open spec fn after_response(self, accepted: bool) -> AnchoredDocumentView {
        let counted = if accepted {
            AnchoredDocumentView {
                accepted_counterparties: (self.accepted_counterparties + 1) as u128,
                ..self
            }
        } else {
            AnchoredDocumentView {
                declined_counterparties: (self.declined_counterparties + 1) as u128,
                ..self
            }
        };
        if counted.quorum_reached() {
            AnchoredDocumentView { status: SmartAgreementState::Accepted, ..counted }
        } else if counted.quorum_unreachable() {
            AnchoredDocumentView { status: SmartAgreementState::Declined, ..counted }
        } else {
            counted
        }
    }

    /// The transition that `after_response` makes.
    pub open spec fn transition_of(self, accepted: bool) -> StatusTransition {
        let next = self.after_response(accepted);
        if next.status == SmartAgreementState::Accepted {
            StatusTransition::Accepted
        } else if next.status == SmartAgreementState::Declined {
            StatusTransition::Declined
        } else {
            StatusTransition::NoChange
        }
    }
}

/// Counting a response on a pending, consistent document keeps it consistent.
pub proof fn lemma_after_response_wf(d: AnchoredDocumentView, accepted: bool)
    requires
        d.wf(),
        !d.is_final(),
    ensures
        d.after_response(accepted).wf(),
        d.after_response(accepted).accepted_counterparties + d.after_response(
            accepted,
        ).declined_counterparties == d.accepted_counterparties + d.declined_counterparties + 1,
{
}

impl AnchoredDocument {
    /// Counts one response and decides whether the agreement is now final.
    pub fn apply_response(&mut self, accepted: bool) -> (r: Result<StatusTransition, Error>)
        requires
            old(self)@.wf(),
        ensures
            final(self)@.wf(),
            old(self)@.is_final() ==> r == Err::<StatusTransition, Error>(Error::DocumentFinalized)
                && final(self)@ == old(self)@,
            !old(self)@.is_final() ==> r == Ok::<StatusTransition, Error>(
                old(self)@.transition_of(accepted),
            ) && final(self)@ == old(self)@.after_response(accepted),
    {
        if self.status != SmartAgreementState::PendingSignature {
            return Err(Error::DocumentFinalized);
        }
        proof {
            lemma_after_response_wf(self@, accepted);
        }
        if accepted {
            self.accepted_counterparties = self.accepted_counterparties + 1;
        } else {
            self.declined_counterparties = self.declined_counterparties + 1;
        }
        let total = self.counterparties.len() as u128;
        if self.accepted_counterparties >= self.required_quorum {
            self.status = SmartAgreementState::Accepted;
            Ok(StatusTransition::Accepted)
        } else if self.declined_counterparties > total - self.required_quorum {
            self.status = SmartAgreementState::Declined;
            Ok(StatusTransition::Declined)
        } else {
            Ok(StatusTransition::NoChange)
        }
    }
}

} // verus!
