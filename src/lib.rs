pub mod laws;
pub mod pallet;
pub mod registry;
pub mod types;

pub use pallet::Pallet;
pub use types::{
    AccountId, AcceptanceState, AnchoredDocument, AnchoredDocumentView, Counterparty,
    CounterpartyView, Error, Event, EventView, SmartAgreementState, StatusTransition,
};
