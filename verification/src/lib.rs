//! A minimal keyed-record store addressed by deterministically derived
//! addresses.
//!
//! Each record (a `Ledger`) is owned by a `(owner identity, color)` pair.
//! The record's storage address is not chosen at random: it is re-derived on
//! every access from the owner's identity bytes, a namespace separator, and
//! the caller-supplied `color` key, through the host's program-derived-address
//! primitive. Two state transitions govern a record's lifecycle:
//! `create_ledger` (first write; the slot must be absent) and
//! `modify_ledger` (overwrite of the balance; the slot must be present).
//!
//! The host that allocates and persists slots is modeled by `SlotStore`, an
//! in-memory slot map that enforces the same occupied-versus-free semantics
//! as the real allocation primitive.

mod addr;
mod error;
mod ledger;
mod store;

pub use addr::derive_address;
pub use addr::lemma_derive_deterministic;
pub use addr::record_size;
pub use addr::spec_derive;
pub use addr::ALLOCATION_BUDGET;
pub use addr::BALANCE_LEN;
pub use addr::DISCRIMINATOR_LEN;
pub use addr::LEN_PREFIX_LEN;
pub use addr::MAX_COLOR_LEN;
pub use addr::SEPARATOR_BYTE;
pub use addr::pda_of;
pub use error::LedgerError;
pub use ledger::create_ledger;
pub use ledger::lemma_create_key_too_long;
pub use ledger::lemma_create_then_create;
pub use ledger::lemma_modify_absent;
pub use ledger::lemma_modify_address_mismatch;
pub use ledger::modify_ledger;
pub use ledger::spec_create;
pub use ledger::spec_modify;
pub use ledger::CreateLedger;
pub use ledger::ModifyLedger;
pub use store::ledger_model;
pub use store::Ledger;
pub use store::LedgerModel;
pub use store::SlotStore;
