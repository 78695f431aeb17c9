//! An access-controlled store of medical records.
//!
//! Each record carries its own access list, which maps a principal to one of
//! three levels. Every read, update and change of the list is checked against
//! the caller's entry. The store also keeps, for each principal, the list of
//! records that principal created.

mod access;
pub mod laws;
mod record;
mod store;
mod principal;

pub use access::{AccessLevel, AccessList, Action};
pub use principal::Principal;
pub use record::{new_record_view, MedicalRecord, RecordView};
pub use store::{later, resolve, Call, RecordStore, StoreView};
