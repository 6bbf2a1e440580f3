//! An in-memory store of tasks and users, with the validation that turns a
//! persisted snapshot back into a store.

pub mod laws;
pub mod record;
pub mod snapshot;
pub mod store;

pub use record::{Task, User};
pub use snapshot::{Snapshot, SnapshotError};
pub use store::DB;
