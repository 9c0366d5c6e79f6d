//! A per-owner, chunk-appendable binary object store.
//!
//! Callers create named file objects, append bytes to them, truncate or
//! delete them, and list or fetch the objects they own. Every operation is
//! checked against the identity of the caller, and the per-owner index is
//! kept consistent with the object table.

pub mod index;
pub mod model;
pub mod principal;
pub mod store;
pub mod types;

pub use index::OwnerIndex;
pub use principal::{bytes_equal, not_anonymous, Identity};
pub use store::{get_id, is_owner, FileStore};
pub use types::{ICPFile, ICPFileError, ICPFileStat};
