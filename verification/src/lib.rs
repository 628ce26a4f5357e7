//! A metadata registry for encrypted backups.
//!
//! The registry records, per backup, an owner identity, a pointer to an
//! off-store manifest, an optional pointer to access-control material, and a
//! set of per-recipient share grants.  Only the owner of a record can mutate
//! it, every mutation is atomic (a failed call leaves the state untouched),
//! and deletion is a soft flag flip that never removes data.
//!
//! The execution context around the registry supplies the caller identity and
//! the timestamp of each call; both enter every operation as plain arguments.

pub mod account;
pub mod events;
pub mod laws;
pub mod registry;
pub mod vault;
