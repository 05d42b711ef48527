//! Synchronisation core for personal reservations: a canonical event model,
//! an idempotent local store, reconciliation against a remote calendar, and a
//! password-sealed credential vault.
pub mod event;
pub mod store;
pub mod remote;
pub mod vault;
pub mod user;
pub mod sync;
pub mod login;
