//! A commit-reveal name-registration engine.
//!
//! Accounts register human-readable names through a two-phase protocol: a
//! hashed commitment hides the name until it is revealed, which prevents
//! front-running. Registrations carry tiered, time-scoped fees, separate
//! owner and controller roles, renewal, transfer, resolver records and
//! hierarchical subnodes, all backed by deposits that are reserved on a
//! ledger and released when the corresponding entry is removed.

pub mod assets;
pub mod commit_reveal;
pub mod fungibles;
pub mod hashing;
pub mod laws;
pub mod ledger;
pub mod pallet;
pub mod registrar;
pub mod resolver;
pub mod store;
pub mod subnodes;
pub mod types;

pub use pallet::Pallet;
pub use types::{Commitment, Config, Error, Event, Registration};
