//! A ledger of experience points with tiered voting power.
//!
//! The crate keeps three records: the set of managers who may change the
//! ledger, the balance of every member, and an ordered table of tiers that
//! turns a balance into a voting weight. Every operation is a total function
//! on that state; a caller who lacks the required authority gets an error and
//! the state stays as it was.

pub mod digits;
pub mod biguint;
pub mod identity;
pub mod error;
pub mod registry;
pub mod tiers;
pub mod ledger;
pub mod contract;

pub use biguint::BigUint;
pub use contract::{ContractView, ExperienceContract};
pub use error::AuthorizationError;
pub use identity::Identity;
pub use ledger::MemberLedger;
pub use registry::AuthorizationRegistry;
pub use tiers::{Tier, TierTable, TierView};
