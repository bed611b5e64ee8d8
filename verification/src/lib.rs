//! A two-party escrow: an initializer deposits a fixed amount for a taker, who
//! may claim it unless the initializer reclaims it first. Every escrow is
//! settled exactly once, and only by the party entitled to the transition.
//!
//! The [`ledger`] holds the balances and the open records; the [`machine`]
//! holds the three operations on it; [`laws`] states what holds of them.

pub mod address;
pub mod derivation;
pub mod error;
pub mod escrow;
pub mod laws;
pub mod ledger;
pub mod machine;
pub mod sum;
pub mod table;

pub use address::Address;
pub use derivation::{escrow_address, id, ESCROW_SEED, ID};
pub use error::CustomError;
pub use escrow::Escrow;
pub use ledger::Ledger;
pub use machine::{
    cancel, initialize, initialize_at, try_initialize, withdraw, Cancel, Initialize, Withdraw,
};
