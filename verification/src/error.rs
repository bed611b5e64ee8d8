//! Why an escrow operation was rejected.

use vstd::prelude::*;

verus! {

/// The reason an operation was rejected. A rejected operation changes nothing.
#[derive(Clone, Copy, Debug, PartialEq, Eq, Structural)]
pub enum CustomError {
    /// The caller is not the party that the transition belongs to.
    Unauthorized,
    /// A record is already open at the address where one was to be created.
    AlreadyExists,
    /// No record is open at the address: it never was, or it has been settled.
    NotFound,
    /// The initializer's balance does not cover the amount to deposit.
    InsufficientFunds,
}

} // verus!
