//! The escrow state machine: an escrow is opened by `initialize` and settled
//! exactly once, by the taker's `withdraw` or by the initializer's `cancel`.

use vstd::prelude::*;
use crate::address::Address;
use crate::derivation::{derived_escrow_address, escrow_address};
use crate::error::CustomError;
use crate::escrow::Escrow;
use crate::ledger::{Ledger, LedgerView};

verus! {

/// A request to open an escrow.
#[derive(Clone, Copy, Debug)]
pub struct Initialize {
    /// The party named as the one that deposits.
    pub initializer: Address,
    /// The authenticated party that makes the request.
    pub signer: Address,
}

/// A request to claim an escrow for its taker.
#[derive(Clone, Copy, Debug)]
pub struct Withdraw {
    /// Where the record to settle is stored.
    pub escrow_account: Address,
    /// The authenticated party that makes the request.
    pub taker: Address,
}

/// A request to return an escrow to its initializer.
#[derive(Clone, Copy, Debug)]
pub struct Cancel {
    /// Where the record to settle is stored.
    pub escrow_account: Address,
    /// The authenticated party that makes the request.
    pub initializer: Address,
}

/// The ledger after a request to open an escrow at `at`, and the answer to it.
///
/// The request is rejected, in this order, where the signer is not the
/// initializer it names, where a record is already open at `at`, and where the
/// initializer owns less than `amount`. Otherwise the record is opened and
/// `amount` moves from the initializer's balance into it.
pub open spec fn initialize_step(
    s: LedgerView,
    at: Address,
    context: Initialize,
    taker: Address,
    amount: u64,
) -> (LedgerView, Result<Escrow, CustomError>) {
    let record = Escrow { initializer: context.initializer, taker, amount };
    if context.signer != context.initializer {
        (s, Err(CustomError::Unauthorized))
    } else {
        match s.may_create(at, record) {
            Ok(_) => (s.create(at, record), Ok(record)),
            Err(e) => (s, Err(e)),
        }
    }
}

/// The ledger after a request to withdraw, and the answer to it.
///
/// The request is rejected where no record is open at the address, and else
/// where the caller is not the record's taker. Otherwise the record is
/// destroyed and what it held is paid to the taker.
pub open spec fn withdraw_step(s: LedgerView, context: Withdraw) -> (
    LedgerView,
    Result<Escrow, CustomError>,
) {
    match s.escrow(context.escrow_account) {
        None => (s, Err(CustomError::NotFound)),
        Some(record) => if record.may_withdraw(context.taker) {
            (s.close(context.escrow_account, record.taker), Ok(record))
        } else {
            (s, Err(CustomError::Unauthorized))
        },
    }
}

/// The ledger after a request to cancel, and the answer to it.
///
/// The request is rejected where no record is open at the address, and else
/// where the caller is not the record's initializer. Otherwise the record is
/// destroyed and what it held is paid back to the initializer.
pub open spec fn cancel_step(s: LedgerView, context: Cancel) -> (
    LedgerView,
    Result<Escrow, CustomError>,
) {
    match s.escrow(context.escrow_account) {
        None => (s, Err(CustomError::NotFound)),
        Some(record) => if record.may_cancel(context.initializer) {
            (s.close(context.escrow_account, record.initializer), Ok(record))
        } else {
            (s, Err(CustomError::Unauthorized))
        },
    }
}

/// Returns the escrowed value to the initializer and destroys the record.
///
/// Succeeds, with the settled record, if and only if a record is open at the
/// address and the caller is its initializer. A rejected request changes
/// nothing.
pub fn cancel(ledger: &mut Ledger, context: &Cancel) -> (r: Result<Escrow, CustomError>)
    requires
        old(ledger).wf(),
    ensures
        final(ledger).wf(),
        (final(ledger)@, r) == cancel_step(old(ledger)@, *context),
        r is Ok <==> (old(ledger)@.escrow(context.escrow_account) matches Some(record)
            && context.initializer == record.initializer),
        r is Err ==> final(ledger)@ == old(ledger)@,
{
    let record = match ledger.escrow(&context.escrow_account) {
        Some(record) => record,
        None => {
            return Err(CustomError::NotFound);
        },
    };
    match record.authorize_cancel(&context.initializer) {
        Ok(_) => ledger.close(&context.escrow_account, &record.initializer),
        Err(e) => Err(e),
    }
}

/// Opens an escrow at the address `at`: `amount` moves from the initializer's
/// balance into a new record for `taker`.
///
/// Succeeds, with the new record, if and only if the signer is the
/// initializer, no record is open at `at` and the initializer owns at least
/// `amount`. A rejected request changes nothing.
pub fn initialize_at(
    ledger: &mut Ledger,
    at: Address,
    context: &Initialize,
    taker: Address,
    amount: u64,
) -> (r: Result<Escrow, CustomError>)
    requires
        old(ledger).wf(),
    ensures
        final(ledger).wf(),
        (final(ledger)@, r) == initialize_step(old(ledger)@, at, *context, taker, amount),
        r is Ok <==> (context.signer == context.initializer && old(ledger)@.escrow(at) is None
            && old(ledger)@.balance(context.initializer) >= amount),
        r is Err ==> final(ledger)@ == old(ledger)@,
{
    if context.signer != context.initializer {
        return Err(CustomError::Unauthorized);
    }
    let record = Escrow { initializer: context.initializer, taker, amount };
    match ledger.create(at, record) {
        Ok(_) => Ok(record),
        Err(e) => Err(e),
    }
}

/// Opens an escrow at the address derived from the initializer's:
/// `initialize_at` that address. An initializer can therefore have one escrow
/// open at a time.
pub fn initialize(ledger: &mut Ledger, context: &Initialize, taker: Address, amount: u64) -> (r:
    Result<Escrow, CustomError>)
    requires
        old(ledger).wf(),
        derived_escrow_address(context.initializer) is Some,
    ensures
        final(ledger).wf(),
        (final(ledger)@, r) == initialize_step(
            old(ledger)@,
            derived_escrow_address(context.initializer).unwrap(),
            *context,
            taker,
            amount,
        ),
        r is Err ==> final(ledger)@ == old(ledger)@,
{
    let at = escrow_address(&context.initializer).unwrap();
    initialize_at(ledger, at, context, taker, amount)
}

/// Opens an escrow as `initialize` does, wherever an address can be derived
/// from the initializer's. Where none can, returns `None` and changes nothing.
pub fn try_initialize(ledger: &mut Ledger, context: &Initialize, taker: Address, amount: u64) -> (r:
    Option<Result<Escrow, CustomError>>)
    requires
        old(ledger).wf(),
    ensures
        final(ledger).wf(),
        match derived_escrow_address(context.initializer) {
            Some(at) => r matches Some(answer) && (final(ledger)@, answer) == initialize_step(
                old(ledger)@,
                at,
                *context,
                taker,
                amount,
            ),
            None => r is None && final(ledger)@ == old(ledger)@,
        },
{
    if escrow_address(&context.initializer).is_some() {
        Some(initialize(ledger, context, taker, amount))
    } else {
        None
    }
}

/// Pays the escrowed value to the taker and destroys the record.
///
/// Succeeds, with the settled record, if and only if a record is open at the
/// address and the caller is its taker. A rejected request changes nothing.
pub fn withdraw(ledger: &mut Ledger, context: &Withdraw) -> (r: Result<Escrow, CustomError>)
    requires
        old(ledger).wf(),
    ensures
        final(ledger).wf(),
        (final(ledger)@, r) == withdraw_step(old(ledger)@, *context),
        r is Ok <==> (old(ledger)@.escrow(context.escrow_account) matches Some(record)
            && context.taker == record.taker),
        r is Err ==> final(ledger)@ == old(ledger)@,
{
    let record = match ledger.escrow(&context.escrow_account) {
        Some(record) => record,
        None => {
            return Err(CustomError::NotFound);
        },
    };
    match record.authorize_withdraw(&context.taker) {
        Ok(_) => ledger.close(&context.escrow_account, &record.taker),
        Err(e) => Err(e),
    }
}

} // verus!
