//! What holds of every ledger and of every sequence of requests made on it.

use vstd::prelude::*;
use crate::address::Address;
use crate::error::CustomError;
use crate::escrow::Escrow;
use crate::ledger::{lemma_close_total, lemma_create_total, LedgerView};
use crate::machine::{cancel_step, initialize_step, withdraw_step, Cancel, Initialize, Withdraw};

verus! {

/// One request to the escrow state machine.
pub enum Call {
    /// Open an escrow at `at`.
    Initialize { at: Address, context: Initialize, taker: Address, amount: u64 },
    /// Claim an escrow for its taker.
    Withdraw(Withdraw),
    /// Return an escrow to its initializer.
    Cancel(Cancel),
}

impl Call {
    /// The ledger after the request, and the answer to it.
    pub open spec fn step(self, s: LedgerView) -> (LedgerView, Result<Escrow, CustomError>) {
        match self {
            Call::Initialize { at, context, taker, amount } => initialize_step(
                s,
                at,
                context,
                taker,
                amount,
            ),
            Call::Withdraw(context) => withdraw_step(s, context),
            Call::Cancel(context) => cancel_step(s, context),
        }
    }

    /// The request asks to open an escrow at `at`.
    pub open spec fn opens_at(self, at: Address) -> bool {
        self matches Call::Initialize { at: place, .. } && place == at
    }

    /// The request asks to settle the escrow at `at`, one way or the other.
    pub open spec fn settles_at(self, at: Address) -> bool {
        match self {
            Call::Initialize { .. } => false,
            Call::Withdraw(context) => context.escrow_account == at,
            Call::Cancel(context) => context.escrow_account == at,
        }
    }
}

/// The ledger after the requests `calls` have been made on `s`, one after another.
pub open spec fn run(s: LedgerView, calls: Seq<Call>) -> LedgerView
    decreases calls.len(),
{
    if calls.len() == 0 {
        s
    } else {
        calls.last().step(run(s, calls.drop_last())).0
    }
}

/// The answer to the request `calls[i]`, made after the requests before it.
pub open spec fn answer(s: LedgerView, calls: Seq<Call>, i: int) -> Result<Escrow, CustomError> {
    calls[i].step(run(s, calls.take(i))).1
}

/// A withdrawal succeeds if and only if the caller is the taker of the open
/// record. Any other caller is told `Unauthorized`, and nothing changes.
pub proof fn lemma_only_taker_withdraws(s: LedgerView, context: Withdraw)
    requires
        s.escrow(context.escrow_account) is Some,
    ensures
        withdraw_step(s, context).1 is Ok <==> context.taker == s.escrows[context.escrow_account].taker,
        context.taker != s.escrows[context.escrow_account].taker ==> withdraw_step(s, context) == (
            s,
            Err::<Escrow, CustomError>(CustomError::Unauthorized),
        ),
{
}

/// A cancellation succeeds if and only if the caller is the initializer of the
/// open record. Any other caller is told `Unauthorized`, and nothing changes.
pub proof fn lemma_only_initializer_cancels(s: LedgerView, context: Cancel)
    requires
        s.escrow(context.escrow_account) is Some,
    ensures
        cancel_step(s, context).1 is Ok <==> context.initializer
            == s.escrows[context.escrow_account].initializer,
        context.initializer != s.escrows[context.escrow_account].initializer ==> cancel_step(
            s,
            context,
        ) == (s, Err::<Escrow, CustomError>(CustomError::Unauthorized)),
{
}

/// Opening an escrow is all or nothing. Where it succeeds, the record is open
/// at `at` as requested, the initializer has paid exactly `amount`, and nothing
/// else has changed. Where it fails, nothing has changed at all.
pub proof fn lemma_initialize_atomic(
    s: LedgerView,
    at: Address,
    context: Initialize,
    taker: Address,
    amount: u64,
)
    requires
        s.finite(),
    ensures
        ({
            let (after, r) = initialize_step(s, at, context, taker, amount);
            let record = Escrow { initializer: context.initializer, taker, amount };
            &&& r is Ok ==> {
                &&& r == Ok::<Escrow, CustomError>(record)
                &&& after.escrow(at) == Some(record)
                &&& after.balance(context.initializer) + amount == s.balance(context.initializer)
                &&& forall|party: Address|
                    party != context.initializer ==> after.balance(party) == s.balance(party)
                &&& forall|place: Address| place != at ==> after.escrow(place) == s.escrow(place)
                &&& after.total() == s.total()
            }
            &&& r is Err ==> after == s
        }),
{
    let (after, r) = initialize_step(s, at, context, taker, amount);
    if r is Ok {
        lemma_create_total(s, at, Escrow { initializer: context.initializer, taker, amount });
    }
}

/// A successful withdrawal pays exactly the escrowed amount to the taker and
/// to nobody else, destroys the record, and leaves the total as it was.
pub proof fn lemma_withdraw_pays_taker(s: LedgerView, context: Withdraw)
    requires
        s.finite(),
        withdraw_step(s, context).1 is Ok,
    ensures
        ({
            let after = withdraw_step(s, context).0;
            let record = s.escrows[context.escrow_account];
            &&& after.balance(record.taker) == s.balance(record.taker) + record.amount
            &&& forall|party: Address|
                party != record.taker ==> after.balance(party) == s.balance(party)
            &&& after.escrow(context.escrow_account) is None
            &&& forall|place: Address|
                place != context.escrow_account ==> after.escrow(place) == s.escrow(place)
            &&& after.total() == s.total()
        }),
{
    lemma_close_total(s, context.escrow_account, s.escrows[context.escrow_account].taker);
}

/// A successful cancellation pays exactly the escrowed amount back to the
/// initializer and to nobody else, destroys the record, and leaves the total
/// as it was.
pub proof fn lemma_cancel_repays_initializer(s: LedgerView, context: Cancel)
    requires
        s.finite(),
        cancel_step(s, context).1 is Ok,
    ensures
        ({
            let after = cancel_step(s, context).0;
            let record = s.escrows[context.escrow_account];
            &&& after.balance(record.initializer) == s.balance(record.initializer) + record.amount
            &&& forall|party: Address|
                party != record.initializer ==> after.balance(party) == s.balance(party)
            &&& after.escrow(context.escrow_account) is None
            &&& forall|place: Address|
                place != context.escrow_account ==> after.escrow(place) == s.escrow(place)
            &&& after.total() == s.total()
        }),
{
    lemma_close_total(s, context.escrow_account, s.escrows[context.escrow_account].initializer);
}

/// An escrow that was opened with `amount` and is then withdrawn by its taker
/// raises the taker's balance by exactly `amount`; the record is gone and the
/// total is what it was before the escrow was opened.
pub proof fn lemma_initialize_then_withdraw(
    s: LedgerView,
    at: Address,
    context: Initialize,
    taker: Address,
    amount: u64,
)
    requires
        s.finite(),
        initialize_step(s, at, context, taker, amount).1 is Ok,
    ensures
        ({
            let opened = initialize_step(s, at, context, taker, amount).0;
            let (settled, r) = withdraw_step(opened, Withdraw { escrow_account: at, taker });
            &&& r is Ok
            &&& settled.balance(taker) == opened.balance(taker) + amount
            &&& settled.escrow(at) is None
            &&& settled.total() == s.total()
            &&& taker != context.initializer ==> {
                &&& settled.balance(taker) == s.balance(taker) + amount
                &&& settled.balance(context.initializer) + amount == s.balance(
                    context.initializer,
                )
            }
        }),
{
    lemma_initialize_atomic(s, at, context, taker, amount);
    let opened = initialize_step(s, at, context, taker, amount).0;
    lemma_withdraw_pays_taker(opened, Withdraw { escrow_account: at, taker });
}

/// An escrow that was opened with `amount` and is then cancelled by its
/// initializer raises the initializer's balance by exactly `amount`: every
/// balance and the total are what they were before the escrow was opened, and
/// the record is gone.
pub proof fn lemma_initialize_then_cancel(
    s: LedgerView,
    at: Address,
    context: Initialize,
    taker: Address,
    amount: u64,
)
    requires
        s.finite(),
        initialize_step(s, at, context, taker, amount).1 is Ok,
    ensures
        ({
            let opened = initialize_step(s, at, context, taker, amount).0;
            let (settled, r) = cancel_step(
                opened,
                Cancel { escrow_account: at, initializer: context.initializer },
            );
            &&& r is Ok
            &&& settled.balance(context.initializer) == opened.balance(context.initializer)
                + amount
            &&& forall|party: Address| settled.balance(party) == s.balance(party)
            &&& settled.escrow(at) is None
            &&& settled.total() == s.total()
        }),
{
    lemma_initialize_atomic(s, at, context, taker, amount);
    let opened = initialize_step(s, at, context, taker, amount).0;
    lemma_cancel_repays_initializer(
        opened,
        Cancel { escrow_account: at, initializer: context.initializer },
    );
}

/// While an escrow is open at an address, no second one can be opened there.
pub proof fn lemma_one_escrow_per_address(
    s: LedgerView,
    at: Address,
    first: Initialize,
    first_taker: Address,
    first_amount: u64,
    second: Initialize,
    second_taker: Address,
    second_amount: u64,
)
    requires
        initialize_step(s, at, first, first_taker, first_amount).1 is Ok,
        second.signer == second.initializer,
    ensures
        ({
            let opened = initialize_step(s, at, first, first_taker, first_amount).0;
            initialize_step(opened, at, second, second_taker, second_amount) == (
                opened,
                Err::<Escrow, CustomError>(CustomError::AlreadyExists),
            )
        }),
{
}

/// The same withdrawal made twice in a row never succeeds twice: where the
/// first succeeds the second is told `NotFound`, and where the first fails the
/// second fails in the same way.
pub proof fn lemma_withdraw_twice(s: LedgerView, context: Withdraw)
    ensures
        ({
            let (once, first) = withdraw_step(s, context);
            let (twice, second) = withdraw_step(once, context);
            &&& first is Ok ==> second == Err::<Escrow, CustomError>(CustomError::NotFound)
            &&& first is Err ==> second == first
            &&& twice == once
        }),
{
}

/// The same cancellation made twice in a row never succeeds twice: where the
/// first succeeds the second is told `NotFound`, and where the first fails the
/// second fails in the same way.
pub proof fn lemma_cancel_twice(s: LedgerView, context: Cancel)
    ensures
        ({
            let (once, first) = cancel_step(s, context);
            let (twice, second) = cancel_step(once, context);
            &&& first is Ok ==> second == Err::<Escrow, CustomError>(CustomError::NotFound)
            &&& first is Err ==> second == first
            &&& twice == once
        }),
{
}

/// Requests can be made in two batches.
pub proof fn lemma_run_split(s: LedgerView, calls: Seq<Call>, n: int)
    requires
        0 <= n <= calls.len(),
    ensures
        run(s, calls) == run(run(s, calls.take(n)), calls.skip(n)),
    decreases calls.len(),
{
    if n == calls.len() {
        assert(calls.take(n) == calls);
    } else {
        lemma_run_split(s, calls.drop_last(), n);
        assert(calls.drop_last().take(n) == calls.take(n));
        assert(calls.drop_last().skip(n) == calls.skip(n).drop_last());
    }
}

/// Where no record is open at an address, none is open there after any
/// requests none of which asks to open one there.
pub proof fn lemma_closed_stays_closed(s: LedgerView, calls: Seq<Call>, at: Address)
    requires
        s.escrow(at) is None,
        forall|k: int| 0 <= k < calls.len() ==> !calls[k].opens_at(at),
    ensures
        run(s, calls).escrow(at) is None,
    decreases calls.len(),
{
    if calls.len() > 0 {
        lemma_closed_stays_closed(s, calls.drop_last(), at);
        assert(!calls[calls.len() - 1].opens_at(at));
    }
}

/// An escrow is settled at most once. In any sequence of requests, once a
/// request to settle the escrow at an address has succeeded, every later
/// request to settle the escrow at that address is told `NotFound` and changes
/// nothing, whoever makes it and whichever of the two it is, unless an escrow
/// has been opened at the address again in between.
pub proof fn lemma_settled_at_most_once(
    s: LedgerView,
    calls: Seq<Call>,
    at: Address,
    i: int,
    j: int,
)
    requires
        0 <= i < j < calls.len(),
        calls[i].settles_at(at),
        calls[j].settles_at(at),
        answer(s, calls, i) is Ok,
        forall|k: int| i < k < j ==> !calls[k].opens_at(at),
    ensures
        answer(s, calls, j) == Err::<Escrow, CustomError>(CustomError::NotFound),
        run(s, calls.take(j + 1)) == run(s, calls.take(j)),
{
    let before = run(s, calls.take(i));
    let settled = run(s, calls.take(i + 1));
    assert(calls.take(i + 1).drop_last() == calls.take(i));
    assert(settled == calls[i].step(before).0);
    assert(settled.escrow(at) is None);
    let between = calls.take(j).skip(i + 1);
    lemma_run_split(s, calls.take(j), i + 1);
    assert(calls.take(j).take(i + 1) == calls.take(i + 1));
    assert forall|k: int| 0 <= k < between.len() implies !between[k].opens_at(at) by {
        assert(between[k] == calls[i + 1 + k]);
    }
    lemma_closed_stays_closed(settled, between, at);
    assert(run(s, calls.take(j)).escrow(at) is None);
    assert(calls.take(j + 1).drop_last() == calls.take(j));
}

/// No request creates or destroys value: after any sequence of requests the
/// total on the ledger is what it was.
pub proof fn lemma_total_conserved(s: LedgerView, calls: Seq<Call>)
    requires
        s.finite(),
    ensures
        run(s, calls).finite(),
        run(s, calls).total() == s.total(),
    decreases calls.len(),
{
    if calls.len() > 0 {
        lemma_total_conserved(s, calls.drop_last());
        let before = run(s, calls.drop_last());
        match calls.last() {
            Call::Initialize { at, context, taker, amount } => {
                lemma_initialize_atomic(before, at, context, taker, amount);
                if initialize_step(before, at, context, taker, amount).1 is Ok {
                    lemma_create_total(
                        before,
                        at,
                        Escrow { initializer: context.initializer, taker, amount },
                    );
                }
            },
            Call::Withdraw(context) => {
                if withdraw_step(before, context).1 is Ok {
                    lemma_close_total(
                        before,
                        context.escrow_account,
                        before.escrows[context.escrow_account].taker,
                    );
                }
            },
            Call::Cancel(context) => {
                if cancel_step(before, context).1 is Ok {
                    lemma_close_total(
                        before,
                        context.escrow_account,
                        before.escrows[context.escrow_account].initializer,
                    );
                }
            },
        }
    }
}

} // verus!
