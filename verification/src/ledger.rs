//! The ledger that escrows live on: the balance of every party and the open
//! escrow records, each backed by exactly the amount it names.

use vstd::prelude::*;
use crate::address::Address;
use crate::error::CustomError;
use crate::escrow::Escrow;
use crate::sum::{lemma_sum_bounds, lemma_sum_insert, lemma_sum_remove, sum_of};
use crate::table::Table;

verus! {

/// The amount that backs each open record.
pub open spec fn deposits(escrows: Map<Address, Escrow>) -> Map<Address, nat> {
    Map::new(|at: Address| escrows.contains_key(at), |at: Address| escrows[at].amount as nat)
}

/// The balances of a table, as natural numbers.
pub open spec fn lamports(balances: Map<Address, u64>) -> Map<Address, nat> {
    Map::new(|of: Address| balances.contains_key(of), |of: Address| balances[of] as nat)
}

/// What a ledger holds: who owns how much, and which escrows are open where.
pub struct LedgerView {
    /// The balance of each party that has one; a party without one owns nothing.
    pub balances: Map<Address, nat>,
    /// The open escrow records, by the address each is stored at.
    pub escrows: Map<Address, Escrow>,
}

impl LedgerView {
    /// The ledger on which nobody owns anything and no escrow is open.
    pub open spec fn empty() -> LedgerView {
        LedgerView { balances: Map::empty(), escrows: Map::empty() }
    }

    /// The ledger names finitely many parties and records.
    pub open spec fn finite(self) -> bool {
        self.balances.dom().finite() && self.escrows.dom().finite()
    }

    /// What `of` owns outside any escrow.
    pub open spec fn balance(self, of: Address) -> nat {
        if self.balances.contains_key(of) {
            self.balances[of]
        } else {
            0
        }
    }

    /// The record that is open at `at`, if there is one.
    pub open spec fn escrow(self, at: Address) -> Option<Escrow> {
        if self.escrows.contains_key(at) {
            Some(self.escrows[at])
        } else {
            None
        }
    }

    /// All value on the ledger: every balance and every escrowed amount.
    pub open spec fn total(self) -> nat {
        sum_of(self.balances) + sum_of(deposits(self.escrows))
    }

    /// The ledger after `to` has received `amount`.
    pub open spec fn credit(self, to: Address, amount: nat) -> LedgerView {
        LedgerView { balances: self.balances.insert(to, self.balance(to) + amount), ..self }
    }

    /// The ledger after `from` has given up `amount` of what it owns.
    pub open spec fn debit(self, from: Address, amount: nat) -> LedgerView {
        LedgerView {
            balances: self.balances.insert(from, (self.balance(from) - amount) as nat),
            ..self
        }
    }

    /// Whether `record` can be opened at `at`, and why not if it cannot.
    pub open spec fn may_create(self, at: Address, record: Escrow) -> Result<(), CustomError> {
        if self.escrows.contains_key(at) {
            Err(CustomError::AlreadyExists)
        } else if self.balance(record.initializer) < record.amount {
            Err(CustomError::InsufficientFunds)
        } else {
            Ok(())
        }
    }

    /// The ledger after `record` has been opened at `at`: the initializer has
    /// paid the amount, and the record holds it.
    pub open spec fn create(self, at: Address, record: Escrow) -> LedgerView {
        LedgerView {
            escrows: self.escrows.insert(at, record),
            ..self.debit(record.initializer, record.amount as nat)
        }
    }

    /// The ledger after the record at `at` has been destroyed and what it held
    /// has been paid out to `to`.
    pub open spec fn close(self, at: Address, to: Address) -> LedgerView {
        LedgerView {
            escrows: self.escrows.remove(at),
            ..self.credit(to, self.escrows[at].amount as nat)
        }
    }
}

/// Receiving value raises the total by as much.
pub proof fn lemma_credit_total(s: LedgerView, to: Address, amount: nat)
    requires
        s.finite(),
    ensures
        s.credit(to, amount).finite(),
        s.credit(to, amount).total() == s.total() + amount,
{
    lemma_sum_insert(s.balances, to, s.balance(to) + amount);
}

/// Giving up value that one owns lowers the total by as much.
pub proof fn lemma_debit_total(s: LedgerView, from: Address, amount: nat)
    requires
        s.finite(),
        amount <= s.balance(from),
    ensures
        s.debit(from, amount).finite(),
        s.debit(from, amount).total() + amount == s.total(),
{
    lemma_sum_insert(s.balances, from, (s.balance(from) - amount) as nat);
}

/// Opening an escrow moves value from the initializer into the record: the total stays.
pub proof fn lemma_create_total(s: LedgerView, at: Address, record: Escrow)
    requires
        s.finite(),
        s.may_create(at, record) is Ok,
    ensures
        s.create(at, record).finite(),
        s.create(at, record).total() == s.total(),
{
    lemma_debit_total(s, record.initializer, record.amount as nat);
    let after = s.create(at, record);
    assert(deposits(after.escrows) =~= deposits(s.escrows).insert(at, record.amount as nat));
    assert(deposits(s.escrows).dom() =~= s.escrows.dom());
    lemma_sum_insert(deposits(s.escrows), at, record.amount as nat);
}

/// Closing an escrow moves what the record held to the beneficiary: the total stays.
pub proof fn lemma_close_total(s: LedgerView, at: Address, to: Address)
    requires
        s.finite(),
        s.escrows.contains_key(at),
    ensures
        s.close(at, to).finite(),
        s.close(at, to).total() == s.total(),
{
    let amount = s.escrows[at].amount as nat;
    lemma_credit_total(s, to, amount);
    let after = s.close(at, to);
    assert(deposits(after.escrows) =~= deposits(s.escrows).remove(at));
    assert(deposits(s.escrows).dom() =~= s.escrows.dom());
    lemma_sum_remove(deposits(s.escrows), at);
}

/// A balance and an escrowed amount never add up to more than the total.
pub proof fn lemma_balance_and_deposit_bounds(s: LedgerView, of: Address, at: Address)
    requires
        s.finite(),
    ensures
        s.balance(of) <= s.total(),
        s.escrows.contains_key(at) ==> s.balance(of) + s.escrows[at].amount <= s.total(),
{
    if s.balances.contains_key(of) {
        lemma_sum_bounds(s.balances, of);
    }
    if s.escrows.contains_key(at) {
        assert(deposits(s.escrows).dom() =~= s.escrows.dom());
        lemma_sum_bounds(deposits(s.escrows), at);
    }
}

/// A ledger in memory. All value on it fits in a `u64`.
pub struct Ledger {
    balances: Table<u64>,
    escrows: Table<Escrow>,
    supply: u64,
}

impl View for Ledger {
    type V = LedgerView;

    closed spec fn view(&self) -> LedgerView {
        LedgerView { balances: lamports(self.balances@), escrows: self.escrows@ }
    }
}

impl Ledger {
    /// The ledger's invariant: each party and each address is listed once, and
    /// the recorded supply is the total of all balances and escrowed amounts.
    pub closed spec fn wf(&self) -> bool {
        &&& self.balances.wf()
        &&& self.escrows.wf()
        &&& self.supply == self@.total()
    }

    /// A well-formed ledger is finite, and no sum of value on it overflows.
    pub proof fn lemma_bounded(&self)
        requires
            self.wf(),
        ensures
            self@.finite(),
            self@.total() <= u64::MAX,
    {
        self.balances.lemma_finite();
        self.escrows.lemma_finite();
        assert(lamports(self.balances@).dom() =~= self.balances@.dom());
    }

    /// The ledger on which nobody owns anything and no escrow is open.
    pub fn new() -> (ledger: Ledger)
        ensures
            ledger.wf(),
            ledger@ == LedgerView::empty(),
            ledger@.total() == 0,
    {
        let ledger = Ledger { balances: Table::new(), escrows: Table::new(), supply: 0 };
        proof {
            assert(lamports(ledger.balances@) =~= Map::<Address, nat>::empty());
            assert(deposits(ledger.escrows@) =~= Map::<Address, nat>::empty());
        }
        ledger
    }

    /// What `of` owns outside any escrow.
    pub fn balance(&self, of: &Address) -> (amount: u64)
        requires
            self.wf(),
        ensures
            amount == self@.balance(*of),
    {
        match self.balances.get(of) {
            Some(amount) => amount,
            None => 0,
        }
    }

    /// The record that is open at `at`, if there is one.
    pub fn escrow(&self, at: &Address) -> (record: Option<Escrow>)
        requires
            self.wf(),
        ensures
            record == self@.escrow(*at),
    {
        self.escrows.get(at)
    }

    /// All value on the ledger.
    pub fn total(&self) -> (amount: u64)
        requires
            self.wf(),
        ensures
            amount == self@.total(),
    {
        self.supply
    }

    /// Brings `amount` of new value onto the ledger, as `to`'s. Refused, with
    /// nothing changed, where the total would no longer fit in a `u64`.
    pub fn fund(&mut self, to: &Address, amount: u64) -> (funded: bool)
        requires
            old(self).wf(),
        ensures
            final(self).wf(),
            funded <==> old(self)@.total() + amount <= u64::MAX,
            funded ==> final(self)@ == old(self)@.credit(*to, amount as nat),
            !funded ==> final(self)@ == old(self)@,
    {
        if amount > u64::MAX - self.supply {
            return false;
        }
        let owned = self.balance(to);
        proof {
            self.lemma_bounded();
            lemma_balance_and_deposit_bounds(self@, *to, *to);
            lemma_credit_total(self@, *to, amount as nat);
        }
        self.balances.insert(*to, owned + amount);
        self.supply = self.supply + amount;
        proof {
            assert(lamports(self.balances@) =~= old(self)@.credit(*to, amount as nat).balances);
        }
        true
    }

    /// Opens `record` at `at` and moves its amount out of the initializer's
    /// balance into it, in one step. Refused, with nothing changed, where a
    /// record is already open at `at`, or else where the initializer owns less
    /// than the amount.
    pub fn create(&mut self, at: Address, record: Escrow) -> (r: Result<(), CustomError>)
        requires
            old(self).wf(),
        ensures
            final(self).wf(),
            r == old(self)@.may_create(at, record),
            r is Ok ==> final(self)@ == old(self)@.create(at, record),
            r is Err ==> final(self)@ == old(self)@,
    {
        if self.escrows.get(&at).is_some() {
            return Err(CustomError::AlreadyExists);
        }
        let owned = self.balance(&record.initializer);
        if owned < record.amount {
            return Err(CustomError::InsufficientFunds);
        }
        proof {
            self.lemma_bounded();
            lemma_create_total(self@, at, record);
        }
        self.balances.insert(record.initializer, owned - record.amount);
        self.escrows.insert(at, record);
        proof {
            assert(lamports(self.balances@) =~= old(self)@.create(at, record).balances);
        }
        Ok(())
    }

    /// Destroys the record at `at` and pays what it held to `to`, in one step.
    /// Refused, with nothing changed, where no record is open at `at`.
    pub fn close(&mut self, at: &Address, to: &Address) -> (r: Result<Escrow, CustomError>)
        requires
            old(self).wf(),
        ensures
            final(self).wf(),
            match old(self)@.escrow(*at) {
                Some(record) => r == Ok::<Escrow, CustomError>(record) && final(self)@ == old(
                    self,
                )@.close(*at, *to),
                None => r == Err::<Escrow, CustomError>(CustomError::NotFound) && final(self)@
                    == old(self)@,
            },
    {
        let record = match self.escrows.get(at) {
            Some(record) => record,
            None => {
                return Err(CustomError::NotFound);
            },
        };
        let owned = self.balance(to);
        proof {
            self.lemma_bounded();
            lemma_balance_and_deposit_bounds(self@, *to, *at);
            lemma_close_total(self@, *at, *to);
        }
        self.escrows.remove(at);
        self.balances.insert(*to, owned + record.amount);
        proof {
            assert(lamports(self.balances@) =~= old(self)@.close(*at, *to).balances);
        }
        Ok(record)
    }
}

} // verus!
