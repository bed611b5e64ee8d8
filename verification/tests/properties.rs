//! The guarantees of the state machine, each on chosen values.

use sol_escrow::{
    cancel, initialize_at, withdraw, Address, Cancel, CustomError, Escrow, Initialize, Ledger,
    Withdraw,
};

fn who(tag: u8) -> Address {
    Address { bytes: [tag; 32] }
}

/// A ledger on which `alice` (1) owns 1000, with an escrow of 300 for `bob` (2) open at 9.
fn open_escrow() -> (Ledger, Address, Address, Address) {
    let alice = who(1);
    let bob = who(2);
    let at = who(9);
    let mut ledger = Ledger::new();
    assert!(ledger.fund(&alice, 1000));
    let opened = initialize_at(&mut ledger, at, &Initialize { initializer: alice, signer: alice }, bob, 300);
    assert_eq!(opened, Ok(Escrow { initializer: alice, taker: bob, amount: 300 }));
    (ledger, alice, bob, at)
}

#[test]
fn at_most_one_settlement_succeeds_in_any_order() {
    // withdraw, then everything else
    let (mut ledger, alice, bob, at) = open_escrow();
    let mut successes = 0;
    let calls: [(bool, Address); 6] =
        [(true, bob), (false, alice), (true, bob), (false, alice), (true, alice), (false, bob)];
    let mut answers = Vec::new();
    for (is_withdraw, caller) in calls.iter() {
        let answer = if *is_withdraw {
            withdraw(&mut ledger, &Withdraw { escrow_account: at, taker: *caller })
        } else {
            cancel(&mut ledger, &Cancel { escrow_account: at, initializer: *caller })
        };
        if answer.is_ok() {
            successes += 1;
        }
        answers.push(answer);
    }
    assert_eq!(successes, 1);
    assert!(answers[0].is_ok());
    for answer in &answers[1..] {
        assert_eq!(*answer, Err(CustomError::NotFound));
    }

    // cancel, then everything else
    let (mut ledger, alice, bob, at) = open_escrow();
    assert!(cancel(&mut ledger, &Cancel { escrow_account: at, initializer: alice }).is_ok());
    assert_eq!(
        withdraw(&mut ledger, &Withdraw { escrow_account: at, taker: bob }),
        Err(CustomError::NotFound)
    );
    assert_eq!(
        cancel(&mut ledger, &Cancel { escrow_account: at, initializer: alice }),
        Err(CustomError::NotFound)
    );
}

#[test]
fn failed_attempts_do_not_use_up_the_settlement() {
    let (mut ledger, alice, bob, at) = open_escrow();
    let carol = who(3);
    assert_eq!(
        withdraw(&mut ledger, &Withdraw { escrow_account: at, taker: carol }),
        Err(CustomError::Unauthorized)
    );
    assert_eq!(
        withdraw(&mut ledger, &Withdraw { escrow_account: at, taker: alice }),
        Err(CustomError::Unauthorized)
    );
    assert_eq!(
        cancel(&mut ledger, &Cancel { escrow_account: at, initializer: bob }),
        Err(CustomError::Unauthorized)
    );
    assert!(withdraw(&mut ledger, &Withdraw { escrow_account: at, taker: bob }).is_ok());
    assert_eq!(ledger.balance(&bob), 300);
}

#[test]
fn withdraw_succeeds_only_for_the_taker() {
    for tag in 0..=255u8 {
        let (mut ledger, _alice, bob, at) = open_escrow();
        let caller = who(tag);
        let before = (ledger.balance(&caller), ledger.escrow(&at), ledger.total());
        let answer = withdraw(&mut ledger, &Withdraw { escrow_account: at, taker: caller });
        if caller == bob {
            assert!(answer.is_ok());
        } else {
            assert_eq!(answer, Err(CustomError::Unauthorized));
            assert_eq!((ledger.balance(&caller), ledger.escrow(&at), ledger.total()), before);
        }
    }
}

#[test]
fn cancel_succeeds_only_for_the_initializer() {
    for tag in 0..=255u8 {
        let (mut ledger, alice, _bob, at) = open_escrow();
        let caller = who(tag);
        let before = (ledger.balance(&caller), ledger.escrow(&at), ledger.total());
        let answer = cancel(&mut ledger, &Cancel { escrow_account: at, initializer: caller });
        if caller == alice {
            assert!(answer.is_ok());
        } else {
            assert_eq!(answer, Err(CustomError::Unauthorized));
            assert_eq!((ledger.balance(&caller), ledger.escrow(&at), ledger.total()), before);
        }
    }
}

#[test]
fn caller_differing_in_one_byte_is_unauthorized() {
    let (mut ledger, _alice, bob, at) = open_escrow();
    let mut almost = bob;
    almost.bytes[31] ^= 1;
    assert_eq!(
        withdraw(&mut ledger, &Withdraw { escrow_account: at, taker: almost }),
        Err(CustomError::Unauthorized)
    );
    let mut almost = bob;
    almost.bytes[0] ^= 0x80;
    assert_eq!(
        withdraw(&mut ledger, &Withdraw { escrow_account: at, taker: almost }),
        Err(CustomError::Unauthorized)
    );
}

#[test]
fn withdrawal_moves_exactly_the_amount_and_conserves_the_total() {
    let (mut ledger, alice, bob, at) = open_escrow();
    assert!(ledger.fund(&bob, 7));
    assert_eq!(ledger.total(), 1007);
    assert!(withdraw(&mut ledger, &Withdraw { escrow_account: at, taker: bob }).is_ok());
    assert_eq!(ledger.balance(&bob), 307);
    assert_eq!(ledger.balance(&alice), 700);
    assert_eq!(ledger.escrow(&at), None);
    assert_eq!(ledger.total(), 1007);
}

#[test]
fn cancellation_moves_exactly_the_amount_and_conserves_the_total() {
    let (mut ledger, alice, bob, at) = open_escrow();
    assert_eq!(ledger.balance(&alice), 700);
    assert!(cancel(&mut ledger, &Cancel { escrow_account: at, initializer: alice }).is_ok());
    assert_eq!(ledger.balance(&alice), 1000);
    assert_eq!(ledger.balance(&bob), 0);
    assert_eq!(ledger.escrow(&at), None);
    assert_eq!(ledger.total(), 1000);
}

#[test]
fn initialize_succeeds_in_full() {
    let alice = who(1);
    let bob = who(2);
    let at = who(9);
    let mut ledger = Ledger::new();
    assert!(ledger.fund(&alice, 1000));
    let opened = initialize_at(&mut ledger, at, &Initialize { initializer: alice, signer: alice }, bob, 1000);
    assert_eq!(opened, Ok(Escrow { initializer: alice, taker: bob, amount: 1000 }));
    assert_eq!(ledger.escrow(&at), Some(Escrow { initializer: alice, taker: bob, amount: 1000 }));
    assert_eq!(ledger.balance(&alice), 0);
    assert_eq!(ledger.total(), 1000);
}

#[test]
fn initialize_with_insufficient_funds_changes_nothing() {
    let alice = who(1);
    let bob = who(2);
    let at = who(9);
    let mut ledger = Ledger::new();
    assert!(ledger.fund(&alice, 999));
    let refused = initialize_at(&mut ledger, at, &Initialize { initializer: alice, signer: alice }, bob, 1000);
    assert_eq!(refused, Err(CustomError::InsufficientFunds));
    assert_eq!(ledger.escrow(&at), None);
    assert_eq!(ledger.balance(&alice), 999);
    assert_eq!(ledger.total(), 999);
}

#[test]
fn initialize_by_party_without_balance_is_insufficient() {
    let mut ledger = Ledger::new();
    let refused = initialize_at(&mut ledger, who(9), &Initialize { initializer: who(1), signer: who(1) }, who(2), 1);
    assert_eq!(refused, Err(CustomError::InsufficientFunds));
    assert_eq!(ledger.escrow(&who(9)), None);
}

#[test]
fn initialize_in_another_name_is_unauthorized() {
    let alice = who(1);
    let bob = who(2);
    let mallory = who(6);
    let at = who(9);
    let mut ledger = Ledger::new();
    assert!(ledger.fund(&alice, 1000));
    assert!(ledger.fund(&mallory, 1000));
    let refused = initialize_at(&mut ledger, at, &Initialize { initializer: alice, signer: mallory }, bob, 10);
    assert_eq!(refused, Err(CustomError::Unauthorized));
    assert_eq!(ledger.escrow(&at), None);
    assert_eq!(ledger.balance(&alice), 1000);
    assert_eq!(ledger.balance(&mallory), 1000);
}

#[test]
fn initialize_over_an_open_record_changes_nothing() {
    let (mut ledger, alice, bob, at) = open_escrow();
    let carol = who(3);
    assert!(ledger.fund(&carol, 50));
    let refused = initialize_at(&mut ledger, at, &Initialize { initializer: carol, signer: carol }, bob, 50);
    assert_eq!(refused, Err(CustomError::AlreadyExists));
    assert_eq!(ledger.escrow(&at), Some(Escrow { initializer: alice, taker: bob, amount: 300 }));
    assert_eq!(ledger.balance(&carol), 50);
}

#[test]
fn rejections_are_reported_in_order() {
    // Unauthorized comes before AlreadyExists, and AlreadyExists before InsufficientFunds.
    let (mut ledger, alice, bob, at) = open_escrow();
    let poor = who(4);
    assert_eq!(
        initialize_at(&mut ledger, at, &Initialize { initializer: poor, signer: alice }, bob, 5),
        Err(CustomError::Unauthorized)
    );
    assert_eq!(
        initialize_at(&mut ledger, at, &Initialize { initializer: poor, signer: poor }, bob, 5),
        Err(CustomError::AlreadyExists)
    );
    // NotFound comes before Unauthorized: without a record there is nobody to compare with.
    assert_eq!(
        withdraw(&mut ledger, &Withdraw { escrow_account: who(10), taker: poor }),
        Err(CustomError::NotFound)
    );
}

#[test]
fn same_withdraw_twice_is_success_then_not_found() {
    let (mut ledger, _alice, bob, at) = open_escrow();
    let request = Withdraw { escrow_account: at, taker: bob };
    assert!(withdraw(&mut ledger, &request).is_ok());
    assert_eq!(withdraw(&mut ledger, &request), Err(CustomError::NotFound));
    assert_eq!(ledger.balance(&bob), 300);
}

#[test]
fn same_cancel_twice_is_success_then_not_found() {
    let (mut ledger, alice, _bob, at) = open_escrow();
    let request = Cancel { escrow_account: at, initializer: alice };
    assert!(cancel(&mut ledger, &request).is_ok());
    assert_eq!(cancel(&mut ledger, &request), Err(CustomError::NotFound));
    assert_eq!(ledger.balance(&alice), 1000);
}

#[test]
fn settling_where_nothing_was_ever_opened_is_not_found() {
    let mut ledger = Ledger::new();
    assert_eq!(
        withdraw(&mut ledger, &Withdraw { escrow_account: who(9), taker: who(2) }),
        Err(CustomError::NotFound)
    );
    assert_eq!(
        cancel(&mut ledger, &Cancel { escrow_account: who(9), initializer: who(1) }),
        Err(CustomError::NotFound)
    );
}

#[test]
fn escrow_for_oneself_returns_the_deposit_either_way() {
    let alice = who(1);
    let at = who(9);
    let mut ledger = Ledger::new();
    assert!(ledger.fund(&alice, 10));
    let context = Initialize { initializer: alice, signer: alice };
    assert!(initialize_at(&mut ledger, at, &context, alice, 4).is_ok());
    assert_eq!(ledger.balance(&alice), 6);
    assert!(withdraw(&mut ledger, &Withdraw { escrow_account: at, taker: alice }).is_ok());
    assert_eq!(ledger.balance(&alice), 10);
    assert!(initialize_at(&mut ledger, at, &context, alice, 10).is_ok());
    assert!(cancel(&mut ledger, &Cancel { escrow_account: at, initializer: alice }).is_ok());
    assert_eq!(ledger.balance(&alice), 10);
}

#[test]
fn empty_escrow_is_still_settled_once() {
    let alice = who(1);
    let bob = who(2);
    let at = who(9);
    let mut ledger = Ledger::new();
    let context = Initialize { initializer: alice, signer: alice };
    assert_eq!(
        initialize_at(&mut ledger, at, &context, bob, 0),
        Ok(Escrow { initializer: alice, taker: bob, amount: 0 })
    );
    assert!(withdraw(&mut ledger, &Withdraw { escrow_account: at, taker: bob }).is_ok());
    assert_eq!(
        cancel(&mut ledger, &Cancel { escrow_account: at, initializer: alice }),
        Err(CustomError::NotFound)
    );
    assert_eq!(ledger.total(), 0);
}

#[test]
fn whole_supply_can_be_escrowed_and_paid_out() {
    let alice = who(1);
    let bob = who(2);
    let at = who(9);
    let mut ledger = Ledger::new();
    assert!(ledger.fund(&alice, u64::MAX));
    let context = Initialize { initializer: alice, signer: alice };
    assert!(initialize_at(&mut ledger, at, &context, bob, u64::MAX).is_ok());
    assert_eq!(ledger.balance(&alice), 0);
    assert!(withdraw(&mut ledger, &Withdraw { escrow_account: at, taker: bob }).is_ok());
    assert_eq!(ledger.balance(&bob), u64::MAX);
    assert_eq!(ledger.total(), u64::MAX);
}
