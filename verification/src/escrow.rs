//! The escrow record and the rule that says who may settle it.

use vstd::bytes::{
    lemma_auto_spec_u64_to_from_le_bytes, spec_u64_to_le_bytes, u64_from_le_bytes, u64_to_le_bytes,
};
use vstd::prelude::*;
use vstd::slice::slice_subrange;
use crate::address::{lemma_address_view_injective, Address};
use crate::error::CustomError;

verus! {

/// One pending transfer: `amount` deposited by `initializer` for `taker`.
/// A record is written once, when the escrow is opened, and never changed.
#[derive(Clone, Copy, Debug, PartialEq, Eq)]
pub struct Escrow {
    /// The party that deposited the value and may reclaim it.
    pub initializer: Address,
    /// The party that the value is meant for and that may claim it.
    pub taker: Address,
    /// The value held, in the ledger's base unit.
    pub amount: u64,
}

impl Escrow {
    /// The number of bytes that a stored record takes up.
    pub const LEN: usize = 32 + 32 + 8;

    /// The stored form of the record: the initializer's address, the taker's
    /// address, and the amount in eight bytes, lowest first.
    pub open spec fn encoding(self) -> Seq<u8> {
        self.initializer@ + self.taker@ + spec_u64_to_le_bytes(self.amount)
    }

    /// Writes the record out in its stored form.
    pub fn to_bytes(&self) -> (bytes: Vec<u8>)
        ensures
            bytes@ == self.encoding(),
            bytes@.len() == Escrow::LEN,
    {
        let mut bytes: Vec<u8> = Vec::new();
        self.initializer.write(&mut bytes);
        self.taker.write(&mut bytes);
        let mut amount = u64_to_le_bytes(self.amount);
        bytes.append(&mut amount);
        bytes
    }

    /// Reads a record back from its stored form. Bytes of any other length
    /// than `LEN` are no record.
    pub fn from_bytes(bytes: &[u8]) -> (record: Option<Escrow>)
        ensures
            match record {
                Some(r) => r.encoding() == bytes@,
                None => bytes@.len() != Escrow::LEN,
            },
    {
        if bytes.len() != Escrow::LEN {
            return None;
        }
        let initializer = Address::read(bytes, 0);
        let taker = Address::read(bytes, 32);
        let amount = u64_from_le_bytes(slice_subrange(bytes, 64, 72));
        let record = Escrow { initializer, taker, amount };
        proof {
            lemma_auto_spec_u64_to_from_le_bytes();
            assert(record.encoding() =~= bytes@);
        }
        Some(record)
    }

    /// Whether `caller` may claim the escrowed value: only the taker may.
    pub open spec fn may_withdraw(self, caller: Address) -> bool {
        caller == self.taker
    }

    /// Whether `caller` may reclaim the escrowed value: only the initializer may.
    pub open spec fn may_cancel(self, caller: Address) -> bool {
        caller == self.initializer
    }

    /// Admits `caller` to a withdrawal if and only if it is the taker.
    pub fn authorize_withdraw(&self, caller: &Address) -> (r: Result<(), CustomError>)
        ensures
            r is Ok <==> self.may_withdraw(*caller),
            r is Err ==> r == Err::<(), CustomError>(CustomError::Unauthorized),
    {
        if *caller == self.taker {
            Ok(())
        } else {
            Err(CustomError::Unauthorized)
        }
    }

    /// Admits `caller` to a cancellation if and only if it is the initializer.
    pub fn authorize_cancel(&self, caller: &Address) -> (r: Result<(), CustomError>)
        ensures
            r is Ok <==> self.may_cancel(*caller),
            r is Err ==> r == Err::<(), CustomError>(CustomError::Unauthorized),
    {
        if *caller == self.initializer {
            Ok(())
        } else {
            Err(CustomError::Unauthorized)
        }
    }
}

/// The stored form of every record has `LEN` bytes.
pub proof fn lemma_encoding_len(a: Escrow)
    ensures
        a.encoding().len() == Escrow::LEN,
{
    lemma_auto_spec_u64_to_from_le_bytes();
}

/// Different records have different stored forms, so a record that is written
/// out and read back is the same record.
pub proof fn lemma_encoding_injective(a: Escrow, b: Escrow)
    requires
        a.encoding() == b.encoding(),
    ensures
        a == b,
{
    lemma_auto_spec_u64_to_from_le_bytes();
    let ea = a.encoding();
    let eb = b.encoding();
    assert(a.initializer@ =~= ea.subrange(0, 32));
    assert(b.initializer@ =~= eb.subrange(0, 32));
    assert(a.taker@ =~= ea.subrange(32, 64));
    assert(b.taker@ =~= eb.subrange(32, 64));
    assert(spec_u64_to_le_bytes(a.amount) =~= ea.subrange(64, 72));
    assert(spec_u64_to_le_bytes(b.amount) =~= eb.subrange(64, 72));
    lemma_address_view_injective(a.initializer, b.initializer);
    lemma_address_view_injective(a.taker, b.taker);
}

} // verus!
