//! Where an escrow record is stored: an address derived from the program, a
//! fixed tag and the initializer's address.

use vstd::prelude::*;
use crate::address::{address_of, lemma_address_of_view, Address};

verus! {

/// The tag that sets escrow records apart from other derived addresses: `escrow` in ASCII.
pub const ESCROW_SEED: [u8; 6] = [0x65, 0x73, 0x63, 0x72, 0x6f, 0x77];

/// The address of the escrow program, `DcUJPJZDTW9pSFmfpxoQkedaAv3UCdbhDLEHHiK2rZBx` in base 58.
pub const ID: [u8; 32] = [
    0xbb, 0x62, 0x70, 0x78, 0xa1, 0x1e, 0xd9, 0x94, 0xe8, 0x96, 0x7d, 0xbb, 0x73, 0x33, 0x5e, 0x6b,
    0x2b, 0x32, 0xa7, 0xd4, 0x78, 0xea, 0x28, 0xa0, 0xc2, 0x8d, 0xbb, 0xa6, 0x98, 0x99, 0x51, 0x33,
];

/// What `Pubkey::try_find_program_address` returns for the seeds `[seed, key]`
/// and the program `program`: the derived address with its bump seed, or `None`
/// where no bump seed gives an address off the curve.
pub uninterp spec fn program_address(seed: Seq<u8>, key: Seq<u8>, program: Seq<u8>) -> Option<(Seq<u8>, u8)>;

/// Calls `anchor_lang::prelude::Pubkey::try_find_program_address` with the two
/// seeds `seed` and `key`. The result is not proved: it is taken to be
/// `program_address` of the same arguments, a function of them alone.
#[verifier::external_body]
fn find_program_address(seed: &[u8], key: &Address, program: &Address) -> (found: Option<(Address, u8)>)
    ensures
        match found {
            Some((address, bump)) => program_address(seed@, key@, program@) == Some((address@, bump)),
            None => program_address(seed@, key@, program@) is None,
        },
{
    let program = anchor_lang::prelude::Pubkey::new_from_array(program.bytes);
    match anchor_lang::prelude::Pubkey::try_find_program_address(&[seed, &key.bytes], &program) {
        Some((address, bump)) => Some((Address { bytes: address.to_bytes() }, bump)),
        None => None,
    }
}

/// The address of the escrow program.
pub fn id() -> (program: Address)
    ensures
        program.bytes == ID,
{
    Address { bytes: ID }
}

/// The storage address of the escrow that `initializer` may open, if there is one.
pub open spec fn derived_escrow_address(initializer: Address) -> Option<Address> {
    match program_address(ESCROW_SEED@, initializer@, ID@) {
        Some((bytes, _)) => Some(address_of(bytes)),
        None => None,
    }
}

/// Derives the storage address of the escrow that `initializer` may open.
pub fn escrow_address(initializer: &Address) -> (derived: Option<Address>)
    ensures
        derived == derived_escrow_address(*initializer),
{
    let program = id();
    match find_program_address(&ESCROW_SEED, initializer, &program) {
        Some((address, _)) => {
            proof {
                lemma_address_of_view(address);
            }
            Some(address)
        },
        None => None,
    }
}

} // verus!
