//! The storage location of an owner, and the validation that an account passes
//! before its store is touched.

use vstd::prelude::*;
use solana_program::pubkey::Pubkey;
use crate::error::ChatError;
use crate::state::Address;

verus! {

/// The program address that the seed `owner` has under `program`, with the
/// bump seed that gave it; `None` where no bump seed gives one.
pub uninterp spec fn program_address(owner: Seq<u8>, program: Seq<u8>) -> Option<(Seq<u8>, u8)>;

/// `Pubkey::try_find_program_address` of solana_program, with the owner's
/// 32 bytes as the only seed. The contract claims one thing: what comes back
/// is a function of the two byte strings, and `program_address` is its name.
#[verifier::external_body]
fn find_program_address(owner: &[u8; 32], program: &[u8; 32]) -> (r: Option<([u8; 32], u8)>)
    ensures
        r matches Some(t) ==> program_address(owner@, program@) == Some((t.0@, t.1)),
        r is None ==> program_address(owner@, program@) is None,
{
    match Pubkey::try_find_program_address(&[&owner[..]], &Pubkey::new_from_array(*program)) {
        Some((address, bump)) => Some((address.to_bytes(), bump)),
        None => None,
    }
}

/// The storage location of `owner` under `program`, and its bump seed;
/// `None` where no bump seed gives a location.
pub fn derive(owner: &Address, program: &Address) -> (r: Option<(Address, u8)>)
    ensures
        match program_address(owner@, program@) {
            Some((location, bump)) => r matches Some(t) && t.0@ == location && t.1 == bump,
            None => r is None,
        },
{
    match find_program_address(&owner.bytes, &program.bytes) {
        Some((bytes, bump)) => Some((Address::new(bytes), bump)),
        None => None,
    }
}

/// What the validator answers, given the derived location: the supplied
/// location must be the derived one, and the authority must be the program.
/// Where nothing could be derived, no location matches.
pub open spec fn validation(
    derived: Option<(Seq<u8>, u8)>,
    program: Seq<u8>,
    location: Seq<u8>,
    authority: Seq<u8>,
) -> Result<(), ChatError> {
    if !(derived matches Some(t) && t.0 == location) {
        Err(ChatError::AddressMismatch)
    } else if authority != program {
        Err(ChatError::AuthorityMismatch)
    } else {
        Ok(())
    }
}

/// The validator, on a location that was already derived.
pub fn check_account(
    derived: &Option<(Address, u8)>,
    program: &Address,
    location: &Address,
    authority: &Address,
) -> (r: Result<(), ChatError>)
    ensures
        r == validation(
            match *derived {
                Some(t) => Some((t.0@, t.1)),
                None => None,
            },
            program@,
            location@,
            authority@,
        ),
{
    match derived {
        Some(t) => {
            if !t.0.same_as(location) {
                return Err(ChatError::AddressMismatch);
            }
        },
        None => {
            return Err(ChatError::AddressMismatch);
        },
    }
    if !authority.same_as(program) {
        return Err(ChatError::AuthorityMismatch);
    }
    Ok(())
}

/// Checks that `location` is the storage location of `owner` under
/// `program`, and that `authority` is the program.
pub fn validate(
    owner: &Address,
    program: &Address,
    location: &Address,
    authority: &Address,
) -> (r: Result<(), ChatError>)
    ensures
        r == validation(program_address(owner@, program@), program@, location@, authority@),
{
    let derived = derive(owner, program);
    check_account(&derived, program, location, authority)
}

/// Derivation is a function of its inputs: owners of the same bytes have,
/// under programs of the same bytes, the same location and bump seed.
pub proof fn lemma_derive_deterministic(
    owner: Address,
    program: Address,
    same_owner: Address,
    same_program: Address,
)
    requires
        owner@ == same_owner@,
        program@ == same_program@,
    ensures
        program_address(owner@, program@) == program_address(same_owner@, same_program@),
{
}

/// The validator is a function of its inputs: asked about owners, programs,
/// locations and authorities of the same bytes, it answers the same.
pub proof fn lemma_validate_deterministic(
    owner: Address,
    program: Address,
    location: Address,
    authority: Address,
    same_owner: Address,
    same_program: Address,
    same_location: Address,
    same_authority: Address,
)
    requires
        owner@ == same_owner@,
        program@ == same_program@,
        location@ == same_location@,
        authority@ == same_authority@,
    ensures
        validation(program_address(owner@, program@), program@, location@, authority@)
            == validation(
            program_address(same_owner@, same_program@),
            same_program@,
            same_location@,
            same_authority@,
        ),
{
}

} // verus!
