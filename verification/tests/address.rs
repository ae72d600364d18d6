use conversations::address::{check_account, validate};
use conversations::error::ChatError;
use conversations::state::Address;
use solana_program::pubkey::Pubkey;

#[test]
fn derive_is_the_program_address() {
    let owner = Pubkey::new_from_array([3u8; 32]);
    let program = Pubkey::new_from_array([5u8; 32]);
    let (expected, bump) = Pubkey::find_program_address(&[&owner.to_bytes()], &program);
    let derived = conversations::address::derive(
        &Address::new(owner.to_bytes()),
        &Address::new(program.to_bytes()),
    );
    assert_eq!(derived, Some((Address::new(expected.to_bytes()), bump)));
    assert_ne!(derived.unwrap().0, Address::new(owner.to_bytes()));
    assert_ne!(derived.unwrap().0, Address::new(program.to_bytes()));
}

#[test]
fn derive_twice_gives_the_same() {
    let owner = Address::new(Pubkey::new_unique().to_bytes());
    let program = Address::new(Pubkey::new_unique().to_bytes());
    let first = conversations::address::derive(&owner, &program);
    let second = conversations::address::derive(&owner, &program);
    assert!(first.is_some());
    assert_eq!(first, second);
    let other = conversations::address::derive(&Address::new(Pubkey::new_unique().to_bytes()), &program);
    assert_ne!(first.unwrap().0, other.unwrap().0);
}

#[test]
fn validate_accepts_the_derived_location() {
    let owner = Address::new([3u8; 32]);
    let program = Address::new([5u8; 32]);
    let (location, _) = conversations::address::derive(&owner, &program).unwrap();
    assert_eq!(validate(&owner, &program, &location, &program), Ok(()));
}

#[test]
fn validate_refuses_another_location() {
    let owner = Address::new([3u8; 32]);
    let program = Address::new([5u8; 32]);
    let elsewhere = Address::new([4u8; 32]);
    assert_eq!(
        validate(&owner, &program, &elsewhere, &program),
        Err(ChatError::AddressMismatch)
    );
    assert_eq!(
        validate(&owner, &program, &elsewhere, &owner),
        Err(ChatError::AddressMismatch)
    );
}

#[test]
fn validate_refuses_another_authority() {
    let owner = Address::new([3u8; 32]);
    let program = Address::new([5u8; 32]);
    let (location, _) = conversations::address::derive(&owner, &program).unwrap();
    assert_eq!(
        validate(&owner, &program, &location, &owner),
        Err(ChatError::AuthorityMismatch)
    );
}

#[test]
fn validate_twice_answers_the_same() {
    let owner = Address::new([3u8; 32]);
    let program = Address::new([5u8; 32]);
    let (location, _) = conversations::address::derive(&owner, &program).unwrap();
    for supplied in [location, owner] {
        for authority in [program, owner] {
            assert_eq!(
                validate(&owner, &program, &supplied, &authority),
                validate(&owner, &program, &supplied, &authority)
            );
        }
    }
}

#[test]
fn check_account_on_given_locations() {
    let program = Address::new([5u8; 32]);
    let location = Address::new([6u8; 32]);
    let other = Address::new([7u8; 32]);
    assert_eq!(
        check_account(&Some((location, 255)), &program, &location, &program),
        Ok(())
    );
    assert_eq!(
        check_account(&Some((location, 255)), &program, &other, &program),
        Err(ChatError::AddressMismatch)
    );
    assert_eq!(
        check_account(&None, &program, &location, &program),
        Err(ChatError::AddressMismatch)
    );
    assert_eq!(
        check_account(&Some((location, 255)), &program, &location, &other),
        Err(ChatError::AuthorityMismatch)
    );
}
