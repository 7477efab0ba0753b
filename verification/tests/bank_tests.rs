use dealforge::bank::{derive_vault, Authority, Bank, Holder};
use dealforge::errors::DealForgeError;

#[test]
fn transfer_requires_matching_authority() {
    let mut b = Bank::new();
    b.mint_to(Holder::User(1), 7, 100).unwrap();

    // a stranger's signature does not control user 1's account
    let r = b.transfer_tokens(Holder::User(1), Holder::User(2), 10, 7, Authority::Signer(2));
    assert_eq!(r, Err(DealForgeError::TransferFailed));

    // a derived authority does not control a user account either
    let r = b.transfer_tokens(
        Holder::User(1),
        Holder::User(2),
        10,
        7,
        Authority::Derived { maker: 1, id: 0 },
    );
    assert_eq!(r, Err(DealForgeError::TransferFailed));

    // no signature controls a vault
    let r = b.transfer_tokens(
        Holder::Vault { maker: 1, id: 0 },
        Holder::User(1),
        0,
        7,
        Authority::Signer(1),
    );
    assert_eq!(r, Err(DealForgeError::TransferFailed));

    assert_eq!(b.balance_of(Holder::User(1), 7), 100);
    assert_eq!(b.balance_of(Holder::User(2), 7), 0);
}

#[test]
fn transfer_moves_exactly_the_amount() {
    let mut b = Bank::new();
    b.mint_to(Holder::User(1), 7, 100).unwrap();
    b.transfer_tokens(Holder::User(1), Holder::User(2), 40, 7, Authority::Signer(1)).unwrap();
    assert_eq!(b.balance_of(Holder::User(1), 7), 60);
    assert_eq!(b.balance_of(Holder::User(2), 7), 40);
}

#[test]
fn transfer_insufficient_rejected() {
    let mut b = Bank::new();
    b.mint_to(Holder::User(1), 7, 30).unwrap();
    let r = b.transfer_tokens(Holder::User(1), Holder::User(2), 31, 7, Authority::Signer(1));
    assert_eq!(r, Err(DealForgeError::InsufficientBalance));
    assert_eq!(b.balance_of(Holder::User(1), 7), 30);
}

#[test]
fn transfer_overflow_rejected() {
    let mut b = Bank::new();
    b.mint_to(Holder::User(1), 7, 10).unwrap();
    b.mint_to(Holder::User(2), 7, u64::MAX).unwrap();
    let r = b.transfer_tokens(Holder::User(1), Holder::User(2), 1, 7, Authority::Signer(1));
    assert_eq!(r, Err(DealForgeError::CalculationOverflow));
    assert_eq!(b.balance_of(Holder::User(1), 7), 10);
    assert_eq!(b.balance_of(Holder::User(2), 7), u64::MAX);
}

#[test]
fn self_transfer_keeps_balance() {
    let mut b = Bank::new();
    b.mint_to(Holder::User(1), 7, 25).unwrap();
    b.transfer_tokens(Holder::User(1), Holder::User(1), 25, 7, Authority::Signer(1)).unwrap();
    assert_eq!(b.balance_of(Holder::User(1), 7), 25);
}

#[test]
fn close_requires_empty_account() {
    let mut b = Bank::new();
    b.mint_to(Holder::User(1), 7, 5).unwrap();

    let r = b.close_token_account(Holder::User(1), 7, Authority::Signer(1));
    assert_eq!(r, Err(DealForgeError::TransferFailed));
    assert!(b.account_exists(Holder::User(1), 7));

    b.transfer_tokens(Holder::User(1), Holder::User(2), 5, 7, Authority::Signer(1)).unwrap();
    assert_eq!(b.balance_of(Holder::User(1), 7), 0);
    b.close_token_account(Holder::User(1), 7, Authority::Signer(1)).unwrap();
    assert!(!b.account_exists(Holder::User(1), 7));
}

#[test]
fn close_requires_matching_authority() {
    let mut b = Bank::new();
    b.mint_to(Holder::User(1), 7, 0).unwrap();
    let r = b.close_token_account(Holder::User(1), 7, Authority::Signer(2));
    assert_eq!(r, Err(DealForgeError::TransferFailed));
    assert!(b.account_exists(Holder::User(1), 7));
}

#[test]
fn vault_derivation_is_deterministic_and_distinct() {
    let (v1, a1) = derive_vault(5, 0);
    let (v2, a2) = derive_vault(5, 0);
    assert_eq!(v1, v2);
    assert_eq!(a1, a2);
    assert_eq!(v1, Holder::Vault { maker: 5, id: 0 });
    assert_eq!(a1, Authority::Derived { maker: 5, id: 0 });

    let (v3, _) = derive_vault(5, 1);
    let (v4, _) = derive_vault(6, 0);
    assert_ne!(v1, v3);
    assert_ne!(v1, v4);
    assert_ne!(v3, v4);
}
