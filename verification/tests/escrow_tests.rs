use dealforge::bank::Holder;
use dealforge::errors::DealForgeError;
use dealforge::escrow::Escrow;

const MAKER: u64 = 1;
const TAKER: u64 = 2;
const STRANGER: u64 = 3;
const ASSET_A: u64 = 10;
const ASSET_B: u64 = 20;

fn vault(maker: u64, id: u64) -> Holder {
    Holder::Vault { maker, id }
}

#[test]
fn open_locks_funds_and_increments_counter() {
    let mut e = Escrow::new();
    e.mint_to(MAKER, ASSET_A, 150).unwrap();
    assert_eq!(e.next_offer_id(MAKER), 0);

    let id = e.make_offer(MAKER, ASSET_A, ASSET_B, 100, 50).unwrap();
    assert_eq!(id, 0);

    assert_eq!(e.balance_of(vault(MAKER, 0), ASSET_A), 100);
    assert_eq!(e.balance_of(Holder::User(MAKER), ASSET_A), 50);
    assert_eq!(e.next_offer_id(MAKER), 1);

    let o = e.get_offer(MAKER, 0).unwrap();
    assert_eq!(o.id, 0);
    assert_eq!(o.maker, MAKER);
    assert_eq!(o.offered_mint, ASSET_A);
    assert_eq!(o.requested_mint, ASSET_B);
    assert_eq!(o.offered_amount, 100);
    assert_eq!(o.requested_amount, 50);
}

#[test]
fn fulfill_swaps_and_clears() {
    let mut e = Escrow::new();
    e.mint_to(MAKER, ASSET_A, 100).unwrap();
    e.mint_to(TAKER, ASSET_B, 60).unwrap();
    let id = e.make_offer(MAKER, ASSET_A, ASSET_B, 100, 50).unwrap();
    assert_eq!(id, 0);

    e.take_offer(TAKER, MAKER, 0).unwrap();

    assert_eq!(e.balance_of(Holder::User(TAKER), ASSET_A), 100);
    assert_eq!(e.balance_of(Holder::User(TAKER), ASSET_B), 10);
    assert_eq!(e.balance_of(Holder::User(MAKER), ASSET_B), 50);
    assert_eq!(e.balance_of(Holder::User(MAKER), ASSET_A), 0);
    assert!(e.get_offer(MAKER, 0).is_none());
    assert!(!e.account_exists(vault(MAKER, 0), ASSET_A));
}

#[test]
fn cancel_restores_maker() {
    let mut e = Escrow::new();
    e.mint_to(MAKER, ASSET_A, 100).unwrap();
    let id = e.make_offer(MAKER, ASSET_A, ASSET_B, 100, 50).unwrap();
    assert_eq!(id, 0);
    assert_eq!(e.balance_of(Holder::User(MAKER), ASSET_A), 0);

    e.refund_offer(MAKER, MAKER, 0).unwrap();

    assert_eq!(e.balance_of(Holder::User(MAKER), ASSET_A), 100);
    assert!(e.get_offer(MAKER, 0).is_none());
    assert!(!e.account_exists(vault(MAKER, 0), ASSET_A));
}

#[test]
fn open_zero_offered_amount_rejected() {
    let mut e = Escrow::new();
    e.mint_to(MAKER, ASSET_A, 100).unwrap();
    let r = e.make_offer(MAKER, ASSET_A, ASSET_B, 0, 50);
    assert_eq!(r, Err(DealForgeError::InvalidOfferedMintAmount));
    // no counter increment, no offer, no transfer
    assert_eq!(e.next_offer_id(MAKER), 0);
    assert!(e.get_offer(MAKER, 0).is_none());
    assert_eq!(e.balance_of(Holder::User(MAKER), ASSET_A), 100);
    assert!(!e.account_exists(vault(MAKER, 0), ASSET_A));
}

#[test]
fn open_zero_requested_amount_rejected() {
    let mut e = Escrow::new();
    e.mint_to(MAKER, ASSET_A, 100).unwrap();
    let r = e.make_offer(MAKER, ASSET_A, ASSET_B, 100, 0);
    assert_eq!(r, Err(DealForgeError::InvalidRequestedMintAmount));
    assert_eq!(e.next_offer_id(MAKER), 0);
    assert_eq!(e.balance_of(Holder::User(MAKER), ASSET_A), 100);
}

#[test]
fn open_insufficient_balance_rejected() {
    let mut e = Escrow::new();
    e.mint_to(MAKER, ASSET_A, 99).unwrap();
    let r = e.make_offer(MAKER, ASSET_A, ASSET_B, 100, 50);
    assert_eq!(r, Err(DealForgeError::InsufficientBalance));
    assert_eq!(e.next_offer_id(MAKER), 0);
    assert_eq!(e.balance_of(Holder::User(MAKER), ASSET_A), 99);
}

#[test]
fn fulfill_insufficient_taker_rejected() {
    let mut e = Escrow::new();
    e.mint_to(MAKER, ASSET_A, 100).unwrap();
    e.mint_to(TAKER, ASSET_B, 10).unwrap();
    e.make_offer(MAKER, ASSET_A, ASSET_B, 100, 50).unwrap();

    let r = e.take_offer(TAKER, MAKER, 0);
    assert_eq!(r, Err(DealForgeError::InsufficientBalance));
    // no state change
    assert_eq!(e.balance_of(Holder::User(TAKER), ASSET_B), 10);
    assert_eq!(e.balance_of(Holder::User(TAKER), ASSET_A), 0);
    assert_eq!(e.balance_of(vault(MAKER, 0), ASSET_A), 100);
    assert!(e.get_offer(MAKER, 0).is_some());
}

#[test]
fn fulfill_unknown_offer_rejected() {
    let mut e = Escrow::new();
    e.mint_to(TAKER, ASSET_B, 50).unwrap();
    let r = e.take_offer(TAKER, MAKER, 0);
    assert_eq!(r, Err(DealForgeError::OfferNotActive));
}

#[test]
fn settle_at_most_once() {
    let mut e = Escrow::new();
    e.mint_to(MAKER, ASSET_A, 100).unwrap();
    e.mint_to(TAKER, ASSET_B, 100).unwrap();
    e.make_offer(MAKER, ASSET_A, ASSET_B, 100, 50).unwrap();
    e.take_offer(TAKER, MAKER, 0).unwrap();

    let taker_a = e.balance_of(Holder::User(TAKER), ASSET_A);
    let taker_b = e.balance_of(Holder::User(TAKER), ASSET_B);
    let maker_b = e.balance_of(Holder::User(MAKER), ASSET_B);

    // a second fulfill or a late cancel both find no record and move nothing
    assert_eq!(e.take_offer(TAKER, MAKER, 0), Err(DealForgeError::OfferNotActive));
    assert_eq!(e.refund_offer(MAKER, MAKER, 0), Err(DealForgeError::OfferNotActive));
    assert_eq!(e.balance_of(Holder::User(TAKER), ASSET_A), taker_a);
    assert_eq!(e.balance_of(Holder::User(TAKER), ASSET_B), taker_b);
    assert_eq!(e.balance_of(Holder::User(MAKER), ASSET_B), maker_b);
}

#[test]
fn cancel_then_settle_rejected() {
    let mut e = Escrow::new();
    e.mint_to(MAKER, ASSET_A, 100).unwrap();
    e.mint_to(TAKER, ASSET_B, 50).unwrap();
    e.make_offer(MAKER, ASSET_A, ASSET_B, 100, 50).unwrap();
    e.refund_offer(MAKER, MAKER, 0).unwrap();

    assert_eq!(e.refund_offer(MAKER, MAKER, 0), Err(DealForgeError::OfferNotActive));
    assert_eq!(e.take_offer(TAKER, MAKER, 0), Err(DealForgeError::OfferNotActive));
    assert_eq!(e.balance_of(Holder::User(MAKER), ASSET_A), 100);
    assert_eq!(e.balance_of(Holder::User(TAKER), ASSET_B), 50);
}

#[test]
fn cancel_by_stranger_rejected() {
    let mut e = Escrow::new();
    e.mint_to(MAKER, ASSET_A, 100).unwrap();
    e.make_offer(MAKER, ASSET_A, ASSET_B, 100, 50).unwrap();

    let r = e.refund_offer(STRANGER, MAKER, 0);
    assert_eq!(r, Err(DealForgeError::UnauthorizedMaker));
    // balances untouched, offer still live
    assert_eq!(e.balance_of(vault(MAKER, 0), ASSET_A), 100);
    assert_eq!(e.balance_of(Holder::User(MAKER), ASSET_A), 0);
    assert_eq!(e.balance_of(Holder::User(STRANGER), ASSET_A), 0);
    assert!(e.get_offer(MAKER, 0).is_some());

    // the rightful maker still can
    e.refund_offer(MAKER, MAKER, 0).unwrap();
    assert_eq!(e.balance_of(Holder::User(MAKER), ASSET_A), 100);
}

#[test]
fn identifiers_never_reused() {
    let mut e = Escrow::new();
    e.mint_to(MAKER, ASSET_A, 300).unwrap();

    assert_eq!(e.make_offer(MAKER, ASSET_A, ASSET_B, 100, 50), Ok(0));
    assert_eq!(e.make_offer(MAKER, ASSET_A, ASSET_B, 100, 50), Ok(1));
    assert_eq!(e.next_offer_id(MAKER), 2);

    // canceling an earlier offer does not free its identifier
    e.refund_offer(MAKER, MAKER, 0).unwrap();
    assert_eq!(e.make_offer(MAKER, ASSET_A, ASSET_B, 100, 50), Ok(2));
    assert_eq!(e.next_offer_id(MAKER), 3);

    // counters are per maker
    assert_eq!(e.next_offer_id(TAKER), 0);
}

#[test]
fn maker_can_fulfill_own_offer() {
    let mut e = Escrow::new();
    e.mint_to(MAKER, ASSET_A, 100).unwrap();
    e.mint_to(MAKER, ASSET_B, 50).unwrap();
    e.make_offer(MAKER, ASSET_A, ASSET_B, 100, 50).unwrap();

    e.take_offer(MAKER, MAKER, 0).unwrap();

    // the payment leg is a self-transfer; the locked funds come back
    assert_eq!(e.balance_of(Holder::User(MAKER), ASSET_A), 100);
    assert_eq!(e.balance_of(Holder::User(MAKER), ASSET_B), 50);
    assert!(e.get_offer(MAKER, 0).is_none());
    assert!(!e.account_exists(vault(MAKER, 0), ASSET_A));
}

#[test]
fn mint_overflow_rejected() {
    let mut e = Escrow::new();
    e.mint_to(MAKER, ASSET_A, u64::MAX).unwrap();
    let r = e.mint_to(MAKER, ASSET_A, 1);
    assert_eq!(r, Err(DealForgeError::CalculationOverflow));
    assert_eq!(e.balance_of(Holder::User(MAKER), ASSET_A), u64::MAX);
}

#[test]
fn fulfill_payment_overflow_rejected() {
    let mut e = Escrow::new();
    e.mint_to(MAKER, ASSET_A, 100).unwrap();
    e.mint_to(MAKER, ASSET_B, u64::MAX).unwrap();
    e.mint_to(TAKER, ASSET_B, 50).unwrap();
    e.make_offer(MAKER, ASSET_A, ASSET_B, 100, 50).unwrap();

    // crediting the maker's requested-asset account would overflow
    let r = e.take_offer(TAKER, MAKER, 0);
    assert_eq!(r, Err(DealForgeError::CalculationOverflow));
    assert_eq!(e.balance_of(Holder::User(TAKER), ASSET_B), 50);
    assert_eq!(e.balance_of(vault(MAKER, 0), ASSET_A), 100);
    assert!(e.get_offer(MAKER, 0).is_some());
}

#[test]
fn same_asset_offer_swaps_consistently() {
    // an offer may ask for the same asset it offers
    let mut e = Escrow::new();
    e.mint_to(MAKER, ASSET_A, 100).unwrap();
    e.mint_to(TAKER, ASSET_A, 30).unwrap();
    e.make_offer(MAKER, ASSET_A, ASSET_A, 100, 30).unwrap();

    e.take_offer(TAKER, MAKER, 0).unwrap();

    assert_eq!(e.balance_of(Holder::User(TAKER), ASSET_A), 100);
    assert_eq!(e.balance_of(Holder::User(MAKER), ASSET_A), 30);
    assert!(e.get_offer(MAKER, 0).is_none());
}
