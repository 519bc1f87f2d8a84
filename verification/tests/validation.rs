use solana_swap::errors::SwapError;
use solana_swap::escrow::Escrow;
use solana_swap::make_offer::MakeOffer;

const MAKER: u64 = 1;
const MINT_A: u64 = 10;
const MINT_B: u64 = 20;

fn funded_escrow() -> Escrow {
    let mut e = Escrow::new();
    assert!(e.mint_to(MAKER, MINT_A, 1_000));
    e
}

fn make_ctx() -> MakeOffer {
    MakeOffer { maker: MAKER, token_mint_a: MINT_A, token_mint_b: MINT_B }
}

#[test]
fn zero_offered_amount_is_rejected() {
    let mut e = funded_escrow();
    let r = e.make_offer(make_ctx(), 1, 0, 50, 7_200, 0);
    assert_eq!(r, Err(SwapError::InvalidAmounts));
    assert!(!e.has_offer(MAKER, 1));
    assert!(!e.vault_exists(MAKER, 1));
    assert_eq!(e.balance_of(MAKER, MINT_A), 1_000);
}

#[test]
fn zero_wanted_amount_is_rejected() {
    let mut e = funded_escrow();
    let r = e.make_offer(make_ctx(), 1, 100, 0, 7_200, 0);
    assert_eq!(r, Err(SwapError::InvalidAmounts));
    assert!(!e.has_offer(MAKER, 1));
    assert!(!e.vault_exists(MAKER, 1));
}

#[test]
fn amount_validation_comes_before_expiry_validation() {
    let mut e = funded_escrow();
    // Both checks would fail; the amounts are reported first.
    let r = e.make_offer(make_ctx(), 1, 0, 0, 0, 0);
    assert_eq!(r, Err(SwapError::InvalidAmounts));
}

#[test]
fn expiry_under_one_hour_ahead_is_rejected() {
    let mut e = funded_escrow();
    let now = 1_000_000;
    let r = e.make_offer(make_ctx(), 1, 100, 50, now + 3_599, now);
    assert_eq!(r, Err(SwapError::ExpiryTooSoon));
    assert!(!e.has_offer(MAKER, 1));
    assert_eq!(e.balance_of(MAKER, MINT_A), 1_000);
}

#[test]
fn expiry_exactly_one_hour_ahead_is_accepted() {
    let mut e = funded_escrow();
    let now = 1_000_000;
    let r = e.make_offer(make_ctx(), 1, 100, 50, now + 3_600, now);
    assert_eq!(r, Ok(()));
}

#[test]
fn expiry_near_the_end_of_time_is_rejected() {
    let mut e = funded_escrow();
    // No representable deadline lies an hour past this creation time.
    let now = i64::MAX - 10;
    let r = e.make_offer(make_ctx(), 1, 100, 50, i64::MAX, now);
    assert_eq!(r, Err(SwapError::ExpiryTooSoon));
}

#[test]
fn underfunded_maker_is_rejected_untouched() {
    let mut e = funded_escrow();
    let r = e.make_offer(make_ctx(), 1, 1_001, 50, 7_200, 0);
    assert_eq!(r, Err(SwapError::InsufficientBalance));
    assert!(!e.has_offer(MAKER, 1));
    assert!(!e.vault_exists(MAKER, 1));
    assert_eq!(e.balance_of(MAKER, MINT_A), 1_000);
}

#[test]
fn maker_without_a_wallet_is_rejected() {
    let mut e = Escrow::new();
    let r = e.make_offer(make_ctx(), 1, 100, 50, 7_200, 0);
    assert_eq!(r, Err(SwapError::InsufficientBalance));
}

#[test]
fn maker_can_offer_their_whole_balance() {
    let mut e = funded_escrow();
    let r = e.make_offer(make_ctx(), 1, 1_000, 50, 7_200, 0);
    assert_eq!(r, Ok(()));
    assert_eq!(e.balance_of(MAKER, MINT_A), 0);
    assert_eq!(e.vault_balance(MAKER, 1), 1_000);
}

#[test]
fn minting_beyond_the_supply_cap_fails_untouched() {
    let mut e = Escrow::new();
    assert!(e.mint_to(MAKER, MINT_A, u64::MAX - 5));
    assert!(!e.mint_to(MAKER, MINT_A, 6));
    assert_eq!(e.balance_of(MAKER, MINT_A), u64::MAX - 5);
    assert!(e.mint_to(MAKER, MINT_A, 5));
    assert_eq!(e.balance_of(MAKER, MINT_A), u64::MAX);
    assert_eq!(e.total_supply(), u64::MAX);
}

#[test]
fn error_messages_name_their_cause() {
    assert!(SwapError::OfferExpired.message().contains("expired"));
    assert!(SwapError::UnauthorizedCancel.message().contains("maker"));
    assert!(SwapError::ExpiryTooSoon.message().contains("1 hour"));
    assert!(SwapError::InvalidAmounts.message().contains("greater than 0"));
    assert!(SwapError::InsufficientBalance.message().contains("Insufficient"));
    assert!(SwapError::NotFound.message().contains("not found"));
}
