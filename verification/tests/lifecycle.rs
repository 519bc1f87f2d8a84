use solana_swap::cancel_offer::CancelOffer;
use solana_swap::errors::SwapError;
use solana_swap::escrow::Escrow;
use solana_swap::make_offer::MakeOffer;
use solana_swap::take_offer::TakeOffer;

const MAKER: u64 = 1;
const TAKER: u64 = 2;
const MINT_A: u64 = 10;
const MINT_B: u64 = 20;

fn funded_escrow() -> Escrow {
    let mut e = Escrow::new();
    assert!(e.mint_to(MAKER, MINT_A, 1_000));
    assert!(e.mint_to(TAKER, MINT_B, 500));
    e
}

fn make_ctx() -> MakeOffer {
    MakeOffer { maker: MAKER, token_mint_a: MINT_A, token_mint_b: MINT_B }
}

#[test]
fn create_funds_vault_and_debits_maker() {
    let mut e = funded_escrow();
    let r = e.make_offer(make_ctx(), 1, 100, 50, 7_200, 0);
    assert_eq!(r, Ok(()));
    assert_eq!(e.vault_balance(MAKER, 1), 100);
    assert!(e.vault_exists(MAKER, 1));
    assert_eq!(e.balance_of(MAKER, MINT_A), 900);
    let offer = e.get_offer(MAKER, 1).expect("offer should be open");
    assert_eq!(offer.id, 1);
    assert_eq!(offer.maker, MAKER);
    assert_eq!(offer.token_mint_a, MINT_A);
    assert_eq!(offer.token_mint_b, MINT_B);
    assert_eq!(offer.token_a_offered_amount, 100);
    assert_eq!(offer.token_b_wanted_amount, 50);
    assert_eq!(offer.expires_at, 7_200);
}

#[test]
fn take_settles_both_legs() {
    let mut e = funded_escrow();
    assert_eq!(e.make_offer(make_ctx(), 1, 100, 50, 7_200, 0), Ok(()));
    let r = e.take_offer(TakeOffer { taker: TAKER, maker: MAKER, id: 1 }, 100);
    assert_eq!(r, Ok(()));
    assert_eq!(e.balance_of(TAKER, MINT_B), 450);
    assert_eq!(e.balance_of(MAKER, MINT_B), 50);
    assert_eq!(e.balance_of(TAKER, MINT_A), 100);
    assert_eq!(e.balance_of(MAKER, MINT_A), 900);
    assert!(!e.has_offer(MAKER, 1));
    assert!(!e.vault_exists(MAKER, 1));
    assert_eq!(e.get_offer(MAKER, 1), None);
}

#[test]
fn take_at_the_deadline_still_succeeds() {
    let mut e = funded_escrow();
    assert_eq!(e.make_offer(make_ctx(), 1, 100, 50, 7_200, 0), Ok(()));
    let r = e.take_offer(TakeOffer { taker: TAKER, maker: MAKER, id: 1 }, 7_200);
    assert_eq!(r, Ok(()));
}

#[test]
fn take_after_expiry_leaves_everything_untouched() {
    let mut e = funded_escrow();
    assert_eq!(e.make_offer(make_ctx(), 1, 100, 50, 7_200, 0), Ok(()));
    let r = e.take_offer(TakeOffer { taker: TAKER, maker: MAKER, id: 1 }, 7_201);
    assert_eq!(r, Err(SwapError::OfferExpired));
    assert!(e.has_offer(MAKER, 1));
    assert_eq!(e.vault_balance(MAKER, 1), 100);
    assert_eq!(e.balance_of(TAKER, MINT_B), 500);
    assert_eq!(e.balance_of(MAKER, MINT_B), 0);
}

#[test]
fn take_with_insufficient_payment_leaves_everything_untouched() {
    let mut e = funded_escrow();
    assert_eq!(e.make_offer(make_ctx(), 1, 100, 600, 7_200, 0), Ok(()));
    let r = e.take_offer(TakeOffer { taker: TAKER, maker: MAKER, id: 1 }, 100);
    assert_eq!(r, Err(SwapError::InsufficientBalance));
    assert!(e.has_offer(MAKER, 1));
    assert_eq!(e.vault_balance(MAKER, 1), 100);
    assert_eq!(e.balance_of(TAKER, MINT_B), 500);
}

#[test]
fn cancel_by_maker_before_expiry_returns_funds() {
    let mut e = funded_escrow();
    assert_eq!(e.make_offer(make_ctx(), 1, 100, 50, 7_200, 0), Ok(()));
    let r = e.cancel_offer(CancelOffer { caller: MAKER, maker: MAKER, id: 1 }, 100);
    assert_eq!(r, Ok(()));
    assert_eq!(e.balance_of(MAKER, MINT_A), 1_000);
    assert!(!e.has_offer(MAKER, 1));
    assert!(!e.vault_exists(MAKER, 1));
}

#[test]
fn cancel_by_stranger_before_expiry_is_unauthorized() {
    let mut e = funded_escrow();
    assert_eq!(e.make_offer(make_ctx(), 1, 100, 50, 7_200, 0), Ok(()));
    let r = e.cancel_offer(CancelOffer { caller: TAKER, maker: MAKER, id: 1 }, 100);
    assert_eq!(r, Err(SwapError::UnauthorizedCancel));
    assert!(e.has_offer(MAKER, 1));
    assert_eq!(e.vault_balance(MAKER, 1), 100);
    // The boundary instant still counts as before expiry.
    let r = e.cancel_offer(CancelOffer { caller: TAKER, maker: MAKER, id: 1 }, 7_200);
    assert_eq!(r, Err(SwapError::UnauthorizedCancel));
}

#[test]
fn cancel_by_stranger_after_expiry_returns_funds_to_maker() {
    let mut e = funded_escrow();
    assert_eq!(e.make_offer(make_ctx(), 1, 100, 50, 7_200, 0), Ok(()));
    let r = e.cancel_offer(CancelOffer { caller: TAKER, maker: MAKER, id: 1 }, 7_201);
    assert_eq!(r, Ok(()));
    assert_eq!(e.balance_of(MAKER, MINT_A), 1_000);
    assert_eq!(e.balance_of(TAKER, MINT_A), 0);
    assert!(!e.has_offer(MAKER, 1));
}

#[test]
fn settled_offer_cannot_be_taken_or_cancelled_again() {
    let mut e = funded_escrow();
    assert_eq!(e.make_offer(make_ctx(), 1, 100, 50, 7_200, 0), Ok(()));
    assert_eq!(e.take_offer(TakeOffer { taker: TAKER, maker: MAKER, id: 1 }, 100), Ok(()));
    let taker_a = e.balance_of(TAKER, MINT_A);
    let maker_b = e.balance_of(MAKER, MINT_B);
    assert_eq!(
        e.take_offer(TakeOffer { taker: TAKER, maker: MAKER, id: 1 }, 100),
        Err(SwapError::NotFound)
    );
    assert_eq!(
        e.cancel_offer(CancelOffer { caller: MAKER, maker: MAKER, id: 1 }, 100),
        Err(SwapError::NotFound)
    );
    // No balance moved twice.
    assert_eq!(e.balance_of(TAKER, MINT_A), taker_a);
    assert_eq!(e.balance_of(MAKER, MINT_B), maker_b);
}

#[test]
fn cancelled_offer_cannot_be_taken_or_cancelled_again() {
    let mut e = funded_escrow();
    assert_eq!(e.make_offer(make_ctx(), 1, 100, 50, 7_200, 0), Ok(()));
    assert_eq!(e.cancel_offer(CancelOffer { caller: MAKER, maker: MAKER, id: 1 }, 100), Ok(()));
    assert_eq!(
        e.cancel_offer(CancelOffer { caller: MAKER, maker: MAKER, id: 1 }, 100),
        Err(SwapError::NotFound)
    );
    assert_eq!(
        e.take_offer(TakeOffer { taker: TAKER, maker: MAKER, id: 1 }, 100),
        Err(SwapError::NotFound)
    );
    assert_eq!(e.balance_of(MAKER, MINT_A), 1_000);
}

#[test]
fn create_then_cancel_restores_maker_exactly() {
    let mut e = funded_escrow();
    let before = e.balance_of(MAKER, MINT_A);
    let supply = e.total_supply();
    assert_eq!(e.make_offer(make_ctx(), 9, 777, 5, 100_000, 42), Ok(()));
    assert_eq!(e.cancel_offer(CancelOffer { caller: MAKER, maker: MAKER, id: 9 }, 50), Ok(()));
    assert_eq!(e.balance_of(MAKER, MINT_A), before);
    assert_eq!(e.total_supply(), supply);
    assert!(!e.vault_exists(MAKER, 9));
}

#[test]
fn maker_can_take_their_own_offer() {
    let mut e = Escrow::new();
    assert!(e.mint_to(MAKER, MINT_A, 300));
    assert!(e.mint_to(MAKER, MINT_B, 80));
    assert_eq!(e.make_offer(make_ctx(), 3, 200, 60, 9_000, 0), Ok(()));
    let r = e.take_offer(TakeOffer { taker: MAKER, maker: MAKER, id: 3 }, 10);
    assert_eq!(r, Ok(()));
    // Paying oneself nets out; the custodied A comes back.
    assert_eq!(e.balance_of(MAKER, MINT_A), 300);
    assert_eq!(e.balance_of(MAKER, MINT_B), 80);
    assert!(!e.has_offer(MAKER, 3));
}

#[test]
fn offers_of_different_makers_are_independent() {
    let mut e = Escrow::new();
    assert!(e.mint_to(MAKER, MINT_A, 100));
    assert!(e.mint_to(TAKER, MINT_A, 100));
    assert_eq!(e.make_offer(make_ctx(), 1, 60, 5, 7_200, 0), Ok(()));
    let other = MakeOffer { maker: TAKER, token_mint_a: MINT_A, token_mint_b: MINT_B };
    assert_eq!(e.make_offer(other, 1, 70, 6, 7_200, 0), Ok(()));
    assert_eq!(e.vault_balance(MAKER, 1), 60);
    assert_eq!(e.vault_balance(TAKER, 1), 70);
    assert_eq!(e.cancel_offer(CancelOffer { caller: MAKER, maker: MAKER, id: 1 }, 0), Ok(()));
    // The other maker's offer and vault are untouched.
    assert!(e.has_offer(TAKER, 1));
    assert_eq!(e.vault_balance(TAKER, 1), 70);
    assert_eq!(e.balance_of(MAKER, MINT_A), 100);
}

#[test]
fn total_supply_is_conserved_across_the_lifecycle() {
    let mut e = funded_escrow();
    let supply = e.total_supply();
    assert_eq!(supply, 1_500);
    assert_eq!(e.make_offer(make_ctx(), 1, 100, 50, 7_200, 0), Ok(()));
    assert_eq!(e.total_supply(), supply);
    assert_eq!(e.take_offer(TakeOffer { taker: TAKER, maker: MAKER, id: 1 }, 100), Ok(()));
    assert_eq!(e.total_supply(), supply);
}
