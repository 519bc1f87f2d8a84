//! Creating an offer: validation, custody funding, and the saved record.
//!
//! Validation order is part of the contract, so failures are deterministic:
//! amounts first, expiry second, funding last. The operation is all or
//! nothing — on any failure the state is untouched, and on success the
//! maker's wallet is debited, the vault is created holding exactly the
//! offered amount, and the record is saved, in one indivisible step.

use vstd::prelude::*;

use crate::errors::SwapError;
use crate::escrow::Escrow;
use crate::ledger::{bal, map_transfer, vault, wallet, AccountId, Ledger};
use crate::state::{has_offer_key, offers_map, offers_ok, lemma_offers_map_push, Offer};

verus! {

/// The least distance, in seconds, between creation time and expiry.
pub const MIN_EXPIRY_SECS: i64 = 3600;

/// The largest representable timestamp.
pub const MAX_TIMESTAMP: i64 = 0x7fff_ffff_ffff_ffff;

/// Whether a requested deadline is acceptable at creation time `now`:
/// it must lie at least one hour ahead.
pub open spec fn expiry_ok(expires_at: i64, now: i64) -> bool {
    expires_at >= now + MIN_EXPIRY_SECS
}

/// The parties and asset mints taking part in an offer creation.
#[derive(Clone, Copy, Debug, PartialEq, Eq, Structural)]
pub struct MakeOffer {
    /// The authenticated creator, who funds the custody vault with asset A.
    pub maker: u64,
    /// The asset the maker offers.
    pub token_mint_a: u64,
    /// The asset the maker wants in return.
    pub token_mint_b: u64,
}

/// The record an accepted creation request persists.
pub open spec fn made_offer(
    ctx: MakeOffer,
    id: u64,
    token_a_offered_amount: u64,
    token_b_wanted_amount: u64,
    expires_at: i64,
) -> Offer {
    Offer {
        id,
        maker: ctx.maker,
        token_mint_a: ctx.token_mint_a,
        token_mint_b: ctx.token_mint_b,
        token_a_offered_amount,
        token_b_wanted_amount,
        expires_at,
        bump: 0,
    }
}

/// Funds the custody vault of the offer keyed by `(maker, id)`: debits the
/// maker's asset-A wallet by the offered amount and credits the vault,
/// creating it if absent. Fails with `InsufficientBalance`, leaving the
/// ledger untouched, exactly when the maker cannot cover the amount.
pub fn send_offered_tokens_to_vault(
    ledger: &mut Ledger,
    maker: u64,
    id: u64,
    token_mint_a: u64,
    token_a_offered_amount: u64,
) -> (r: Result<(), SwapError>)
    requires
        old(ledger).wf(),
    ensures
        final(ledger).wf(),
        r == if bal(old(ledger).balances(), wallet(maker, token_mint_a))
            >= token_a_offered_amount && old(ledger).balances().contains_key(
            wallet(maker, token_mint_a),
        ) {
            Ok::<(), SwapError>(())
        } else {
            Err::<(), SwapError>(SwapError::InsufficientBalance)
        },
        r is Ok ==> final(ledger).balances() == map_transfer(
            old(ledger).balances(),
            wallet(maker, token_mint_a),
            vault(maker, id),
            token_a_offered_amount,
        ),
        r is Err ==> *final(ledger) == *old(ledger),
        final(ledger).total == old(ledger).total,
{
    ledger.transfer_tokens(
        AccountId::Wallet { owner: maker, mint: token_mint_a },
        AccountId::Vault { maker, offer_id: id },
        token_a_offered_amount,
    )
}

/// Persists a freshly validated record in the store of open offers.
pub fn save_offer(offers: &mut Vec<Offer>, offer: Offer)
    requires
        offers_ok(old(offers)@),
        offer.valid(),
        !has_offer_key(old(offers)@, offer.maker, offer.id),
    ensures
        offers_ok(final(offers)@),
        final(offers)@ == old(offers)@.push(offer),
        offers_map(final(offers)@) == offers_map(old(offers)@).insert(offer.key(), offer),
{
    proof {
        lemma_offers_map_push(offers@, offer);
    }
    offers.push(offer);
}

impl Escrow {
    /// Creates an offer: the maker locks `token_a_offered_amount` units of
    /// asset A in a fresh custody vault and asks `token_b_wanted_amount`
    /// units of asset B in return, with the deadline `expires_at`.
    ///
    /// Rejects, in this order and leaving the state untouched: zero amounts
    /// (`InvalidAmounts`), a deadline under one hour ahead (`ExpiryTooSoon`),
    /// and a maker wallet that cannot cover the offered amount
    /// (`InsufficientBalance`). Every other input succeeds: the maker's
    /// asset-A wallet is debited by exactly the offered amount, the vault is
    /// created holding exactly that amount, the record is saved, and the
    /// total supply is conserved.
    pub fn make_offer(
        &mut self,
        ctx: MakeOffer,
        id: u64,
        token_a_offered_amount: u64,
        token_b_wanted_amount: u64,
        expires_at: i64,
        now: i64,
    ) -> (r: Result<(), SwapError>)
        requires
            old(self).wf(),
            !old(self).spec_has_offer(ctx.maker, id),
        ensures
            final(self).wf(),
            r is Err ==> *final(self) == *old(self),
            (token_a_offered_amount == 0 || token_b_wanted_amount == 0) ==> r == Err::<
                (),
                SwapError,
            >(SwapError::InvalidAmounts),
            (token_a_offered_amount > 0 && token_b_wanted_amount > 0 && !expiry_ok(
                expires_at,
                now,
            )) ==> r == Err::<(), SwapError>(SwapError::ExpiryTooSoon),
            (token_a_offered_amount > 0 && token_b_wanted_amount > 0 && expiry_ok(expires_at, now)
                && old(self).spec_bal(wallet(ctx.maker, ctx.token_mint_a))
                < token_a_offered_amount) ==> r == Err::<(), SwapError>(
                SwapError::InsufficientBalance,
            ),
            (token_a_offered_amount > 0 && token_b_wanted_amount > 0 && expiry_ok(expires_at, now)
                && old(self).spec_bal(wallet(ctx.maker, ctx.token_mint_a))
                >= token_a_offered_amount) ==> r == Ok::<(), SwapError>(()),
            r is Ok ==> final(self).open_offers() == old(self).open_offers().insert(
                (ctx.maker, id),
                made_offer(ctx, id, token_a_offered_amount, token_b_wanted_amount, expires_at),
            ),
            r is Ok ==> final(self).balances() == map_transfer(
                old(self).balances(),
                wallet(ctx.maker, ctx.token_mint_a),
                vault(ctx.maker, id),
                token_a_offered_amount,
            ),
            r is Ok ==> final(self).spec_has_offer(ctx.maker, id),
            r is Ok ==> final(self).spec_offer(ctx.maker, id) == made_offer(
                ctx,
                id,
                token_a_offered_amount,
                token_b_wanted_amount,
                expires_at,
            ),
            r is Ok ==> final(self).spec_bal(vault(ctx.maker, id)) == token_a_offered_amount,
            r is Ok ==> final(self).spec_bal(wallet(ctx.maker, ctx.token_mint_a)) == old(
                self,
            ).spec_bal(wallet(ctx.maker, ctx.token_mint_a)) - token_a_offered_amount,
            final(self).spec_total() == old(self).spec_total(),
    {
        if token_a_offered_amount == 0 || token_b_wanted_amount == 0 {
            return Err(SwapError::InvalidAmounts);
        }
        // When `now` is within an hour of the end of time, every
        // representable deadline is too soon.
        if now > MAX_TIMESTAMP - MIN_EXPIRY_SECS || expires_at < now + MIN_EXPIRY_SECS {
            return Err(SwapError::ExpiryTooSoon);
        }
        let ghost m0 = self.ledger.balances();
        let ghost offers0 = self.offers@;
        match send_offered_tokens_to_vault(
            &mut self.ledger,
            ctx.maker,
            id,
            ctx.token_mint_a,
            token_a_offered_amount,
        ) {
            Ok(()) => {},
            Err(e) => {
                return Err(e);
            },
        }
        let offer = Offer {
            id,
            maker: ctx.maker,
            token_mint_a: ctx.token_mint_a,
            token_mint_b: ctx.token_mint_b,
            token_a_offered_amount,
            token_b_wanted_amount,
            expires_at,
            bump: 0,
        };
        proof {
            // The vault cannot predate its offer: a well-formed state has no
            // orphan vault account.
            assert(!m0.contains_key(vault(ctx.maker, id)));
            assert(self.ledger.balances()[vault(ctx.maker, id)] == token_a_offered_amount);
        }
        save_offer(&mut self.offers, offer);
        proof {
            let w = wallet(ctx.maker, ctx.token_mint_a);
            let v = vault(ctx.maker, id);
            assert forall|i: int| 0 <= i < self.offers@.len() implies {
                let o = #[trigger] self.offers@[i];
                self.ledger.balances().contains_key(vault(o.maker, o.id))
                    && self.ledger.balances()[vault(o.maker, o.id)] == o.token_a_offered_amount
            } by {
                let o = self.offers@[i];
                if i < offers0.len() {
                    assert(o == offers0[i]);
                    assert(vault(o.maker, o.id) != w);
                    assert(o.key() != (ctx.maker, id)) by {
                        if o.key() == (ctx.maker, id) {
                            assert(has_offer_key(offers0, ctx.maker, id));
                        }
                    }
                    assert(vault(o.maker, o.id) != v);
                } else {
                    assert(o == offer);
                }
            }
            assert forall|a: AccountId| #[trigger] self.ledger.balances().contains_key(a) implies (
            a matches AccountId::Vault { maker, offer_id } ==> has_offer_key(
                self.offers@,
                maker,
                offer_id,
            )) by {
                if a != w && a != v {
                    assert(m0.contains_key(a));
                    match a {
                        AccountId::Vault { maker, offer_id } => {
                            assert(has_offer_key(offers0, maker, offer_id));
                            let x = choose|x: int|
                                0 <= x < offers0.len() && offers0[x].key() == (maker, offer_id);
                            assert(self.offers@[x].key() == (maker, offer_id));
                        },
                        _ => {},
                    }
                } else if a == v {
                    assert(self.offers@[offers0.len() as int].key() == (ctx.maker, id));
                }
            }
            assert(self.offers@[offers0.len() as int].key() == (ctx.maker, id));
            assert(self.spec_has_offer(ctx.maker, id));
            let j = crate::state::offer_index(self.offers@, ctx.maker, id);
            assert(0 <= j < self.offers@.len() && self.offers@[j].key() == (ctx.maker, id));
            if j != offers0.len() as int {
                assert(offers0[j].key() == (ctx.maker, id));
                assert(has_offer_key(offers0, ctx.maker, id));
                assert(false);
            }
            assert(self.spec_offer(ctx.maker, id) == offer);
        }
        Ok(())
    }
}

} // verus!
