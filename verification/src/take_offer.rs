//! Accepting an offer: the two-phase, strictly ordered exchange.
//!
//! Phase one moves the wanted amount of asset B from the taker to the maker;
//! only once that payment is in place does phase two release the custodied
//! asset A to the taker, close the vault and destroy the record. A failure
//! in phase one leaves the state untouched; phase two cannot fail, because
//! the invariant guarantees the vault holds exactly the offered amount.

use vstd::prelude::*;

use crate::errors::SwapError;
use crate::escrow::Escrow;
use crate::ledger::{bal, map_transfer, vault, wallet, AccountId, Ledger};
use crate::state::{has_offer_key, lemma_offers_map_index, lemma_offers_map_remove, Offer};

verus! {

/// The parties taking part in an acceptance.
#[derive(Clone, Copy, Debug, PartialEq, Eq, Structural)]
pub struct TakeOffer {
    /// The authenticated caller accepting the offer, who pays asset B.
    pub taker: u64,
    /// The offer's creator, receiver of the payment.
    pub maker: u64,
    /// The maker-chosen identifier locating the offer.
    pub id: u64,
}

/// The balance map after a completed acceptance of `o` by `taker`: the
/// wanted amount of B moves from taker to maker, the custodied A moves from
/// the vault to the taker, and the emptied vault is destroyed.
pub open spec fn balances_after_take(m: Map<AccountId, u64>, o: Offer, taker: u64) -> Map<
    AccountId,
    u64,
> {
    map_transfer(
        map_transfer(
            m,
            wallet(taker, o.token_mint_b),
            wallet(o.maker, o.token_mint_b),
            o.token_b_wanted_amount,
        ),
        vault(o.maker, o.id),
        wallet(taker, o.token_mint_a),
        o.token_a_offered_amount,
    ).remove(vault(o.maker, o.id))
}

/// Phase one of the exchange: after checking the deadline, moves the wanted
/// amount of asset B from the taker's wallet to the maker's, creating the
/// maker's wallet if absent. Rejects an expired offer (`OfferExpired`) and a
/// taker who cannot cover the amount (`InsufficientBalance`), leaving the
/// ledger untouched either way.
pub fn send_wanted_tokens_to_maker(ledger: &mut Ledger, offer: &Offer, taker: u64, now: i64) -> (r:
    Result<(), SwapError>)
    requires
        old(ledger).wf(),
    ensures
        final(ledger).wf(),
        now > offer.expires_at ==> r == Err::<(), SwapError>(SwapError::OfferExpired),
        now <= offer.expires_at ==> r == if bal(
            old(ledger).balances(),
            wallet(taker, offer.token_mint_b),
        ) >= offer.token_b_wanted_amount && old(ledger).balances().contains_key(
            wallet(taker, offer.token_mint_b),
        ) {
            Ok::<(), SwapError>(())
        } else {
            Err::<(), SwapError>(SwapError::InsufficientBalance)
        },
        r is Ok ==> final(ledger).balances() == map_transfer(
            old(ledger).balances(),
            wallet(taker, offer.token_mint_b),
            wallet(offer.maker, offer.token_mint_b),
            offer.token_b_wanted_amount,
        ),
        r is Err ==> *final(ledger) == *old(ledger),
        final(ledger).total == old(ledger).total,
        r is Ok && taker != offer.maker ==> bal(
            old(ledger).balances(),
            wallet(offer.maker, offer.token_mint_b),
        ) + offer.token_b_wanted_amount <= u64::MAX,
{
    if now > offer.expires_at {
        return Err(SwapError::OfferExpired);
    }
    ledger.transfer_tokens(
        AccountId::Wallet { owner: taker, mint: offer.token_mint_b },
        AccountId::Wallet { owner: offer.maker, mint: offer.token_mint_b },
        offer.token_b_wanted_amount,
    )
}

/// Phase two of the exchange: releases the whole custodied amount of asset A
/// from the vault to `taker`'s wallet, then destroys the emptied vault. The
/// invariant that the vault holds exactly the offered amount makes this
/// phase infallible.
pub fn withdraw_and_close_vault(ledger: &mut Ledger, offer: &Offer, taker: u64)
    requires
        old(ledger).wf(),
        old(ledger).balances().contains_key(vault(offer.maker, offer.id)),
        old(ledger).balances()[vault(offer.maker, offer.id)] == offer.token_a_offered_amount,
    ensures
        final(ledger).wf(),
        final(ledger).balances() == map_transfer(
            old(ledger).balances(),
            vault(offer.maker, offer.id),
            wallet(taker, offer.token_mint_a),
            offer.token_a_offered_amount,
        ).remove(vault(offer.maker, offer.id)),
        final(ledger).total == old(ledger).total,
        bal(old(ledger).balances(), wallet(taker, offer.token_mint_a))
            + offer.token_a_offered_amount <= u64::MAX,
{
    let v = AccountId::Vault { maker: offer.maker, offer_id: offer.id };
    let w = AccountId::Wallet { owner: taker, mint: offer.token_mint_a };
    match ledger.transfer_tokens(v, w, offer.token_a_offered_amount) {
        Ok(()) => {},
        Err(_) => {
            proof {
                assert(false);
            }
        },
    }
    ledger.close_account(v);
}

impl Escrow {
    /// Accepts the open offer keyed by `(ctx.maker, ctx.id)`: the taker pays
    /// the wanted amount of asset B to the maker and atomically receives the
    /// custodied asset A; the vault and the record are destroyed in the same
    /// step, so no second terminal transition can ever occur.
    ///
    /// Rejects, leaving the state untouched: a missing or already settled
    /// offer (`NotFound`), a deadline in the past (`OfferExpired`), and a
    /// taker who cannot cover the wanted amount (`InsufficientBalance`).
    /// Every other input succeeds, and the total supply is conserved.
    pub fn take_offer(&mut self, ctx: TakeOffer, now: i64) -> (r: Result<(), SwapError>)
        requires
            old(self).wf(),
        ensures
            final(self).wf(),
            r is Err ==> *final(self) == *old(self),
            !old(self).spec_has_offer(ctx.maker, ctx.id) ==> r == Err::<(), SwapError>(
                SwapError::NotFound,
            ),
            old(self).spec_has_offer(ctx.maker, ctx.id) && now > old(self).spec_offer(
                ctx.maker,
                ctx.id,
            ).expires_at ==> r == Err::<(), SwapError>(SwapError::OfferExpired),
            old(self).spec_has_offer(ctx.maker, ctx.id) && now <= old(self).spec_offer(
                ctx.maker,
                ctx.id,
            ).expires_at && old(self).spec_bal(
                wallet(ctx.taker, old(self).spec_offer(ctx.maker, ctx.id).token_mint_b),
            ) < old(self).spec_offer(ctx.maker, ctx.id).token_b_wanted_amount ==> r == Err::<
                (),
                SwapError,
            >(SwapError::InsufficientBalance),
            old(self).spec_has_offer(ctx.maker, ctx.id) && now <= old(self).spec_offer(
                ctx.maker,
                ctx.id,
            ).expires_at && old(self).spec_bal(
                wallet(ctx.taker, old(self).spec_offer(ctx.maker, ctx.id).token_mint_b),
            ) >= old(self).spec_offer(ctx.maker, ctx.id).token_b_wanted_amount ==> r == Ok::<
                (),
                SwapError,
            >(()),
            r is Ok ==> final(self).open_offers() == old(self).open_offers().remove(
                (ctx.maker, ctx.id),
            ),
            r is Ok ==> final(self).balances() == balances_after_take(
                old(self).balances(),
                old(self).spec_offer(ctx.maker, ctx.id),
                ctx.taker,
            ),
            r is Ok ==> !final(self).spec_has_offer(ctx.maker, ctx.id),
            r is Ok ==> !final(self).balances().contains_key(vault(ctx.maker, ctx.id)),
            final(self).spec_total() == old(self).spec_total(),
            r is Ok && old(self).spec_offer(ctx.maker, ctx.id).token_mint_a != old(
                self,
            ).spec_offer(ctx.maker, ctx.id).token_mint_b ==> final(self).spec_bal(
                wallet(ctx.taker, old(self).spec_offer(ctx.maker, ctx.id).token_mint_a),
            ) == old(self).spec_bal(
                wallet(ctx.taker, old(self).spec_offer(ctx.maker, ctx.id).token_mint_a),
            ) + old(self).spec_offer(ctx.maker, ctx.id).token_a_offered_amount,
            r is Ok && ctx.taker != ctx.maker ==> final(self).spec_bal(
                wallet(ctx.maker, old(self).spec_offer(ctx.maker, ctx.id).token_mint_b),
            ) == old(self).spec_bal(
                wallet(ctx.maker, old(self).spec_offer(ctx.maker, ctx.id).token_mint_b),
            ) + old(self).spec_offer(ctx.maker, ctx.id).token_b_wanted_amount,
            r is Ok && ctx.taker != ctx.maker && old(self).spec_offer(
                ctx.maker,
                ctx.id,
            ).token_mint_a != old(self).spec_offer(ctx.maker, ctx.id).token_mint_b
                ==> final(self).spec_bal(
                wallet(ctx.taker, old(self).spec_offer(ctx.maker, ctx.id).token_mint_b),
            )
                == old(self).spec_bal(
                wallet(ctx.taker, old(self).spec_offer(ctx.maker, ctx.id).token_mint_b),
            ) - old(self).spec_offer(ctx.maker, ctx.id).token_b_wanted_amount,
    {
        let idx = match self.find_offer(ctx.maker, ctx.id) {
            Some(i) => i,
            None => {
                return Err(SwapError::NotFound);
            },
        };
        let offer = self.offers[idx];
        proof {
            lemma_offers_map_index(self.offers@, idx as int);
            let j = crate::state::offer_index(self.offers@, ctx.maker, ctx.id);
            assert(0 <= j < self.offers@.len() && self.offers@[j].key() == (ctx.maker, ctx.id));
            if j != idx as int {
                assert(false);
            }
            assert(offer == self.spec_offer(ctx.maker, ctx.id));
            assert(offer.maker == ctx.maker && offer.id == ctx.id);
        }
        let ghost m0 = self.ledger.balances();
        let ghost offers0 = self.offers@;
        match send_wanted_tokens_to_maker(&mut self.ledger, &offer, ctx.taker, now) {
            Ok(()) => {},
            Err(e) => {
                return Err(e);
            },
        }
        proof {
            // Phase one touched wallets only, so the vault still holds
            // exactly the offered amount.
            assert(self.ledger.balances().contains_key(vault(offer.maker, offer.id)));
            assert(self.ledger.balances()[vault(offer.maker, offer.id)]
                == offer.token_a_offered_amount);
        }
        withdraw_and_close_vault(&mut self.ledger, &offer, ctx.taker);
        proof {
            lemma_offers_map_remove(self.offers@, idx as int);
        }
        self.offers.remove(idx);
        proof {
            let wb_t = wallet(ctx.taker, offer.token_mint_b);
            let wb_m = wallet(offer.maker, offer.token_mint_b);
            let wa_t = wallet(ctx.taker, offer.token_mint_a);
            let v = vault(offer.maker, offer.id);
            assert forall|i: int| 0 <= i < self.offers@.len() implies {
                let o = #[trigger] self.offers@[i];
                self.ledger.balances().contains_key(vault(o.maker, o.id))
                    && self.ledger.balances()[vault(o.maker, o.id)] == o.token_a_offered_amount
            } by {
                let o = self.offers@[i];
                let i0 = if i < idx as int {
                    i
                } else {
                    i + 1
                };
                assert(o == offers0[i0]);
                assert(o.key() != (ctx.maker, ctx.id));
                assert(vault(o.maker, o.id) != v);
                assert(m0.contains_key(vault(o.maker, o.id)));
                assert(m0[vault(o.maker, o.id)] == o.token_a_offered_amount);
            }
            assert forall|a: AccountId| #[trigger] self.ledger.balances().contains_key(a) implies (
            a matches AccountId::Vault { maker, offer_id } ==> has_offer_key(
                self.offers@,
                maker,
                offer_id,
            )) by {
                match a {
                    AccountId::Vault { maker, offer_id } => {
                        assert(a != v);
                        assert(m0.contains_key(a));
                        assert(has_offer_key(offers0, maker, offer_id));
                        let x = choose|x: int|
                            0 <= x < offers0.len() && offers0[x].key() == (maker, offer_id);
                        assert(x != idx as int);
                        if x < idx as int {
                            assert(self.offers@[x].key() == (maker, offer_id));
                        } else {
                            assert(self.offers@[x - 1].key() == (maker, offer_id));
                        }
                    },
                    _ => {},
                }
            }
            let m1 = map_transfer(m0, wb_t, wb_m, offer.token_b_wanted_amount);
            let m2 = map_transfer(m1, v, wa_t, offer.token_a_offered_amount);
            assert(self.ledger.balances() == m2.remove(v));
            if offer.token_mint_a != offer.token_mint_b {
                assert(wa_t != wb_t && wa_t != wb_m && wa_t != v);
                assert(bal(m1, wa_t) == bal(m0, wa_t));
                assert(bal(m2, wa_t) == bal(m0, wa_t) + offer.token_a_offered_amount);
                assert(bal(self.ledger.balances(), wa_t) == bal(m0, wa_t)
                    + offer.token_a_offered_amount);
            }
            if ctx.taker != ctx.maker {
                assert(wb_t != wb_m && wa_t != wb_m && v != wb_m);
                assert(bal(m1, wb_m) == bal(m0, wb_m) + offer.token_b_wanted_amount);
                assert(bal(self.ledger.balances(), wb_m) == bal(m0, wb_m)
                    + offer.token_b_wanted_amount);
                if offer.token_mint_a != offer.token_mint_b {
                    assert(bal(m1, wb_t) == bal(m0, wb_t) - offer.token_b_wanted_amount);
                    assert(bal(self.ledger.balances(), wb_t) == bal(m0, wb_t)
                        - offer.token_b_wanted_amount);
                }
            }
        }
        Ok(())
    }
}

} // verus!
