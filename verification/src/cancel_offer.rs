//! Cancelling an offer: the authorization-gated return path.
//!
//! The maker may cancel an open offer at any time; once the deadline has
//! passed, anyone may. Cancellation releases the custodied asset A back to
//! the maker, destroys the emptied vault and the record in the same step,
//! and is the sole path by which a stale, unaccepted offer returns funds.

use vstd::prelude::*;

use crate::errors::SwapError;
use crate::escrow::Escrow;
use crate::ledger::{bal, map_transfer, vault, wallet, AccountId, Ledger};
use crate::state::{has_offer_key, lemma_offers_map_index, lemma_offers_map_remove, Offer};
use crate::take_offer::withdraw_and_close_vault;

verus! {

/// The parties taking part in a cancellation.
#[derive(Clone, Copy, Debug, PartialEq, Eq, Structural)]
pub struct CancelOffer {
    /// The authenticated caller asking for the cancellation.
    pub caller: u64,
    /// The offer's creator, receiver of the returned funds.
    pub maker: u64,
    /// The maker-chosen identifier locating the offer.
    pub id: u64,
}

/// The balance map after a completed cancellation of `o`: the custodied
/// asset A returns from the vault to the maker's wallet, and the emptied
/// vault is destroyed.
pub open spec fn balances_after_cancel(m: Map<AccountId, u64>, o: Offer) -> Map<AccountId, u64> {
    map_transfer(
        m,
        vault(o.maker, o.id),
        wallet(o.maker, o.token_mint_a),
        o.token_a_offered_amount,
    ).remove(vault(o.maker, o.id))
}

/// Whether `caller` may cancel `o` at time `now`: the maker always may,
/// anyone else only once the deadline has passed.
pub open spec fn may_cancel(o: Offer, caller: u64, now: i64) -> bool {
    caller == o.maker || now > o.expires_at
}

impl Escrow {
    /// Cancels the open offer keyed by `(ctx.maker, ctx.id)`: returns the
    /// custodied asset A to the maker and destroys the vault and the record
    /// in the same step.
    ///
    /// Rejects, leaving the state untouched: a missing or already settled
    /// offer (`NotFound`), and a caller other than the maker before expiry
    /// (`UnauthorizedCancel`). Every authorized call succeeds: the maker's
    /// asset-A wallet grows by exactly the offered amount, and the total
    /// supply is conserved.
    pub fn cancel_offer(&mut self, ctx: CancelOffer, now: i64) -> (r: Result<(), SwapError>)
        requires
            old(self).wf(),
        ensures
            final(self).wf(),
            r is Err ==> *final(self) == *old(self),
            !old(self).spec_has_offer(ctx.maker, ctx.id) ==> r == Err::<(), SwapError>(
                SwapError::NotFound,
            ),
            old(self).spec_has_offer(ctx.maker, ctx.id) && !may_cancel(
                old(self).spec_offer(ctx.maker, ctx.id),
                ctx.caller,
                now,
            ) ==> r == Err::<(), SwapError>(SwapError::UnauthorizedCancel),
            old(self).spec_has_offer(ctx.maker, ctx.id) && may_cancel(
                old(self).spec_offer(ctx.maker, ctx.id),
                ctx.caller,
                now,
            ) ==> r == Ok::<(), SwapError>(()),
            r is Ok ==> final(self).open_offers() == old(self).open_offers().remove(
                (ctx.maker, ctx.id),
            ),
            r is Ok ==> final(self).balances() == balances_after_cancel(
                old(self).balances(),
                old(self).spec_offer(ctx.maker, ctx.id),
            ),
            r is Ok ==> !final(self).spec_has_offer(ctx.maker, ctx.id),
            r is Ok ==> !final(self).balances().contains_key(vault(ctx.maker, ctx.id)),
            r is Ok ==> final(self).spec_bal(
                wallet(ctx.maker, old(self).spec_offer(ctx.maker, ctx.id).token_mint_a),
            ) == old(self).spec_bal(
                wallet(ctx.maker, old(self).spec_offer(ctx.maker, ctx.id).token_mint_a),
            ) + old(self).spec_offer(ctx.maker, ctx.id).token_a_offered_amount,
            final(self).spec_total() == old(self).spec_total(),
    {
        let idx = match self.find_offer(ctx.maker, ctx.id) {
            Some(i) => i,
            None => {
                return Err(SwapError::NotFound);
            },
        };
        let offer = self.offers[idx];
        proof {
            lemma_offers_map_index(self.offers@, idx as int);
            let j = crate::state::offer_index(self.offers@, ctx.maker, ctx.id);
            assert(0 <= j < self.offers@.len() && self.offers@[j].key() == (ctx.maker, ctx.id));
            if j != idx as int {
                assert(false);
            }
            assert(offer == self.spec_offer(ctx.maker, ctx.id));
            assert(offer.maker == ctx.maker && offer.id == ctx.id);
        }
        // Only the maker can cancel before expiry; anyone can after.
        if ctx.caller != offer.maker && now <= offer.expires_at {
            return Err(SwapError::UnauthorizedCancel);
        }
        let ghost m0 = self.ledger.balances();
        let ghost offers0 = self.offers@;
        withdraw_and_close_vault(&mut self.ledger, &offer, offer.maker);
        proof {
            lemma_offers_map_remove(self.offers@, idx as int);
        }
        self.offers.remove(idx);
        proof {
            let w = wallet(offer.maker, offer.token_mint_a);
            let v = vault(offer.maker, offer.id);
            assert forall|i: int| 0 <= i < self.offers@.len() implies {
                let o = #[trigger] self.offers@[i];
                self.ledger.balances().contains_key(vault(o.maker, o.id))
                    && self.ledger.balances()[vault(o.maker, o.id)] == o.token_a_offered_amount
            } by {
                let o = self.offers@[i];
                let i0 = if i < idx as int {
                    i
                } else {
                    i + 1
                };
                assert(o == offers0[i0]);
                assert(o.key() != (ctx.maker, ctx.id));
                assert(vault(o.maker, o.id) != v);
                assert(m0.contains_key(vault(o.maker, o.id)));
                assert(m0[vault(o.maker, o.id)] == o.token_a_offered_amount);
            }
            assert forall|a: AccountId| #[trigger] self.ledger.balances().contains_key(a) implies (
            a matches AccountId::Vault { maker, offer_id } ==> has_offer_key(
                self.offers@,
                maker,
                offer_id,
            )) by {
                match a {
                    AccountId::Vault { maker, offer_id } => {
                        assert(a != v);
                        assert(m0.contains_key(a));
                        assert(has_offer_key(offers0, maker, offer_id));
                        let x = choose|x: int|
                            0 <= x < offers0.len() && offers0[x].key() == (maker, offer_id);
                        assert(x != idx as int);
                        if x < idx as int {
                            assert(self.offers@[x].key() == (maker, offer_id));
                        } else {
                            assert(self.offers@[x - 1].key() == (maker, offer_id));
                        }
                    },
                    _ => {},
                }
            }
            let m1 = map_transfer(m0, v, w, offer.token_a_offered_amount);
            assert(self.ledger.balances() == m1.remove(v));
            assert(v != w);
            assert(bal(m1, w) == bal(m0, w) + offer.token_a_offered_amount);
            assert(bal(self.ledger.balances(), w) == bal(m0, w) + offer.token_a_offered_amount);
        }
        Ok(())
    }
}

} // verus!
