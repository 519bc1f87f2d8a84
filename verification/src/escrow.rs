//! The escrow state: the asset ledger bound to the store of open offers.
//!
//! Well-formedness ties the two halves together: while an offer is open, its
//! custody vault exists and holds exactly the offered amount, and no vault
//! exists without its offer. Every lifecycle operation preserves this
//! invariant and conserves the total supply, so a fund can never be lost,
//! duplicated, or released without its matching condition.

use vstd::prelude::*;

use crate::ledger::{bal, vault, wallet, AccountId, Ledger};
use crate::state::{has_offer_key, lemma_offers_map_index, offer_index, offers_map, offers_ok, Offer};

verus! {

/// The shared escrow state: all balances, and all open offers.
///
/// Operations on the same offer are totally ordered by the single mutable
/// borrow of this state; whichever terminal transition commits first removes
/// the record, so the second caller finds nothing to act on.
pub struct Escrow {
    pub ledger: Ledger,
    pub offers: Vec<Offer>,
}

impl Escrow {
    /// The internal invariant: the ledger is well formed, offer keys are
    /// unique, every record is valid, every open offer's vault holds exactly
    /// the offered amount, and no vault account is orphaned.
    pub open spec fn wf(self) -> bool {
        &&& self.ledger.wf()
        &&& offers_ok(self.offers@)
        &&& forall|i: int| 0 <= i < self.offers@.len() ==> (#[trigger] self.offers@[i]).valid()
        &&& forall|i: int|
            0 <= i < self.offers@.len() ==> {
                let o = #[trigger] self.offers@[i];
                self.ledger.balances().contains_key(vault(o.maker, o.id))
                    && self.ledger.balances()[vault(o.maker, o.id)] == o.token_a_offered_amount
            }
        &&& forall|a: AccountId|
            #[trigger] self.ledger.balances().contains_key(a) ==> (a matches AccountId::Vault {
                maker,
                offer_id,
            } ==> has_offer_key(self.offers@, maker, offer_id))
    }

    /// The balance map of the underlying ledger.
    pub open spec fn balances(self) -> Map<AccountId, u64> {
        self.ledger.balances()
    }

    /// The balance of one account, counting an absent account as empty.
    pub open spec fn spec_bal(self, a: AccountId) -> int {
        bal(self.balances(), a)
    }

    /// The map of open offers, keyed by `(maker, id)`.
    pub open spec fn open_offers(self) -> Map<(u64, u64), Offer> {
        offers_map(self.offers@)
    }

    /// Whether the offer keyed by `(maker, id)` is open.
    pub open spec fn spec_has_offer(self, maker: u64, id: u64) -> bool {
        has_offer_key(self.offers@, maker, id)
    }

    /// The open offer keyed by `(maker, id)`.
    pub open spec fn spec_offer(self, maker: u64, id: u64) -> Offer {
        self.offers@[offer_index(self.offers@, maker, id)]
    }

    /// The sum of all balances, wallets and vaults alike.
    pub open spec fn spec_total(self) -> int {
        self.ledger.total as int
    }

    /// A fresh escrow: no accounts, no offers, no supply.
    pub fn new() -> (r: Escrow)
        ensures
            r.wf(),
            r.balances() =~= Map::<AccountId, u64>::empty(),
            r.open_offers() =~= Map::<(u64, u64), Offer>::empty(),
            r.spec_total() == 0,
    {
        let r = Escrow { ledger: Ledger::new(), offers: Vec::new() };
        proof {
            assert forall|k: (u64, u64)| !r.open_offers().contains_key(k) by {
                assert(!has_offer_key(r.offers@, k.0, k.1));
            }
        }
        r
    }

    /// Issues `amount` new units of `mint` to `owner`'s wallet, creating the
    /// wallet if absent. Fails, leaving the state untouched, exactly when
    /// the new total supply would not fit in a `u64`.
    pub fn mint_to(&mut self, owner: u64, mint: u64, amount: u64) -> (ok: bool)
        requires
            old(self).wf(),
        ensures
            final(self).wf(),
            ok == (old(self).spec_total() + amount <= u64::MAX),
            ok ==> final(self).balances() == old(self).balances().insert(
                wallet(owner, mint),
                ((old(self).spec_bal(wallet(owner, mint)) + amount) as u64),
            ),
            ok ==> final(self).spec_total() == old(self).spec_total() + amount,
            final(self).offers@ == old(self).offers@,
            final(self).open_offers() == old(self).open_offers(),
            !ok ==> *final(self) == *old(self),
    {
        let a = AccountId::Wallet { owner, mint };
        let ok = self.ledger.credit(a, amount);
        proof {
            if ok {
                assert forall|i: int| 0 <= i < self.offers@.len() implies {
                    let o = #[trigger] self.offers@[i];
                    self.ledger.balances().contains_key(vault(o.maker, o.id))
                        && self.ledger.balances()[vault(o.maker, o.id)] == o.token_a_offered_amount
                } by {
                    let o = self.offers@[i];
                    assert(vault(o.maker, o.id) != a);
                }
            }
        }
        ok
    }

    /// The position of the open offer keyed by `(maker, id)`, if any.
    pub(crate) fn find_offer(&self, maker: u64, id: u64) -> (r: Option<usize>)
        ensures
            match r {
                Some(i) => i < self.offers@.len() && self.offers@[i as int].key() == (maker, id),
                None => !self.spec_has_offer(maker, id),
            },
    {
        let n = self.offers.len();
        let mut i: usize = 0;
        while i < n
            invariant
                n == self.offers@.len(),
                i <= n,
                forall|j: int| 0 <= j < i ==> #[trigger] self.offers@[j].key() != (maker, id),
            decreases n - i,
        {
            if self.offers[i].maker == maker && self.offers[i].id == id {
                assert(self.offers@[i as int].key() == (maker, id));
                return Some(i);
            }
            proof {
                assert(self.offers@[i as int].key() != (maker, id));
            }
            i += 1;
        }
        proof {
            assert(!has_offer_key(self.offers@, maker, id));
        }
        None
    }

    /// Whether the offer keyed by `(maker, id)` is currently open.
    pub fn has_offer(&self, maker: u64, id: u64) -> (r: bool)
        ensures
            r == self.spec_has_offer(maker, id),
    {
        self.find_offer(maker, id).is_some()
    }

    /// The open offer keyed by `(maker, id)`, if any.
    pub fn get_offer(&self, maker: u64, id: u64) -> (r: Option<Offer>)
        requires
            self.wf(),
        ensures
            r == if self.spec_has_offer(maker, id) {
                Some(self.spec_offer(maker, id))
            } else {
                None::<Offer>
            },
    {
        match self.find_offer(maker, id) {
            Some(i) => {
                proof {
                    let j = offer_index(self.offers@, maker, id);
                    assert(0 <= j < self.offers@.len() && self.offers@[j].key() == (maker, id));
                    if i as int != j {
                        assert(false);
                    }
                }
                Some(self.offers[i])
            },
            None => None,
        }
    }

    /// The balance of `owner`'s wallet for the asset `mint`.
    pub fn balance_of(&self, owner: u64, mint: u64) -> (r: u64)
        requires
            self.wf(),
        ensures
            r as int == self.spec_bal(wallet(owner, mint)),
    {
        self.ledger.balance_of(AccountId::Wallet { owner, mint })
    }

    /// The balance held by the custody vault of the offer keyed by
    /// `(maker, id)`; an absent vault holds nothing.
    pub fn vault_balance(&self, maker: u64, id: u64) -> (r: u64)
        requires
            self.wf(),
        ensures
            r as int == self.spec_bal(vault(maker, id)),
    {
        self.ledger.balance_of(AccountId::Vault { maker, offer_id: id })
    }

    /// Whether the custody vault of the offer keyed by `(maker, id)` exists.
    pub fn vault_exists(&self, maker: u64, id: u64) -> (r: bool)
        requires
            self.wf(),
        ensures
            r == self.balances().contains_key(vault(maker, id)),
    {
        self.ledger.contains_account(AccountId::Vault { maker, offer_id: id })
    }

    /// The total supply across all wallets and vaults.
    pub fn total_supply(&self) -> (r: u64)
        ensures
            r as int == self.spec_total(),
    {
        self.ledger.total
    }
}

} // verus!
