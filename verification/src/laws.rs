//! Laws relating the lifecycle operations across calls.
//!
//! The contracts of `make_offer`, `take_offer` and `cancel_offer` each pin
//! down one transition; the proofs here state what follows when transitions
//! are chained, and what holds of every well-formed state.

use vstd::prelude::*;

use crate::cancel_offer::balances_after_cancel;
use crate::escrow::Escrow;
use crate::ledger::{bal, map_transfer, vault, wallet, AccountId};
use crate::state::{offer_index, Offer};

verus! {

/// In every well-formed escrow state, an open offer is a valid record keyed
/// by its own fields, and its custody vault exists and holds exactly the
/// offered amount — funds in custody are never lost or mixed.
pub proof fn lemma_open_offer_vault_funded(s: Escrow, maker: u64, id: u64)
    requires
        s.wf(),
        s.spec_has_offer(maker, id),
    ensures
        s.spec_offer(maker, id).maker == maker,
        s.spec_offer(maker, id).id == id,
        s.spec_offer(maker, id).valid(),
        s.balances().contains_key(vault(maker, id)),
        s.spec_bal(vault(maker, id)) == s.spec_offer(maker, id).token_a_offered_amount,
{
    let j = offer_index(s.offers@, maker, id);
    assert(0 <= j < s.offers@.len() && s.offers@[j].key() == (maker, id));
    assert(s.offers@[j].valid());
}

/// Creating an offer and then cancelling it restores every balance exactly:
/// funding the vault from the maker's wallet and then releasing the whole
/// custody back to it, tearing the vault down, is the identity on the
/// balance map. The premises hold whenever the creation succeeded in a
/// well-formed state: the maker could cover the amount, and the vault did
/// not exist beforehand.
pub proof fn lemma_create_cancel_round_trip(m: Map<AccountId, u64>, o: Offer)
    requires
        !m.contains_key(vault(o.maker, o.id)),
        m.contains_key(wallet(o.maker, o.token_mint_a)),
        m[wallet(o.maker, o.token_mint_a)] >= o.token_a_offered_amount,
    ensures
        balances_after_cancel(
            map_transfer(
                m,
                wallet(o.maker, o.token_mint_a),
                vault(o.maker, o.id),
                o.token_a_offered_amount,
            ),
            o,
        ) == m,
{
    let w = wallet(o.maker, o.token_mint_a);
    let v = vault(o.maker, o.id);
    let amount = o.token_a_offered_amount;
    let funded = map_transfer(m, w, v, amount);
    assert(w != v);
    assert(funded[v] == amount);
    assert(bal(funded, w) == bal(m, w) - amount);
    let released = map_transfer(funded, v, w, amount);
    assert(released[w] == m[w]);
    assert(balances_after_cancel(funded, o) =~= m);
}

} // verus!
