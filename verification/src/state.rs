//! The persisted offer record and the keyed store of open offers.
//!
//! An offer is keyed by `(maker, id)`: the maker chooses the id, and the
//! record's storage slot and its custody vault are both addressed by that
//! pair alone, so any party can locate an offer without an index service.
//! A record is write-once: it is created whole, then only read, and finally
//! destroyed by whichever terminal transition commits first.

use vstd::prelude::*;

verus! {

/// One open swap proposal.
///
/// `bump` is the custody-binding nonce of the record's storage layout; in
/// this store the binding is structural (the vault is keyed by the same
/// `(maker, id)` pair), so the nonce carries no further information.
#[derive(Clone, Copy, Debug, PartialEq, Eq, Structural)]
pub struct Offer {
    pub id: u64,
    pub maker: u64,
    pub token_mint_a: u64,
    pub token_mint_b: u64,
    pub token_a_offered_amount: u64,
    pub token_b_wanted_amount: u64,
    pub expires_at: i64,
    pub bump: u8,
}

impl Offer {
    /// Both amounts of a live record are positive.
    pub open spec fn valid(self) -> bool {
        self.token_a_offered_amount > 0 && self.token_b_wanted_amount > 0
    }

    /// The key the record and its vault are addressed by.
    pub open spec fn key(self) -> (u64, u64) {
        (self.maker, self.id)
    }
}

/// No two records share a key.
pub open spec fn offers_ok(s: Seq<Offer>) -> bool {
    forall|i: int, j: int| 0 <= i < j < s.len() ==> #[trigger] s[i].key() != #[trigger] s[j].key()
}

/// Whether some record of `s` has the key `(maker, id)`.
pub open spec fn has_offer_key(s: Seq<Offer>, maker: u64, id: u64) -> bool {
    exists|i: int| 0 <= i < s.len() && #[trigger] s[i].key() == (maker, id)
}

/// The index of the record of `s` with the key `(maker, id)`.
pub open spec fn offer_index(s: Seq<Offer>, maker: u64, id: u64) -> int {
    choose|i: int| 0 <= i < s.len() && #[trigger] s[i].key() == (maker, id)
}

/// The record map described by a sequence of offers.
pub open spec fn offers_map(s: Seq<Offer>) -> Map<(u64, u64), Offer> {
    Map::new(
        |k: (u64, u64)| has_offer_key(s, k.0, k.1),
        |k: (u64, u64)| s[offer_index(s, k.0, k.1)],
    )
}

pub proof fn lemma_offers_map_index(s: Seq<Offer>, i: int)
    requires
        offers_ok(s),
        0 <= i < s.len(),
    ensures
        offers_map(s).contains_key(s[i].key()),
        offers_map(s)[s[i].key()] == s[i],
{
    let k = s[i].key();
    assert(has_offer_key(s, k.0, k.1));
    let j = offer_index(s, k.0, k.1);
    assert(0 <= j < s.len() && s[j].key() == k);
    if i != j {
        assert(false);
    }
}

pub proof fn lemma_offers_map_push(s: Seq<Offer>, o: Offer)
    requires
        offers_ok(s),
        !has_offer_key(s, o.maker, o.id),
    ensures
        offers_ok(s.push(o)),
        offers_map(s.push(o)) =~= offers_map(s).insert(o.key(), o),
{
    let s1 = s.push(o);
    assert(forall|j: int| 0 <= j < s.len() ==> #[trigger] s1[j] == s[j]);
    assert(offers_ok(s1)) by {
        assert forall|i: int, j: int| 0 <= i < j < s1.len() implies s1[i].key() != s1[j].key() by {
            if j == s.len() {
                if s1[i].key() == o.key() {
                    assert(s[i].key() == (o.maker, o.id));
                    assert(has_offer_key(s, o.maker, o.id));
                }
            }
        }
    }
    assert forall|k: (u64, u64)|
        has_offer_key(s1, k.0, k.1) == (has_offer_key(s, k.0, k.1) || k == o.key()) by {
        if has_offer_key(s1, k.0, k.1) {
            let w = choose|w: int| 0 <= w < s1.len() && s1[w].key() == k;
            if w < s.len() {
                assert(s[w].key() == k);
            }
        }
        if has_offer_key(s, k.0, k.1) {
            let w = choose|w: int| 0 <= w < s.len() && s[w].key() == k;
            assert(s1[w].key() == k);
        }
        if k == o.key() {
            assert(s1[s.len() as int].key() == k);
        }
    }
    assert forall|k: (u64, u64)| #[trigger] offers_map(s1).contains_key(k) implies offers_map(
        s1,
    )[k] == offers_map(s).insert(o.key(), o)[k] by {
        let j = offer_index(s1, k.0, k.1);
        assert(0 <= j < s1.len() && s1[j].key() == k);
        if k == o.key() {
            if j != s.len() {
                assert(has_offer_key(s, o.maker, o.id));
            }
            assert(offers_map(s1)[k] == o);
        } else {
            assert(j < s.len());
            lemma_offers_map_index(s, j);
        }
    }
}

pub proof fn lemma_offers_map_remove(s: Seq<Offer>, i: int)
    requires
        offers_ok(s),
        0 <= i < s.len(),
    ensures
        offers_ok(s.remove(i)),
        offers_map(s.remove(i)) =~= offers_map(s).remove(s[i].key()),
{
    let k0 = s[i].key();
    let s1 = s.remove(i);
    assert(forall|j: int|
        0 <= j < s1.len() ==> #[trigger] s1[j] == (if j < i {
            s[j]
        } else {
            s[j + 1]
        }));
    assert(offers_ok(s1)) by {
        assert forall|p: int, q: int| 0 <= p < q < s1.len() implies s1[p].key() != s1[q].key() by {
            let p0 = if p < i { p } else { p + 1 };
            let q0 = if q < i { q } else { q + 1 };
            assert(s1[p] == s[p0] && s1[q] == s[q0]);
        }
    }
    assert forall|k: (u64, u64)|
        has_offer_key(s1, k.0, k.1) == (has_offer_key(s, k.0, k.1) && k != k0) by {
        if has_offer_key(s1, k.0, k.1) {
            let w = choose|w: int| 0 <= w < s1.len() && s1[w].key() == k;
            let w0 = if w < i { w } else { w + 1 };
            assert(s[w0].key() == k);
            if k == k0 {
                assert(w0 != i ==> false);
            }
        }
        if has_offer_key(s, k.0, k.1) && k != k0 {
            let w = choose|w: int| 0 <= w < s.len() && s[w].key() == k;
            assert(w != i);
            if w < i {
                assert(s1[w].key() == k);
            } else {
                assert(s1[w - 1].key() == k);
            }
        }
    }
    assert forall|k: (u64, u64)| #[trigger] offers_map(s1).contains_key(k) implies offers_map(
        s1,
    )[k] == offers_map(s).remove(k0)[k] by {
        let j = offer_index(s1, k.0, k.1);
        assert(0 <= j < s1.len() && s1[j].key() == k);
        let j0 = if j < i { j } else { j + 1 };
        assert(s[j0].key() == k && s1[j] == s[j0]);
        lemma_offers_map_index(s, j0);
    }
}

} // verus!
