//! The asset ledger: an ownership-tagged keyed store of fungible balances.
//!
//! Every balance-holding account is identified by an [`AccountId`]: either a
//! party's wallet for one asset mint, or the custody vault bound to one offer.
//! The ledger is the only component that moves funds; its shared transfer
//! primitive centralizes the balance check, and its well-formedness invariant
//! keeps the sum of all balances equal to the recorded total supply, so that
//! no transfer can lose, duplicate or overflow funds.

use vstd::prelude::*;

use crate::errors::SwapError;

verus! {

/// Identifies one balance-holding account of the ledger.
///
/// A `Wallet` is a party's account for one asset mint. A `Vault` is the
/// custody account bound to the offer keyed by `(maker, offer_id)`: the
/// account address is a deterministic function of the offer's identity, so
/// any caller can locate an offer's vault without an index service.
#[derive(Clone, Copy, Debug, PartialEq, Eq, Structural)]
pub enum AccountId {
    Wallet { owner: u64, mint: u64 },
    Vault { maker: u64, offer_id: u64 },
}

/// The wallet account of `owner` for the asset `mint`.
pub open spec fn wallet(owner: u64, mint: u64) -> AccountId {
    AccountId::Wallet { owner, mint }
}

/// The custody vault account bound to the offer keyed by `(maker, offer_id)`.
pub open spec fn vault(maker: u64, offer_id: u64) -> AccountId {
    AccountId::Vault { maker, offer_id }
}

/// One account of the ledger together with its current balance.
#[derive(Clone, Copy, Debug, PartialEq, Eq, Structural)]
pub struct LedgerEntry {
    pub account: AccountId,
    pub amount: u64,
}

/// The sum of the balances of a sequence of ledger entries.
pub open spec fn sum_amounts(s: Seq<LedgerEntry>) -> int
    decreases s.len(),
{
    if s.len() == 0 {
        0
    } else {
        sum_amounts(s.drop_last()) + s.last().amount
    }
}

/// No two entries name the same account.
pub open spec fn entries_ok(s: Seq<LedgerEntry>) -> bool {
    forall|i: int, j: int|
        0 <= i < j < s.len() ==> #[trigger] s[i].account != #[trigger] s[j].account
}

/// Whether some entry of `s` names the account `a`.
pub open spec fn has_account(s: Seq<LedgerEntry>, a: AccountId) -> bool {
    exists|i: int| 0 <= i < s.len() && #[trigger] s[i].account == a
}

/// The index of the entry of `s` naming the account `a`.
pub open spec fn entry_index(s: Seq<LedgerEntry>, a: AccountId) -> int {
    choose|i: int| 0 <= i < s.len() && #[trigger] s[i].account == a
}

/// The balance map described by a sequence of ledger entries.
pub open spec fn entries_map(s: Seq<LedgerEntry>) -> Map<AccountId, u64> {
    Map::new(|a: AccountId| has_account(s, a), |a: AccountId| s[entry_index(s, a)].amount)
}

/// The balance of `a` in the balance map `m`, counting an absent account as
/// holding nothing.
pub open spec fn bal(m: Map<AccountId, u64>, a: AccountId) -> int {
    if m.contains_key(a) {
        m[a] as int
    } else {
        0
    }
}

/// The balance map after moving `amount` from `from` to `to`: `from` is
/// debited, `to` is credited (and created if absent). A transfer from an
/// account to itself leaves the map unchanged.
pub open spec fn map_transfer(
    m: Map<AccountId, u64>,
    from: AccountId,
    to: AccountId,
    amount: u64,
) -> Map<AccountId, u64> {
    if from == to {
        m
    } else {
        m.insert(from, ((m[from] - amount) as u64)).insert(
            to,
            (if m.contains_key(to) {
                (m[to] + amount) as u64
            } else {
                amount
            }),
        )
    }
}

proof fn lemma_sum_nonneg(s: Seq<LedgerEntry>)
    ensures
        sum_amounts(s) >= 0,
    decreases s.len(),
{
    if s.len() > 0 {
        lemma_sum_nonneg(s.drop_last());
    }
}

proof fn lemma_elem_le_sum(s: Seq<LedgerEntry>, i: int)
    requires
        0 <= i < s.len(),
    ensures
        s[i].amount <= sum_amounts(s),
    decreases s.len(),
{
    if i == s.len() - 1 {
        lemma_sum_nonneg(s.drop_last());
    } else {
        lemma_elem_le_sum(s.drop_last(), i);
    }
}

proof fn lemma_sum_update(s: Seq<LedgerEntry>, i: int, e: LedgerEntry)
    requires
        0 <= i < s.len(),
    ensures
        sum_amounts(s.update(i, e)) == sum_amounts(s) - s[i].amount + e.amount,
    decreases s.len(),
{
    let s1 = s.update(i, e);
    if i == s.len() - 1 {
        assert(s1.drop_last() =~= s.drop_last());
    } else {
        assert(s1.drop_last() =~= s.drop_last().update(i, e));
        lemma_sum_update(s.drop_last(), i, e);
    }
}

proof fn lemma_sum_push(s: Seq<LedgerEntry>, e: LedgerEntry)
    ensures
        sum_amounts(s.push(e)) == sum_amounts(s) + e.amount,
{
    assert(s.push(e).drop_last() =~= s);
}

proof fn lemma_sum_remove(s: Seq<LedgerEntry>, i: int)
    requires
        0 <= i < s.len(),
    ensures
        sum_amounts(s.remove(i)) == sum_amounts(s) - s[i].amount,
    decreases s.len(),
{
    let s1 = s.remove(i);
    if i == s.len() - 1 {
        assert(s1 =~= s.drop_last());
    } else {
        assert(s1.drop_last() =~= s.drop_last().remove(i));
        lemma_sum_remove(s.drop_last(), i);
    }
}

proof fn lemma_entries_map_index(s: Seq<LedgerEntry>, i: int)
    requires
        entries_ok(s),
        0 <= i < s.len(),
    ensures
        entries_map(s).contains_key(s[i].account),
        entries_map(s)[s[i].account] == s[i].amount,
{
    let a = s[i].account;
    assert(has_account(s, a));
    let j = entry_index(s, a);
    assert(0 <= j < s.len() && s[j].account == a);
    if i != j {
        assert(false);
    }
}

proof fn lemma_entries_map_update(s: Seq<LedgerEntry>, i: int, v: u64)
    requires
        entries_ok(s),
        0 <= i < s.len(),
    ensures
        entries_ok(s.update(i, LedgerEntry { account: s[i].account, amount: v })),
        entries_map(s.update(i, LedgerEntry { account: s[i].account, amount: v })) =~= entries_map(
            s,
        ).insert(s[i].account, v),
{
    let a = s[i].account;
    let s1 = s.update(i, LedgerEntry { account: a, amount: v });
    assert(forall|j: int| 0 <= j < s.len() ==> #[trigger] s1[j].account == s[j].account);
    assert(forall|k: AccountId| has_account(s1, k) == has_account(s, k)) by {
        assert forall|k: AccountId| has_account(s1, k) implies has_account(s, k) by {
            let w = choose|w: int| 0 <= w < s1.len() && s1[w].account == k;
            assert(s[w].account == k);
        }
        assert forall|k: AccountId| has_account(s, k) implies has_account(s1, k) by {
            let w = choose|w: int| 0 <= w < s.len() && s[w].account == k;
            assert(s1[w].account == k);
        }
    }
    assert forall|k: AccountId| #[trigger] entries_map(s1).contains_key(k) implies entries_map(
        s1,
    )[k] == entries_map(s).insert(a, v)[k] by {
        let j = entry_index(s1, k);
        assert(0 <= j < s1.len() && s1[j].account == k);
        if k == a {
            if j != i {
                assert(s1[i].account == a);
                assert(false);
            }
            assert(entries_map(s1)[k] == v);
        } else {
            assert(s1[j].amount == s[j].amount);
            lemma_entries_map_index(s, j);
            assert(entries_map(s1)[k] == entries_map(s)[k]);
        }
    }
}

proof fn lemma_entries_map_push(s: Seq<LedgerEntry>, e: LedgerEntry)
    requires
        entries_ok(s),
        !has_account(s, e.account),
    ensures
        entries_ok(s.push(e)),
        entries_map(s.push(e)) =~= entries_map(s).insert(e.account, e.amount),
{
    let s1 = s.push(e);
    assert(forall|j: int| 0 <= j < s.len() ==> #[trigger] s1[j].account == s[j].account);
    assert(entries_ok(s1)) by {
        assert forall|i: int, j: int| 0 <= i < j < s1.len() implies s1[i].account != s1[j].account by {
            if j == s.len() {
                assert(s1[i].account == s[i].account);
                if s1[i].account == e.account {
                    assert(has_account(s, e.account));
                }
            }
        }
    }
    assert forall|k: AccountId| has_account(s1, k) == (has_account(s, k) || k
        == e.account) by {
        if has_account(s1, k) {
            let w = choose|w: int| 0 <= w < s1.len() && s1[w].account == k;
            if w < s.len() {
                assert(s[w].account == k);
            }
        }
        if has_account(s, k) {
            let w = choose|w: int| 0 <= w < s.len() && s[w].account == k;
            assert(s1[w].account == k);
        }
        if k == e.account {
            assert(s1[s.len() as int].account == k);
        }
    }
    assert forall|k: AccountId| #[trigger] entries_map(s1).contains_key(k) implies entries_map(
        s1,
    )[k] == entries_map(s).insert(e.account, e.amount)[k] by {
        let j = entry_index(s1, k);
        assert(0 <= j < s1.len() && s1[j].account == k);
        if k == e.account {
            if j != s.len() {
                assert(has_account(s, e.account));
            }
            assert(entries_map(s1)[k] == e.amount);
        } else {
            assert(j < s.len());
            lemma_entries_map_index(s, j);
        }
    }
}

proof fn lemma_entries_map_remove(s: Seq<LedgerEntry>, i: int)
    requires
        entries_ok(s),
        0 <= i < s.len(),
    ensures
        entries_ok(s.remove(i)),
        entries_map(s.remove(i)) =~= entries_map(s).remove(s[i].account),
{
    let a = s[i].account;
    let s1 = s.remove(i);
    assert(forall|j: int|
        0 <= j < s1.len() ==> #[trigger] s1[j] == (if j < i {
            s[j]
        } else {
            s[j + 1]
        }));
    assert(entries_ok(s1)) by {
        assert forall|p: int, q: int| 0 <= p < q < s1.len() implies s1[p].account
            != s1[q].account by {
            let p0 = if p < i { p } else { p + 1 };
            let q0 = if q < i { q } else { q + 1 };
            assert(s1[p] == s[p0] && s1[q] == s[q0]);
        }
    }
    assert forall|k: AccountId| has_account(s1, k) == (has_account(s, k) && k != a) by {
        if has_account(s1, k) {
            let w = choose|w: int| 0 <= w < s1.len() && s1[w].account == k;
            let w0 = if w < i { w } else { w + 1 };
            assert(s[w0].account == k);
            if k == a {
                assert(s[i].account == a);
                assert(w0 != i ==> false);
            }
        }
        if has_account(s, k) && k != a {
            let w = choose|w: int| 0 <= w < s.len() && s[w].account == k;
            assert(w != i);
            if w < i {
                assert(s1[w].account == k);
            } else {
                assert(s1[w - 1].account == k);
            }
        }
    }
    assert forall|k: AccountId| #[trigger] entries_map(s1).contains_key(k) implies entries_map(
        s1,
    )[k] == entries_map(s).remove(a)[k] by {
        let j = entry_index(s1, k);
        assert(0 <= j < s1.len() && s1[j].account == k);
        let j0 = if j < i { j } else { j + 1 };
        assert(s[j0].account == k && s1[j].amount == s[j0].amount);
        lemma_entries_map_index(s, j0);
    }
}

/// The keyed store of all fungible balances: wallets and custody vaults.
///
/// `total` records the sum of all balances; well-formedness ties the two
/// together, which both rules out overflow in any credit and makes the
/// conservation of funds a stated fact of every transfer.
pub struct Ledger {
    pub entries: Vec<LedgerEntry>,
    pub total: u64,
}

impl Ledger {
    /// Each account appears at most once, and the recorded total supply is
    /// the sum of all balances.
    pub open spec fn wf(self) -> bool {
        &&& entries_ok(self.entries@)
        &&& sum_amounts(self.entries@) == self.total as int
    }

    /// The balance map the ledger holds: its domain is the set of existing
    /// accounts.
    pub open spec fn balances(self) -> Map<AccountId, u64> {
        entries_map(self.entries@)
    }

    /// An empty ledger: no accounts, no supply.
    pub fn new() -> (r: Ledger)
        ensures
            r.wf(),
            r.balances() =~= Map::<AccountId, u64>::empty(),
            r.total == 0,
    {
        let r = Ledger { entries: Vec::new(), total: 0 };
        proof {
            assert forall|a: AccountId| !r.balances().contains_key(a) by {
                assert(!has_account(r.entries@, a));
            }
        }
        r
    }

    /// The position of the entry for `a`, if the account exists.
    fn find_index(&self, a: AccountId) -> (r: Option<usize>)
        ensures
            match r {
                Some(i) => i < self.entries@.len() && self.entries@[i as int].account == a,
                None => !self.balances().contains_key(a),
            },
    {
        let n = self.entries.len();
        let mut i: usize = 0;
        while i < n
            invariant
                n == self.entries@.len(),
                i <= n,
                forall|j: int| 0 <= j < i ==> #[trigger] self.entries@[j].account != a,
            decreases n - i,
        {
            if self.entries[i].account == a {
                return Some(i);
            }
            i += 1;
        }
        proof {
            assert(!has_account(self.entries@, a));
        }
        None
    }

    /// Whether the account `a` exists.
    pub fn contains_account(&self, a: AccountId) -> (r: bool)
        ensures
            r == self.balances().contains_key(a),
    {
        match self.find_index(a) {
            Some(i) => {
                proof {
                    assert(has_account(self.entries@, a));
                }
                true
            },
            None => false,
        }
    }

    /// The current balance of `a`; an account that does not exist holds
    /// nothing.
    pub fn balance_of(&self, a: AccountId) -> (r: u64)
        requires
            self.wf(),
        ensures
            r as int == bal(self.balances(), a),
    {
        match self.find_index(a) {
            Some(i) => {
                proof {
                    lemma_entries_map_index(self.entries@, i as int);
                }
                self.entries[i].amount
            },
            None => 0,
        }
    }

    /// Issues `amount` new units to the account `a`, creating it if absent.
    /// Fails, leaving the ledger untouched, exactly when the new total
    /// supply would not fit in a `u64`.
    pub fn credit(&mut self, a: AccountId, amount: u64) -> (ok: bool)
        requires
            old(self).wf(),
        ensures
            final(self).wf(),
            ok == (old(self).total + amount <= u64::MAX),
            ok ==> final(self).balances() == old(self).balances().insert(
                a,
                ((bal(old(self).balances(), a) + amount) as u64),
            ),
            ok ==> final(self).total == old(self).total + amount,
            !ok ==> *final(self) == *old(self),
    {
        if amount > u64::MAX - self.total {
            return false;
        }
        match self.find_index(a) {
            Some(i) => {
                proof {
                    lemma_entries_map_index(self.entries@, i as int);
                    lemma_elem_le_sum(self.entries@, i as int);
                    lemma_sum_update(
                        self.entries@,
                        i as int,
                        LedgerEntry { account: a, amount: (self.entries@[i as int].amount + amount) as u64 },
                    );
                    lemma_entries_map_update(
                        self.entries@,
                        i as int,
                        (self.entries@[i as int].amount + amount) as u64,
                    );
                }
                let new_amount = self.entries[i].amount + amount;
                self.entries[i] = LedgerEntry { account: a, amount: new_amount };
            },
            None => {
                proof {
                    lemma_sum_push(self.entries@, LedgerEntry { account: a, amount });
                    lemma_entries_map_push(self.entries@, LedgerEntry { account: a, amount });
                }
                self.entries.push(LedgerEntry { account: a, amount });
            },
        }
        self.total = self.total + amount;
        true
    }

    /// The shared transfer primitive: the only code path that moves funds.
    /// Moves `amount` from `from` to `to`, creating `to` if absent. Fails
    /// with `InsufficientBalance`, leaving the ledger untouched, exactly
    /// when `from` cannot cover the amount. The total supply is conserved.
    pub fn transfer_tokens(&mut self, from: AccountId, to: AccountId, amount: u64) -> (r: Result<
        (),
        SwapError,
    >)
        requires
            old(self).wf(),
        ensures
            final(self).wf(),
            r == if bal(old(self).balances(), from) >= amount && old(self).balances().contains_key(
                from,
            ) {
                Ok::<(), SwapError>(())
            } else {
                Err::<(), SwapError>(SwapError::InsufficientBalance)
            },
            r is Ok ==> final(self).balances() == map_transfer(
                old(self).balances(),
                from,
                to,
                amount,
            ),
            r is Err ==> *final(self) == *old(self),
            final(self).total == old(self).total,
            r is Ok && from != to ==> bal(old(self).balances(), to) + amount <= u64::MAX,
    {
        let from_idx = match self.find_index(from) {
            Some(i) => i,
            None => {
                return Err(SwapError::InsufficientBalance);
            },
        };
        proof {
            lemma_entries_map_index(self.entries@, from_idx as int);
        }
        if self.entries[from_idx].amount < amount {
            return Err(SwapError::InsufficientBalance);
        }
        if from == to {
            proof {
                assert(self.balances() =~= map_transfer(self.balances(), from, to, amount));
            }
            return Ok(());
        }
        let to_idx = self.find_index(to);
        let ghost s0 = self.entries@;
        let ghost m0 = self.balances();

        // Debit the source first: afterwards the sequence sums to
        // `total - amount`, so the credit below cannot overflow.
        let debited = self.entries[from_idx].amount - amount;
        proof {
            lemma_sum_update(s0, from_idx as int, LedgerEntry { account: from, amount: debited });
            lemma_entries_map_update(s0, from_idx as int, debited);
        }
        self.entries[from_idx] = LedgerEntry { account: from, amount: debited };
        let ghost s1 = self.entries@;
        let ghost m1 = self.balances();

        match to_idx {
            Some(t) => {
                proof {
                    assert(s1[t as int].account == to);
                    lemma_elem_le_sum(s1, t as int);
                    lemma_entries_map_index(s0, t as int);
                    lemma_entries_map_index(s1, t as int);
                }
                let credited = self.entries[t].amount + amount;
                proof {
                    lemma_sum_update(s1, t as int, LedgerEntry { account: to, amount: credited });
                    lemma_entries_map_update(s1, t as int, credited);
                }
                self.entries[t] = LedgerEntry { account: to, amount: credited };
                proof {
                    assert(m0.contains_key(to));
                    assert(m1[to] == m0[to]);
                    assert(self.balances() =~= map_transfer(m0, from, to, amount));
                }
            },
            None => {
                proof {
                    assert(!m0.contains_key(to));
                    assert(!has_account(s1, to)) by {
                        if has_account(s1, to) {
                            let w = choose|w: int| 0 <= w < s1.len() && s1[w].account == to;
                            assert(s0[w].account == to);
                            assert(has_account(s0, to));
                        }
                    }
                    lemma_sum_push(s1, LedgerEntry { account: to, amount });
                    lemma_entries_map_push(s1, LedgerEntry { account: to, amount });
                }
                self.entries.push(LedgerEntry { account: to, amount });
                proof {
                    assert(self.balances() =~= map_transfer(m0, from, to, amount));
                }
            },
        }
        Ok(())
    }

    /// Destroys the account `a`. The caller must first have released the
    /// whole balance: only an existing, empty account can be closed.
    pub fn close_account(&mut self, a: AccountId)
        requires
            old(self).wf(),
            old(self).balances().contains_key(a),
            old(self).balances()[a] == 0,
        ensures
            final(self).wf(),
            final(self).balances() == old(self).balances().remove(a),
            final(self).total == old(self).total,
    {
        let i = match self.find_index(a) {
            Some(i) => i,
            None => {
                proof {
                    assert(false);
                }
                return ;
            },
        };
        proof {
            lemma_entries_map_index(self.entries@, i as int);
            lemma_sum_remove(self.entries@, i as int);
            lemma_entries_map_remove(self.entries@, i as int);
        }
        self.entries.remove(i);
    }
}

} // verus!
