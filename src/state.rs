//! The state store: a cached copy of the ledger, filled on first load from
//! what durable storage restored (or the default state when nothing could be
//! restored) and replaced on every save.
use vstd::prelude::*;

use crate::table::{keys_unique, sum_balances};
use crate::types::{Account, TokenState, Transaction, TxRecord, UserData};

verus! {

/// The ledger as plain values.
pub ghost struct LedgerView {
    pub total_supply: u128,
    pub users: Seq<(Seq<u8>, (Seq<char>, Seq<char>))>,
    pub balances: Seq<(Seq<u8>, u128)>,
    pub minting_account: Option<Seq<u8>>,
    pub airdrop_milestone: u128,
    pub history: Seq<TxRecord>,
}

impl View for TokenState {
    type V = LedgerView;

    open spec fn view(&self) -> LedgerView {
        LedgerView {
            total_supply: self.total_supply,
            users: self.all_user@.map_values(|e: (Account, UserData)| (e.0@, e.1@)),
            balances: self.all_users_balance@.map_values(|e: (Account, u128)| (e.0@, e.1)),
            minting_account: match self.minting_account {
                Some(m) => Some(m@),
                None => None,
            },
            airdrop_milestone: self.airdrop_milestone,
            history: self.history(),
        }
    }
}

/// The state used when nothing could be restored.
pub open spec fn default_view() -> LedgerView {
    LedgerView {
        total_supply: 0,
        users: Seq::empty(),
        balances: Seq::empty(),
        minting_account: None,
        airdrop_milestone: 0,
        history: Seq::empty(),
    }
}

/// What a load yields: the cached state, else the restored one, else the default.
pub open spec fn loaded_view(cache: Option<TokenState>, restored: Option<TokenState>) -> LedgerView {
    match cache {
        Some(c) => c@,
        None => match restored {
            Some(t) => t@,
            None => default_view(),
        },
    }
}

impl TokenState {
    pub fn duplicate(&self) -> (r: TokenState)
        ensures
            r@ == self@,
            r.wf() == self.wf(),
    {
        let mut all_user: Vec<(Account, UserData)> = Vec::new();
        let mut i: usize = 0;
        while i < self.all_user.len()
            invariant
                i <= self.all_user@.len(),
                all_user@.len() == i,
                forall|j: int|
                    0 <= j < i ==> #[trigger] all_user@[j].0@ == self.all_user@[j].0@
                        && all_user@[j].1@ == self.all_user@[j].1@,
            decreases self.all_user@.len() - i,
        {
            all_user.push((self.all_user[i].0.duplicate(), self.all_user[i].1.duplicate()));
            i = i + 1;
        }
        let mut balances: Vec<(Account, u128)> = Vec::new();
        let mut i: usize = 0;
        while i < self.all_users_balance.len()
            invariant
                i <= self.all_users_balance@.len(),
                balances@.len() == i,
                forall|j: int|
                    0 <= j < i ==> #[trigger] balances@[j].0@ == self.all_users_balance@[j].0@
                        && balances@[j].1 == self.all_users_balance@[j].1,
            decreases self.all_users_balance@.len() - i,
        {
            balances.push((self.all_users_balance[i].0.duplicate(), self.all_users_balance[i].1));
            i = i + 1;
        }
        let mut transactions: Vec<Transaction> = Vec::new();
        let mut i: usize = 0;
        while i < self.transactions.len()
            invariant
                i <= self.transactions@.len(),
                transactions@.len() == i,
                forall|j: int| 0 <= j < i ==> #[trigger] transactions@[j]@ == self.transactions@[j]@,
            decreases self.transactions@.len() - i,
        {
            transactions.push(self.transactions[i].duplicate());
            i = i + 1;
        }
        let minting_account = match &self.minting_account {
            Some(m) => Some(m.duplicate()),
            None => None,
        };
        let r = TokenState {
            total_supply: self.total_supply,
            all_user,
            all_users_balance: balances,
            minting_account,
            airdrop_milestone: self.airdrop_milestone,
            transactions,
        };
        proof {
            assert(r@.users =~= self@.users);
            assert(r@.balances =~= self@.balances);
            assert(r@.history =~= self@.history);
            assert forall|j: int| 0 <= j < r.all_users_balance@.len() implies #[trigger] r.all_users_balance@[j].1
                == self.all_users_balance@[j].1 && r.all_users_balance@[j].0@ == self.all_users_balance@[j].0@ by {
                assert(balances@[j].0@ == self.all_users_balance@[j].0@);
            }
            assert forall|j: int| 0 <= j < r.all_user@.len() implies #[trigger] r.all_user@[j].0@
                == self.all_user@[j].0@ by {
                assert(all_user@[j].0@ == self.all_user@[j].0@);
            }
            lemma_sum_same_amounts(r.all_users_balance@, self.all_users_balance@);
            lemma_same_keys(r.all_users_balance@, self.all_users_balance@);
            lemma_same_keys(r.all_user@, self.all_user@);
        }
        r
    }
}

/// Tables with the same amounts in the same order have the same sum.
proof fn lemma_sum_same_amounts(s: Seq<(Account, u128)>, t: Seq<(Account, u128)>)
    requires
        s.len() == t.len(),
        forall|j: int| 0 <= j < s.len() ==> #[trigger] s[j].1 == t[j].1,
    ensures
        sum_balances(s) == sum_balances(t),
    decreases s.len(),
{
    if s.len() > 0 {
        assert forall|j: int| 0 <= j < s.len() - 1 implies #[trigger] s.drop_last()[j].1
            == t.drop_last()[j].1 by {
            assert(s[j].1 == t[j].1);
        }
        lemma_sum_same_amounts(s.drop_last(), t.drop_last());
    }
}

/// Tables with the same keys in the same order are alike in having unique keys.
proof fn lemma_same_keys<V, W>(s: Seq<(Account, V)>, t: Seq<(Account, W)>)
    requires
        s.len() == t.len(),
        forall|j: int| 0 <= j < s.len() ==> #[trigger] s[j].0@ == t[j].0@,
    ensures
        keys_unique(s) == keys_unique(t),
{
    assert(keys_unique(s) ==> keys_unique(t)) by {
        if keys_unique(s) {
            assert forall|i: int, j: int| 0 <= i < j < t.len() implies t[i].0@ != t[j].0@ by {
                assert(s[i].0@ != s[j].0@);
                assert(s[i].0@ == t[i].0@ && s[j].0@ == t[j].0@);
            }
        }
    }
    assert(keys_unique(t) ==> keys_unique(s)) by {
        if keys_unique(t) {
            assert forall|i: int, j: int| 0 <= i < j < s.len() implies s[i].0@ != s[j].0@ by {
                assert(t[i].0@ != t[j].0@);
                assert(s[i].0@ == t[i].0@ && s[j].0@ == t[j].0@);
            }
        }
    }
}

/// Whether no key of the table repeats.
pub fn has_unique_keys<V>(t: &Vec<(Account, V)>) -> (r: bool)
    ensures
        r == keys_unique(t@),
{
    let mut i: usize = 0;
    while i < t.len()
        invariant
            i <= t@.len(),
            forall|a: int, b: int| 0 <= a < b < t@.len() && a < i ==> t@[a].0@ != t@[b].0@,
        decreases t@.len() - i,
    {
        let mut j: usize = i + 1;
        while j < t.len()
            invariant
                i < j <= t@.len(),
                forall|a: int, b: int| 0 <= a < b < t@.len() && a < i ==> t@[a].0@ != t@[b].0@,
                forall|b: int| i < b < j ==> t@[i as int].0@ != t@[b].0@,
            decreases t@.len() - j,
        {
            if t[i].0.equals(&t[j].0) {
                return false;
            }
            j = j + 1;
        }
        i = i + 1;
    }
    true
}

proof fn lemma_prefix_sum_le(s: Seq<(Account, u128)>, k: int)
    requires
        0 <= k <= s.len(),
    ensures
        sum_balances(s.subrange(0, k)) <= sum_balances(s),
    decreases s.len(),
{
    if k < s.len() {
        assert(s.drop_last().subrange(0, k) =~= s.subrange(0, k));
        lemma_prefix_sum_le(s.drop_last(), k);
    } else {
        assert(s.subrange(0, k) =~= s);
    }
}

/// Whether the balances sum to exactly `total`.
pub fn sums_to(t: &Vec<(Account, u128)>, total: u128) -> (r: bool)
    ensures
        r == (sum_balances(t@) == total),
{
    let mut acc: u128 = 0;
    let mut i: usize = 0;
    while i < t.len()
        invariant
            i <= t@.len(),
            acc as int == sum_balances(t@.subrange(0, i as int)),
        decreases t@.len() - i,
    {
        proof {
            assert(t@.subrange(0, i + 1).drop_last() =~= t@.subrange(0, i as int));
        }
        if acc > u128::MAX - t[i].1 {
            proof {
                lemma_prefix_sum_le(t@, i + 1);
            }
            return false;
        }
        acc = acc + t[i].1;
        i = i + 1;
    }
    proof {
        assert(t@.subrange(0, i as int) =~= t@);
    }
    acc == total
}

impl TokenState {
    /// Whether the state is well formed: what a state restored from storage
    /// must be before the ledger's operations may run on it.
    pub fn is_well_formed(&self) -> (r: bool)
        ensures
            r == self.wf(),
    {
        has_unique_keys(&self.all_user) && has_unique_keys(&self.all_users_balance) && sums_to(
            &self.all_users_balance,
            self.total_supply,
        )
    }
}

/// The cache of the ledger held for the life of the process.
pub struct StateStore {
    pub cache: Option<TokenState>,
}

impl StateStore {
    pub fn new() -> (r: StateStore)
        ensures
            r.cache.is_none(),
    {
        StateStore { cache: None }
    }

    /// Whether a load or save has filled the cache.
    pub fn is_loaded(&self) -> (r: bool)
        ensures
            r == self.cache.is_some(),
    {
        self.cache.is_some()
    }
}

/// Loads the ledger: the cached copy if there is one; else what storage
/// restored, or the default state when nothing was restored, which is then cached.
pub fn get_state(store: &mut StateStore, restored: Option<TokenState>) -> (r: TokenState)
    ensures
        r@ == loaded_view(old(store).cache, restored),
        final(store).cache.is_some(),
        final(store).cache.unwrap()@ == r@,
        old(store).cache.is_some() ==> final(store).cache == old(store).cache,
        r.wf() == final(store).cache.unwrap().wf(),
{
    match &store.cache {
        Some(c) => c.duplicate(),
        None => {
            let state = match restored {
                Some(t) => t,
                None => TokenState::empty(),
            };
            proof {
                assert(state@.users =~= default_view().users || restored.is_some());
                assert(state@.balances =~= default_view().balances || restored.is_some());
                assert(state@.history =~= default_view().history || restored.is_some());
            }
            let copy = state.duplicate();
            store.cache = Some(state);
            copy
        },
    }
}

/// Replaces the cached copy with `state`.
pub fn save_state(store: &mut StateStore, state: TokenState)
    ensures
        final(store).cache == Some(state),
{
    store.cache = Some(state);
}

/// A saved state is what the next load yields, within the process and, when
/// storage restores it intact, after a restart; with nothing restored a
/// restart yields the default state.
pub proof fn lemma_round_trip(s: TokenState, restored: Option<TokenState>)
    ensures
        loaded_view(Some(s), restored) == s@,
        loaded_view(None, Some(s)) == s@,
        loaded_view(None, None) == default_view(),
{
}

} // verus!
