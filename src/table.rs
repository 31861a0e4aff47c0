//! Tables keyed by account: vectors of `(Account, V)` pairs whose keys are
//! unique, with lookup, update and the sum of a balance table.
use vstd::prelude::*;

use crate::types::Account;

verus! {

pub open spec fn keys_unique<V>(s: Seq<(Account, V)>) -> bool {
    forall|i: int, j: int| 0 <= i < j < s.len() ==> s[i].0@ != s[j].0@
}

/// The value stored under `k`, if any.
pub open spec fn lookup<V>(s: Seq<(Account, V)>, k: Seq<u8>) -> Option<V>
    decreases s.len(),
{
    if s.len() == 0 {
        None
    } else if s.last().0@ == k {
        Some(s.last().1)
    } else {
        lookup(s.drop_last(), k)
    }
}

/// A balance: the stored amount, or 0 for an account without an entry.
pub open spec fn balance_of(s: Seq<(Account, u128)>, k: Seq<u8>) -> nat {
    match lookup(s, k) {
        Some(v) => v as nat,
        None => 0,
    }
}

pub open spec fn sum_balances(s: Seq<(Account, u128)>) -> int
    decreases s.len(),
{
    if s.len() == 0 {
        0
    } else {
        sum_balances(s.drop_last()) + s.last().1
    }
}

pub proof fn lemma_lookup_absent<V>(s: Seq<(Account, V)>, k: Seq<u8>)
    requires
        forall|i: int| 0 <= i < s.len() ==> s[i].0@ != k,
    ensures
        lookup(s, k).is_none(),
    decreases s.len(),
{
    if s.len() > 0 {
        lemma_lookup_absent(s.drop_last(), k);
    }
}

pub proof fn lemma_lookup_at<V>(s: Seq<(Account, V)>, i: int)
    requires
        keys_unique(s),
        0 <= i < s.len(),
    ensures
        lookup(s, s[i].0@) == Some(s[i].1),
    decreases s.len(),
{
    if i < s.len() - 1 {
        lemma_lookup_at(s.drop_last(), i);
    }
}

/// A key is present exactly where some entry carries it.
pub proof fn lemma_lookup_some<V>(s: Seq<(Account, V)>, k: Seq<u8>)
    requires
        keys_unique(s),
    ensures
        lookup(s, k).is_some() <==> exists|i: int| 0 <= i < s.len() && s[i].0@ == k,
{
    if exists|i: int| 0 <= i < s.len() && s[i].0@ == k {
        let i = choose|i: int| 0 <= i < s.len() && s[i].0@ == k;
        lemma_lookup_at(s, i);
    } else {
        lemma_lookup_absent(s, k);
    }
}

pub proof fn lemma_lookup_update<V>(s: Seq<(Account, V)>, i: int, e: (Account, V), k: Seq<u8>)
    requires
        keys_unique(s),
        0 <= i < s.len(),
        e.0@ == s[i].0@,
    ensures
        keys_unique(s.update(i, e)),
        lookup(s.update(i, e), k) == if k == e.0@ {
            Some(e.1)
        } else {
            lookup(s, k)
        },
    decreases s.len(),
{
    let t = s.update(i, e);
    if k == e.0@ {
        lemma_lookup_at(t, i);
    } else if i == s.len() - 1 {
        assert(t.drop_last() =~= s.drop_last());
    } else {
        assert(t.drop_last() =~= s.drop_last().update(i, e));
        lemma_lookup_update(s.drop_last(), i, e, k);
    }
}

pub proof fn lemma_lookup_push<V>(s: Seq<(Account, V)>, e: (Account, V), k: Seq<u8>)
    ensures
        lookup(s.push(e), k) == if k == e.0@ {
            Some(e.1)
        } else {
            lookup(s, k)
        },
{
    assert(s.push(e).drop_last() =~= s);
}

pub proof fn lemma_sum_update(s: Seq<(Account, u128)>, i: int, e: (Account, u128))
    requires
        0 <= i < s.len(),
    ensures
        sum_balances(s.update(i, e)) == sum_balances(s) - s[i].1 + e.1,
    decreases s.len(),
{
    let t = s.update(i, e);
    if i == s.len() - 1 {
        assert(t.drop_last() =~= s.drop_last());
    } else {
        assert(t.drop_last() =~= s.drop_last().update(i, e));
        lemma_sum_update(s.drop_last(), i, e);
    }
}

pub proof fn lemma_sum_push(s: Seq<(Account, u128)>, e: (Account, u128))
    ensures
        sum_balances(s.push(e)) == sum_balances(s) + e.1,
{
    assert(s.push(e).drop_last() =~= s);
}

pub proof fn lemma_sum_nonneg(s: Seq<(Account, u128)>)
    ensures
        sum_balances(s) >= 0,
    decreases s.len(),
{
    if s.len() > 0 {
        lemma_sum_nonneg(s.drop_last());
    }
}

/// Two different entries together hold no more than the whole table.
pub proof fn lemma_two_le_sum(s: Seq<(Account, u128)>, i: int, j: int)
    requires
        0 <= i < s.len(),
        0 <= j < s.len(),
        i != j,
    ensures
        s[i].1 + s[j].1 <= sum_balances(s),
    decreases s.len(),
{
    let n = s.len() - 1;
    lemma_sum_nonneg(s.drop_last());
    if i != n && j != n {
        lemma_two_le_sum(s.drop_last(), i, j);
    } else if i == n {
        lemma_one_le_sum(s.drop_last(), j);
    } else {
        lemma_one_le_sum(s.drop_last(), i);
    }
}

pub proof fn lemma_one_le_sum(s: Seq<(Account, u128)>, i: int)
    requires
        0 <= i < s.len(),
    ensures
        s[i].1 <= sum_balances(s),
    decreases s.len(),
{
    lemma_sum_nonneg(s.drop_last());
    if i != s.len() - 1 {
        lemma_one_le_sum(s.drop_last(), i);
    }
}

/// A balance never exceeds the table's sum.
pub proof fn lemma_balance_le_sum(s: Seq<(Account, u128)>, k: Seq<u8>)
    requires
        keys_unique(s),
    ensures
        balance_of(s, k) <= sum_balances(s),
{
    lemma_sum_nonneg(s);
    lemma_lookup_some(s, k);
    if lookup(s, k).is_some() {
        let i = choose|i: int| 0 <= i < s.len() && s[i].0@ == k;
        lemma_lookup_at(s, i);
        lemma_one_le_sum(s, i);
    }
}

/// Two different accounts' balances together never exceed the table's sum.
pub proof fn lemma_two_balances_le_sum(s: Seq<(Account, u128)>, a: Seq<u8>, b: Seq<u8>)
    requires
        keys_unique(s),
        a != b,
    ensures
        balance_of(s, a) + balance_of(s, b) <= sum_balances(s),
{
    lemma_lookup_some(s, a);
    lemma_lookup_some(s, b);
    if lookup(s, a).is_none() {
        lemma_balance_le_sum(s, b);
    } else if lookup(s, b).is_none() {
        lemma_balance_le_sum(s, a);
    } else {
        let i = choose|i: int| 0 <= i < s.len() && s[i].0@ == a;
        let j = choose|j: int| 0 <= j < s.len() && s[j].0@ == b;
        lemma_lookup_at(s, i);
        lemma_lookup_at(s, j);
        lemma_two_le_sum(s, i, j);
    }
}

/// The position of `k` in the table.
pub fn find<V>(t: &Vec<(Account, V)>, k: &Account) -> (r: Option<usize>)
    requires
        keys_unique(t@),
    ensures
        match r {
            Some(i) => i < t@.len() && t@[i as int].0@ == k@,
            None => forall|i: int| 0 <= i < t@.len() ==> t@[i].0@ != k@,
        },
        r.is_some() == lookup(t@, k@).is_some(),
{
    let mut i: usize = 0;
    while i < t.len()
        invariant
            keys_unique(t@),
            i <= t@.len(),
            forall|j: int| 0 <= j < i ==> t@[j].0@ != k@,
        decreases t@.len() - i,
    {
        if t[i].0.equals(k) {
            proof {
                lemma_lookup_at(t@, i as int);
            }
            return Some(i);
        }
        i = i + 1;
    }
    proof {
        lemma_lookup_absent(t@, k@);
    }
    None
}

/// The balance stored for `k`, or 0.
pub fn get_balance(t: &Vec<(Account, u128)>, k: &Account) -> (r: u128)
    requires
        keys_unique(t@),
    ensures
        r as nat == balance_of(t@, k@),
{
    match find(t, k) {
        Some(i) => {
            proof {
                lemma_lookup_at(t@, i as int);
            }
            t[i].1
        },
        None => 0,
    }
}

/// Stores `v` under `k`, replacing an existing entry or appending a new one.
pub fn set_entry<V>(t: &mut Vec<(Account, V)>, k: &Account, v: V)
    requires
        keys_unique(old(t)@),
    ensures
        keys_unique(final(t)@),
        forall|x: Seq<u8>|
            #![trigger lookup(final(t)@, x)]
            lookup(final(t)@, x) == if x == k@ {
                Some(v)
            } else {
                lookup(old(t)@, x)
            },
        forall|i: int| 0 <= i < old(t)@.len() ==> #[trigger] final(t)@[i].0@ == old(t)@[i].0@,
        lookup(old(t)@, k@).is_some() ==> final(t)@.len() == old(t)@.len(),
        lookup(old(t)@, k@).is_none() ==> final(t)@.len() == old(t)@.len() + 1 && final(t)@.last().0@
            == k@,
{
    match find(t, k) {
        Some(i) => {
            let e = (k.duplicate(), v);
            proof {
                assert forall|x: Seq<u8>| #[trigger]
                    lookup(t@.update(i as int, e), x) == if x == k@ {
                        Some(e.1)
                    } else {
                        lookup(t@, x)
                    } by {
                    lemma_lookup_update(t@, i as int, e, x);
                }
                lemma_lookup_update(t@, i as int, e, k@);
            }
            t.set(i, e);
        },
        None => {
            let e = (k.duplicate(), v);
            proof {
                assert forall|x: Seq<u8>| #[trigger]
                    lookup(t@.push(e), x) == if x == k@ {
                        Some(e.1)
                    } else {
                        lookup(t@, x)
                    } by {
                    lemma_lookup_push(t@, e, x);
                }
            }
            t.push(e);
        },
    }
}

/// Sets the balance of `k` to `v`; the sum moves by the difference.
pub fn set_balance(t: &mut Vec<(Account, u128)>, k: &Account, v: u128)
    requires
        keys_unique(old(t)@),
    ensures
        keys_unique(final(t)@),
        forall|x: Seq<u8>|
            #![trigger lookup(final(t)@, x)]
            lookup(final(t)@, x) == if x == k@ {
                Some(v)
            } else {
                lookup(old(t)@, x)
            },
        sum_balances(final(t)@) == sum_balances(old(t)@) - balance_of(old(t)@, k@) + v,
{
    match find(t, k) {
        Some(i) => {
            let e = (k.duplicate(), v);
            proof {
                lemma_lookup_at(t@, i as int);
                lemma_sum_update(t@, i as int, e);
                assert forall|x: Seq<u8>| #[trigger]
                    lookup(t@.update(i as int, e), x) == if x == k@ {
                        Some(e.1)
                    } else {
                        lookup(t@, x)
                    } by {
                    lemma_lookup_update(t@, i as int, e, x);
                }
                lemma_lookup_update(t@, i as int, e, k@);
            }
            t.set(i, e);
        },
        None => {
            let e = (k.duplicate(), v);
            proof {
                lemma_lookup_absent(t@, k@);
                lemma_sum_push(t@, e);
                assert forall|x: Seq<u8>| #[trigger]
                    lookup(t@.push(e), x) == if x == k@ {
                        Some(e.1)
                    } else {
                        lookup(t@, x)
                    } by {
                    lemma_lookup_push(t@, e, x);
                }
            }
            t.push(e);
        },
    }
}

} // verus!
