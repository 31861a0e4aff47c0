//! Properties that relate several calls of the ledger's operations.
use vstd::prelude::*;

use crate::token::{
    admits, airdrop_records, involving, record, registration_effect, triggers_airdrop,
    AIRDROP_AMOUNT,
};
use crate::types::{no_sender_id, TokenState, TxRecord, TxType};

verus! {

/// Registering the same account twice changes the ledger only once: the
/// second call leaves it as the first left it.
pub proof fn lemma_register_twice(
    a: TokenState,
    b: TokenState,
    c: TokenState,
    caller: Seq<u8>,
    now1: u64,
    now2: u64,
)
    requires
        registration_effect(&a, &b, caller, now1),
        registration_effect(&b, &c, caller, now2),
    ensures
        c == b,
{
    if admits(&a, caller) {
        assert(b.is_registered(caller));
    }
}

/// Reaching the milestone airdrops once: every registered account gains the
/// airdrop amount, the supply grows by that amount per account and the
/// milestone doubles; the next registration, whoever makes it, airdrops
/// nothing. (A milestone of 1 doubles to 2 and is reached again at once.)
pub proof fn lemma_milestone_once(
    a: TokenState,
    b: TokenState,
    c: TokenState,
    first: Seq<u8>,
    second: Seq<u8>,
    now1: u64,
    now2: u64,
)
    requires
        triggers_airdrop(&a, first),
        a.airdrop_milestone >= 2,
        registration_effect(&a, &b, first, now1),
        registration_effect(&b, &c, second, now2),
    ensures
        b.user_count() == a.airdrop_milestone,
        b.airdrop_milestone == 2 * a.airdrop_milestone,
        b.total_supply == a.total_supply + AIRDROP_AMOUNT * a.airdrop_milestone,
        forall|x: Seq<u8>|
            b.is_registered(x) ==> #[trigger] b.balance(x) == a.balance(x) + AIRDROP_AMOUNT,
        forall|x: Seq<u8>| !b.is_registered(x) ==> #[trigger] b.balance(x) == a.balance(x),
        b.history() == a.history() + airdrop_records(b.all_user@, now1),
        airdrop_records(b.all_user@, now1).len() == a.airdrop_milestone,
        forall|k: int|
            0 <= k < b.user_count() ==> #[trigger] airdrop_records(b.all_user@, now1)[k] == record(
                no_sender_id(),
                b.all_user@[k].0@,
                AIRDROP_AMOUNT,
                now1,
                TxType::AirDrop,
            ),
        !triggers_airdrop(&b, second),
        c.total_supply == b.total_supply,
        c.airdrop_milestone == b.airdrop_milestone,
        forall|x: Seq<u8>| #[trigger] c.balance(x) == b.balance(x),
{
}

/// A history query yields only transactions that involve the account.
pub proof fn lemma_involving_only(h: Seq<TxRecord>, id: Seq<u8>)
    ensures
        forall|k: int|
            0 <= k < involving(h, id).len() ==> #[trigger] involving(h, id)[k].from == id
                || involving(h, id)[k].to == id,
        involving(h, id).len() <= h.len(),
    decreases h.len(),
{
    if h.len() > 0 {
        lemma_involving_only(h.drop_last(), id);
    }
}

/// A history query keeps the order of the log: a new transaction appears
/// last, after all earlier ones.
pub proof fn lemma_involving_append(h: Seq<TxRecord>, t: TxRecord, id: Seq<u8>)
    ensures
        involving(h.push(t), id) == if t.from == id || t.to == id {
            involving(h, id).push(t)
        } else {
            involving(h, id)
        },
{
    assert(h.push(t).drop_last() =~= h);
}

/// A transaction between other accounts leaves an account's history as it was.
pub proof fn lemma_involving_other(
    h: Seq<TxRecord>,
    id: Seq<u8>,
    from: Seq<u8>,
    to: Seq<u8>,
    amount: u128,
    now: u64,
    kind: TxType,
)
    requires
        from != id,
        to != id,
    ensures
        involving(h.push(record(from, to, amount, now, kind)), id) == involving(h, id),
{
    lemma_involving_append(h, record(from, to, amount, now, kind), id);
}

} // verus!
