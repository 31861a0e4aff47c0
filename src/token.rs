//! The ledger's operations: queries, transfers, minting, registration with
//! milestone airdrops, the faucet and the per-account history.
use vstd::prelude::*;

use crate::table::{
    balance_of, find, get_balance, keys_unique, lemma_lookup_absent, lemma_lookup_at, lemma_lookup_push, lemma_sum_push, lemma_balance_le_sum, lemma_two_balances_le_sum, lookup,
    set_balance, set_entry, sum_balances,
};
use crate::types::{
    is_reserved, no_sender_id, Account, Errors, TokenState, Transaction, TxRecord, TxType,
    UserData,
};

verus! {

broadcast use vstd::string::group_string_axioms;

/// What each registered account receives in an airdrop.
pub const AIRDROP_AMOUNT: u128 = 60000;

/// What the faucet grants.
pub const FAUCET_AMOUNT: u128 = 100;

/// The record of a new transaction.
pub open spec fn record(from: Seq<u8>, to: Seq<u8>, amount: u128, now: u64, kind: TxType) -> TxRecord {
    TxRecord { from, to, amount, timestamp: now, tx_type: kind }
}

/// The records an airdrop appends: one per registered account, in order.
pub open spec fn airdrop_records(users: Seq<(Account, UserData)>, now: u64) -> Seq<TxRecord> {
    users.map_values(
        |e: (Account, UserData)| record(no_sender_id(), e.0@, AIRDROP_AMOUNT, now, TxType::AirDrop),
    )
}

/// The transactions of `h` in which `id` is sender or receiver, in order.
pub open spec fn involving(h: Seq<TxRecord>, id: Seq<u8>) -> Seq<TxRecord>
    decreases h.len(),
{
    if h.len() == 0 {
        Seq::empty()
    } else if h.last().from == id || h.last().to == id {
        involving(h.drop_last(), id).push(h.last())
    } else {
        involving(h.drop_last(), id)
    }
}

/// Everything but the balances, the supply and the history is as before.
pub open spec fn same_accounts(a: &TokenState, b: &TokenState) -> bool {
    &&& a.all_user == b.all_user
    &&& a.minting_account == b.minting_account
    &&& a.airdrop_milestone == b.airdrop_milestone
}

/// A balance entry exists only where one existed or for one of the given accounts.
pub open spec fn entries_within(a: &TokenState, b: &TokenState, x: Seq<u8>, y: Seq<u8>) -> bool {
    forall|id: Seq<u8>|
        #[trigger] b.has_balance_entry(id) ==> a.has_balance_entry(id) || id == x || id == y
}

/// A registration that adds the caller: it is not reserved and is unknown.
pub open spec fn admits(s: &TokenState, caller: Seq<u8>) -> bool {
    !is_reserved(caller) && !s.is_registered(caller) && !s.has_balance_entry(caller)
}

/// A registration that reaches the milestone.
pub open spec fn triggers_airdrop(s: &TokenState, caller: Seq<u8>) -> bool {
    admits(s, caller) && s.user_count() + 1 == s.airdrop_milestone
}

/// The supply after the airdrop that a registration triggers still fits.
pub open spec fn airdrop_fits(s: &TokenState, caller: Seq<u8>) -> bool {
    triggers_airdrop(s, caller) ==> s.total_supply + AIRDROP_AMOUNT * (s.user_count() + 1)
        <= u128::MAX
}

/// The supply the authority holds at first boot.
pub const INITIAL_SUPPLY: u128 = 90000000000;

/// The first milestone.
pub const INITIAL_MILESTONE: u128 = 5;

/// The ledger at first boot: `minter` is the authority, registered as the
/// administrator, and holds the whole supply.
pub fn init(minter: &Account) -> (r: TokenState)
    ensures
        r.wf(),
        r.total_supply == INITIAL_SUPPLY,
        forall|x: Seq<u8>|
            #[trigger] r.balance(x) == if x == minter@ {
                INITIAL_SUPPLY as nat
            } else {
                0
            },
        r.all_user@.len() == 1,
        r.all_user@[0].0@ == minter@,
        r.all_user@[0].1@ == ("Admin"@, "minter404@gmail.com"@),
        r.all_users_balance@.len() == 1,
        !is_reserved(minter@) ==> r.no_reserved_entries(),
        r.minting_account.is_some(),
        r.minting_account.unwrap()@ == minter@,
        r.airdrop_milestone == INITIAL_MILESTONE,
        r.transactions@.len() == 0,
{
    let admin = UserData { name: "Admin".to_string(), email: "minter404@gmail.com".to_string() };
    let mut all_user: Vec<(Account, UserData)> = Vec::new();
    all_user.push((minter.duplicate(), admin));
    let mut all_users_balance: Vec<(Account, u128)> = Vec::new();
    all_users_balance.push((minter.duplicate(), INITIAL_SUPPLY));
    let r = TokenState {
        total_supply: INITIAL_SUPPLY,
        all_user,
        all_users_balance,
        minting_account: Some(minter.duplicate()),
        airdrop_milestone: INITIAL_MILESTONE,
        transactions: Vec::new(),
    };
    proof {
        let b = r.all_users_balance@;
        let e = Seq::<(Account, u128)>::empty();
        assert(b =~= e.push(b[0]));
        lemma_sum_push(e, b[0]);
        assert forall|x: Seq<u8>| #[trigger] r.balance(x) == if x == minter@ {
            INITIAL_SUPPLY as nat
        } else {
            0
        } by {
            lemma_lookup_push(e, b[0], x);
        }
        let u = r.all_user@;
        let eu = Seq::<(Account, UserData)>::empty();
        assert(u =~= eu.push(u[0]));
        assert forall|x: Seq<u8>| #[trigger] lookup(u, x).is_some() ==> x == minter@ by {
            lemma_lookup_push(eu, u[0], x);
        }
        assert forall|x: Seq<u8>| #[trigger] lookup(b, x).is_some() ==> x == minter@ by {
            lemma_lookup_push(e, b[0], x);
        }
    }
    r
}

pub fn token_name() -> (r: String)
    ensures
        r@ == "CoreX"@,
{
    "CoreX".to_string()
}

pub fn token_symbol() -> (r: String)
    ensures
        r@ == "CRX"@,
{
    "CRX".to_string()
}

pub fn total_supply(state: &TokenState) -> (r: u128)
    ensures
        r == state.total_supply,
{
    state.total_supply
}

/// The balance of `account`: 0 when it holds no entry.
pub fn check_balance(state: &TokenState, account: &Account) -> (r: u128)
    requires
        state.wf(),
    ensures
        r as nat == state.balance(account@),
{
    get_balance(&state.all_users_balance, account)
}

/// The profile of `account`; an empty one when it is not registered.
pub fn profile_of(state: &TokenState, account: &Account) -> (r: UserData)
    requires
        state.wf(),
    ensures
        match lookup(state.all_user@, account@) {
            Some(u) => r@ == u@,
            None => r@.0.len() == 0 && r@.1.len() == 0,
        },
{
    match find(&state.all_user, account) {
        Some(i) => {
            proof {
                lemma_lookup_at(state.all_user@, i as int);
            }
            state.all_user[i].1.duplicate()
        },
        None => UserData::empty(),
    }
}

/// The minting authority; the caller itself when none is configured.
pub fn minter(state: &TokenState, caller: &Account) -> (r: Account)
    ensures
        r@ == state.authority(caller@),
{
    match &state.minting_account {
        Some(m) => m.duplicate(),
        None => caller.duplicate(),
    }
}

/// Every balance entry but those of `x` and `y` is as before.
pub open spec fn others_kept(a: &TokenState, b: &TokenState, x: Seq<u8>, y: Seq<u8>) -> bool {
    forall|id: Seq<u8>|
        id != x && id != y ==> #[trigger] lookup(b.all_users_balance@, id) == lookup(
            a.all_users_balance@,
            id,
        )
}

/// A transfer goes ahead: a nonzero amount, another receiver, enough funds.
pub open spec fn transfer_goes_ahead(s: &TokenState, caller: Seq<u8>, receiver: Seq<u8>, amount: u128) -> bool {
    amount != 0 && receiver != caller && s.balance(caller) >= amount
}

/// What a transfer that goes ahead does to the ledger.
pub open spec fn transfer_effect(
    a: &TokenState,
    b: &TokenState,
    caller: Seq<u8>,
    receiver: Seq<u8>,
    amount: u128,
    now: u64,
) -> bool {
    &&& same_accounts(a, b)
    &&& b.total_supply == a.total_supply
    &&& b.balance(caller) == a.balance(caller) - amount
    &&& b.balance(receiver) == a.balance(receiver) + amount
    &&& forall|x: Seq<u8>|
        x != caller && x != receiver ==> #[trigger] b.balance(x) == a.balance(x)
    &&& others_kept(a, b, caller, receiver)
    &&& entries_within(a, b, caller, receiver)
    &&& b.history() == a.history().push(record(caller, receiver, amount, now, TxType::Transfer))
}

/// A mint goes ahead: the caller is the authority and the amount is nonzero.
pub open spec fn mint_goes_ahead(s: &TokenState, caller: Seq<u8>, amount: u128) -> bool {
    s.authority(caller) == caller && amount != 0
}

/// What a mint that goes ahead does to the ledger.
pub open spec fn mint_effect(a: &TokenState, b: &TokenState, account: Seq<u8>, amount: u128, now: u64) -> bool {
    &&& same_accounts(a, b)
    &&& b.total_supply == a.total_supply + amount
    &&& b.balance(account) == a.balance(account) + amount
    &&& forall|x: Seq<u8>| x != account ==> #[trigger] b.balance(x) == a.balance(x)
    &&& others_kept(a, b, account, account)
    &&& entries_within(a, b, account, account)
    &&& b.history() == a.history().push(record(no_sender_id(), account, amount, now, TxType::Mint))
}

/// What the faucet does for an unreserved caller.
pub open spec fn faucet_effect(a: &TokenState, b: &TokenState, caller: Seq<u8>, now: u64) -> bool {
    let m = a.authority(caller);
    &&& same_accounts(a, b)
    &&& b.total_supply == a.total_supply
    &&& forall|x: Seq<u8>|
        #[trigger] b.balance(x) == if m == caller {
            a.balance(x) as int
        } else if x == caller {
            a.balance(x) + FAUCET_AMOUNT
        } else if x == m {
            a.balance(x) - FAUCET_AMOUNT
        } else {
            a.balance(x) as int
        }
    &&& others_kept(a, b, caller, m)
    &&& entries_within(a, b, caller, m)
    &&& b.history() == a.history().push(record(m, caller, FAUCET_AMOUNT, now, TxType::Faucet))
}

/// What a profile update by an unreserved caller does to the ledger.
pub open spec fn profile_effect(
    a: &TokenState,
    b: &TokenState,
    caller: Seq<u8>,
    name: Seq<char>,
    email: Seq<char>,
) -> bool {
    &&& lookup(b.all_user@, caller).is_some()
    &&& lookup(b.all_user@, caller).unwrap()@ == (name, email)
    &&& forall|x: Seq<u8>|
        x != caller ==> #[trigger] lookup(b.all_user@, x) == lookup(a.all_user@, x)
    &&& b.all_users_balance == a.all_users_balance
    &&& b.total_supply == a.total_supply
    &&& b.minting_account == a.minting_account
    &&& b.airdrop_milestone == a.airdrop_milestone
    &&& b.transactions == a.transactions
}

/// Moves `amount` from `caller` to `receiver`; returns the caller's new balance.
///
/// A reserved identifier is never credited, so it may not be the receiver.
pub fn transfer(
    state: &mut TokenState,
    caller: &Account,
    receiver: &Account,
    amount: u128,
    now: u64,
) -> (r: Result<u128, Errors>)
    requires
        old(state).wf(),
        !is_reserved(receiver@),
    ensures
        final(state).wf(),
        old(state).no_reserved_entries() ==> final(state).no_reserved_entries(),
        amount == 0 ==> r == Err::<u128, Errors>(Errors::ZeroTransfer),
        amount != 0 && receiver@ == caller@ ==> r == Err::<u128, Errors>(
            Errors::ReceiverSameAsSender,
        ),
        amount != 0 && receiver@ != caller@ && old(state).balance(caller@) < amount ==> r == Err::<
            u128,
            Errors,
        >(Errors::InsufficientFunds { balance: old(state).balance(caller@) as u128 }),
        r.is_ok() == transfer_goes_ahead(old(state), caller@, receiver@, amount),
        r.is_err() ==> *final(state) == *old(state),
        r.is_ok() ==> {
            &&& r == Ok::<u128, Errors>((old(state).balance(caller@) - amount) as u128)
            &&& transfer_effect(old(state), final(state), caller@, receiver@, amount, now)
        },
{
    if amount == 0 {
        return Err(Errors::ZeroTransfer);
    }
    if receiver.equals(caller) {
        return Err(Errors::ReceiverSameAsSender);
    }
    let balance = get_balance(&state.all_users_balance, caller);
    if balance < amount {
        return Err(Errors::InsufficientFunds { balance });
    }
    let ghost s0 = state.all_users_balance@;
    let receiver_balance = get_balance(&state.all_users_balance, receiver);
    proof {
        lemma_two_balances_le_sum(s0, caller@, receiver@);
    }
    set_balance(&mut state.all_users_balance, caller, balance - amount);
    set_balance(&mut state.all_users_balance, receiver, receiver_balance + amount);
    let tx = Transaction {
        from: caller.duplicate(),
        to: receiver.duplicate(),
        amount,
        timestamp: now,
        tx_type: TxType::Transfer,
    };
    let ghost h0 = state.transactions@;
    state.transactions.push(tx);
    proof {
        assert(state.history() =~= h0.map_values(|t: Transaction| t@).push(tx@));
    }
    Ok(balance - amount)
}

/// Credits `account` with `amount` new tokens; only the authority may mint.
///
/// A mint that goes ahead must keep the supply within 128 bits and may not
/// credit a reserved identifier.
pub fn mint(state: &mut TokenState, caller: &Account, amount: u128, account: &Account, now: u64) -> (r:
    Result<(), Errors>)
    requires
        old(state).wf(),
        mint_goes_ahead(old(state), caller@, amount) ==> old(state).total_supply + amount
            <= u128::MAX && !is_reserved(account@),
    ensures
        final(state).wf(),
        old(state).no_reserved_entries() ==> final(state).no_reserved_entries(),
        old(state).authority(caller@) != caller@ ==> r == Err::<(), Errors>(Errors::NotTheMinter),
        old(state).authority(caller@) == caller@ && amount == 0 ==> r == Err::<(), Errors>(
            Errors::ZeroTransfer,
        ),
        r.is_ok() == mint_goes_ahead(old(state), caller@, amount),
        r.is_err() ==> *final(state) == *old(state),
        r.is_ok() ==> mint_effect(old(state), final(state), account@, amount, now),
{
    let authority = minter(state, caller);
    if !authority.equals(caller) {
        return Err(Errors::NotTheMinter);
    }
    if amount == 0 {
        return Err(Errors::ZeroTransfer);
    }
    let curr_balance = get_balance(&state.all_users_balance, account);
    proof {
        lemma_balance_le_sum(state.all_users_balance@, account@);
    }
    set_balance(&mut state.all_users_balance, account, curr_balance + amount);
    state.total_supply = state.total_supply + amount;
    let tx = Transaction {
        from: Account::no_sender(),
        to: account.duplicate(),
        amount,
        timestamp: now,
        tx_type: TxType::Mint,
    };
    let ghost h0 = state.transactions@;
    state.transactions.push(tx);
    proof {
        assert(state.history() =~= h0.map_values(|t: Transaction| t@).push(tx@));
    }
    Ok(())
}

/// Sets the caller's profile, adding the caller to the accounts if absent;
/// a reserved caller changes nothing.
pub fn update_user_details(state: &mut TokenState, caller: &Account, username: String, email: String)
    requires
        old(state).wf(),
    ensures
        final(state).wf(),
        old(state).no_reserved_entries() ==> final(state).no_reserved_entries(),
        is_reserved(caller@) ==> *final(state) == *old(state),
        !is_reserved(caller@) ==> profile_effect(
            old(state),
            final(state),
            caller@,
            username@,
            email@,
        ),
{
    if caller.is_reserved() {
        return;
    }
    set_entry(&mut state.all_user, caller, UserData { name: username, email });
}

/// Grants the caller the faucet amount, taken from the authority's balance;
/// a reserved caller changes nothing.
///
/// When the caller is the authority the credit and the debit cancel out.
pub fn add_faucets(state: &mut TokenState, caller: &Account, now: u64)
    requires
        old(state).wf(),
        !is_reserved(caller@) && old(state).authority(caller@) != caller@ ==> old(state).balance(
            old(state).authority(caller@),
        ) >= FAUCET_AMOUNT,
    ensures
        final(state).wf(),
        old(state).no_reserved_entries() ==> final(state).no_reserved_entries(),
        is_reserved(caller@) ==> *final(state) == *old(state),
        !is_reserved(caller@) ==> faucet_effect(old(state), final(state), caller@, now),
{
    if caller.is_reserved() {
        return;
    }
    let authority = minter(state, caller);
    let curr_balance = get_balance(&state.all_users_balance, caller);
    if authority.equals(caller) {
        set_balance(&mut state.all_users_balance, caller, curr_balance);
    } else {
        let authority_balance = get_balance(&state.all_users_balance, &authority);
        proof {
            lemma_two_balances_le_sum(state.all_users_balance@, caller@, authority@);
        }
        set_balance(&mut state.all_users_balance, caller, curr_balance + FAUCET_AMOUNT);
        set_balance(&mut state.all_users_balance, &authority, authority_balance - FAUCET_AMOUNT);
    }
    let tx = Transaction {
        from: authority,
        to: caller.duplicate(),
        amount: FAUCET_AMOUNT,
        timestamp: now,
        tx_type: TxType::Faucet,
    };
    let ghost h0 = state.transactions@;
    state.transactions.push(tx);
    proof {
        assert(state.history() =~= h0.map_values(|t: Transaction| t@).push(tx@));
    }
}

/// The transactions in which `account` is sender or receiver, oldest first.
pub fn get_transactions_for(state: &TokenState, account: &Account) -> (r: Vec<Transaction>)
    ensures
        r@.map_values(|t: Transaction| t@) == involving(state.history(), account@),
{
    let mut r: Vec<Transaction> = Vec::new();
    let mut i: usize = 0;
    while i < state.transactions.len()
        invariant
            i <= state.transactions@.len(),
            r@.map_values(|t: Transaction| t@) == involving(
                state.history().subrange(0, i as int),
                account@,
            ),
        decreases state.transactions@.len() - i,
    {
        let tx = &state.transactions[i];
        let ghost prev = r@;
        proof {
            assert(state.history().subrange(0, i + 1).drop_last() =~= state.history().subrange(
                0,
                i as int,
            ));
        }
        if tx.from.equals(account) || tx.to.equals(account) {
            let t = tx.duplicate();
            r.push(t);
            proof {
                assert(r@.map_values(|t: Transaction| t@) =~= prev.map_values(
                    |t: Transaction| t@,
                ).push(t@));
            }
        }
        i = i + 1;
    }
    proof {
        assert(state.history().subrange(0, i as int) =~= state.history());
    }
    r
}

/// What a call of `new_user` by `caller` at time `now` does to the ledger.
pub open spec fn registration_effect(a: &TokenState, b: &TokenState, caller: Seq<u8>, now: u64) -> bool {
    if !admits(a, caller) {
        *b == *a
    } else {
        &&& b.all_user@.len() == a.all_user@.len() + 1
        &&& forall|i: int| 0 <= i < a.all_user@.len() ==> #[trigger] b.all_user@[i] == a.all_user@[i]
        &&& b.all_user@.last().0@ == caller
        &&& b.all_user@.last().1@.0.len() == 0
        &&& b.all_user@.last().1@.1.len() == 0
        &&& b.minting_account == a.minting_account
        &&& b.has_balance_entry(caller)
        &&& if triggers_airdrop(a, caller) {
            &&& b.total_supply == a.total_supply + AIRDROP_AMOUNT * b.user_count()
            &&& b.airdrop_milestone == 2 * a.airdrop_milestone
            &&& forall|x: Seq<u8>|
                #[trigger] b.balance(x) == a.balance(x) + if b.is_registered(x) {
                    AIRDROP_AMOUNT as int
                } else {
                    0
                }
            &&& forall|x: Seq<u8>|
                #[trigger] b.has_balance_entry(x) ==> a.has_balance_entry(x) || x == a.authority(
                    caller,
                ) || b.is_registered(x)
            &&& b.history() == a.history() + airdrop_records(b.all_user@, now)
        } else {
            &&& b.total_supply == a.total_supply
            &&& b.airdrop_milestone == a.airdrop_milestone
            &&& forall|x: Seq<u8>| #[trigger] b.balance(x) == a.balance(x)
            &&& others_kept(a, b, caller, caller)
            &&& entries_within(a, b, caller, caller)
            &&& b.history() == a.history()
        }
    }
}

/// Registers the caller with an empty profile and a zero balance; when the
/// count of accounts reaches the milestone, every account receives the
/// airdrop amount and the milestone doubles.
pub fn new_user(state: &mut TokenState, caller: &Account, now: u64)
    requires
        old(state).wf(),
        airdrop_fits(old(state), caller@),
    ensures
        final(state).wf(),
        registration_effect(old(state), final(state), caller@, now),
        old(state).no_reserved_entries() ==> final(state).no_reserved_entries(),
{
    if caller.is_reserved() {
        return;
    }
    if find(&state.all_user, caller).is_some() || find(&state.all_users_balance, caller).is_some() {
        return;
    }
    let ghost s0 = *state;
    let ghost u0 = state.all_user@;
    state.all_user.push((caller.duplicate(), UserData::empty()));
    proof {
        assert forall|x: Seq<u8>| #[trigger]
            lookup(state.all_user@, x) == if x == caller@ {
                Some(state.all_user@.last().1)
            } else {
                lookup(u0, x)
            } by {
            assert(state.all_user@.drop_last() =~= u0);
        }
    }
    set_balance(&mut state.all_users_balance, caller, 0);
    let total_users = state.all_user.len() as u128;
    if total_users == state.airdrop_milestone {
        let total_airdrop = AIRDROP_AMOUNT * total_users;
        let authority = minter(state, caller);
        let authority_balance = get_balance(&state.all_users_balance, &authority);
        proof {
            lemma_balance_le_sum(state.all_users_balance@, authority@);
        }
        set_balance(
            &mut state.all_users_balance,
            &authority,
            (authority_balance + total_airdrop) - total_airdrop,
        );
        let ghost b1 = state.all_users_balance@;
        let ghost h1 = state.history();
        let ghost users = state.all_user@;
        let n = state.all_user.len();
        let mut i: usize = 0;
        while i < n
            invariant
                n == users.len(),
                i <= n,
                state.all_user@ == users,
                state.minting_account == s0.minting_account,
                state.airdrop_milestone == s0.airdrop_milestone,
                state.total_supply == s0.total_supply,
                keys_unique(users),
                keys_unique(state.all_users_balance@),
                s0.total_supply + AIRDROP_AMOUNT * n <= u128::MAX,
                sum_balances(state.all_users_balance@) == s0.total_supply + AIRDROP_AMOUNT * i,
                forall|x: Seq<u8>|
                    #[trigger] balance_of(state.all_users_balance@, x) == balance_of(b1, x) + if lookup(
                        users.subrange(0, i as int),
                        x,
                    ).is_some() {
                        AIRDROP_AMOUNT as int
                    } else {
                        0
                    },
                forall|x: Seq<u8>|
                    #[trigger] lookup(state.all_users_balance@, x).is_some() ==> lookup(
                        b1,
                        x,
                    ).is_some() || lookup(users.subrange(0, i as int), x).is_some(),
                state.history() == h1 + airdrop_records(users.subrange(0, i as int), now),
            decreases n - i,
        {
            let user = state.all_user[i].0.duplicate();
            let curr_balance = get_balance(&state.all_users_balance, &user);
            proof {
                lemma_balance_le_sum(state.all_users_balance@, user@);
                assert(AIRDROP_AMOUNT * i + AIRDROP_AMOUNT <= AIRDROP_AMOUNT * n) by (nonlinear_arith)
                    requires
                        i < n,
                ;
                assert(users.subrange(0, i + 1).drop_last() =~= users.subrange(0, i as int));
            }
            let ghost before = state.all_users_balance@;
            set_balance(&mut state.all_users_balance, &user, curr_balance + AIRDROP_AMOUNT);
            proof {
                let prefix = users.subrange(0, i as int);
                assert forall|j: int| 0 <= j < prefix.len() implies prefix[j].0@ != user@ by {
                    assert(prefix[j] == users[j]);
                }
                lemma_lookup_absent(prefix, user@);
                assert forall|x: Seq<u8>|
                    #[trigger] balance_of(state.all_users_balance@, x) == balance_of(b1, x) + if lookup(
                        users.subrange(0, i + 1),
                        x,
                    ).is_some() {
                        AIRDROP_AMOUNT as int
                    } else {
                        0
                    } by {
                    assert(lookup(state.all_users_balance@, x) == if x == user@ {
                        Some((curr_balance + AIRDROP_AMOUNT) as u128)
                    } else {
                        lookup(before, x)
                    });
                    assert(balance_of(before, x) == balance_of(b1, x) + if lookup(prefix, x).is_some() {
                        AIRDROP_AMOUNT as int
                    } else {
                        0
                    });
                }
            }
            let tx = Transaction {
                from: Account::no_sender(),
                to: user,
                amount: AIRDROP_AMOUNT,
                timestamp: now,
                tx_type: TxType::AirDrop,
            };
            let ghost hprev = state.transactions@;
            state.transactions.push(tx);
            proof {
                assert(state.history() =~= hprev.map_values(|t: Transaction| t@).push(tx@));
                assert(airdrop_records(users.subrange(0, i + 1), now) =~= airdrop_records(
                    users.subrange(0, i as int),
                    now,
                ).push(tx@));
                assert(AIRDROP_AMOUNT * (i + 1) == AIRDROP_AMOUNT * i + AIRDROP_AMOUNT)
                    by (nonlinear_arith);
            }
            i = i + 1;
        }
        proof {
            assert(users.subrange(0, n as int) =~= users);
        }
        state.total_supply = state.total_supply + total_airdrop;
        state.airdrop_milestone = state.airdrop_milestone * 2;
        proof {
            assert(state.is_registered(caller@));
            assert(state.balance(caller@) >= AIRDROP_AMOUNT);
        }
    }
}

} // verus!
