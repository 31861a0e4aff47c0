//! The string interface: operations of the caller with amounts and
//! principals given as text, answering "Success" or "Failed".
use vstd::prelude::*;

use crate::token::{
    add_faucets, airdrop_fits, faucet_effect, get_transactions_for, involving, mint,
    mint_effect, mint_goes_ahead, new_user, profile_effect, registration_effect, transfer,
    transfer_effect, transfer_goes_ahead, update_user_details, FAUCET_AMOUNT,
};
use crate::types::{is_reserved, Account, TokenState, Transaction};
use crate::utils::{
    convert_from_string_to_principal, convert_from_string_to_u128, digits_value, is_amount,
    principal_from_text, unsigned_digits,
};

verus! {

broadcast use vstd::string::group_string_axioms;

/// The amount a text reads as: its decimal value, or 0.
pub open spec fn amount_of(text: Seq<char>) -> int {
    if is_amount(text) {
        digits_value(unsigned_digits(text))
    } else {
        0
    }
}

/// The account a text names: the principal it spells, or the caller.
pub open spec fn account_of(text: Seq<char>, caller: Seq<u8>) -> Seq<u8> {
    match principal_from_text(text) {
        Some(b) => b,
        None => caller,
    }
}

/// The answer of an operation of the string interface.
fn outcome(done: bool) -> (r: String)
    ensures
        r@ == "Success"@ || r@ == "Failed"@,
        (r@ == "Success"@) == done,
        (r@ == "Failed"@) == !done,
{
    proof {
        reveal_strlit("Success");
        reveal_strlit("Failed");
    }
    if done {
        let r = "Success".to_string();
        assert(r@ == "Success"@);
        assert(r@.len() != "Failed"@.len());
        r
    } else {
        let r = "Failed".to_string();
        assert(r@ == "Failed"@);
        assert(r@.len() != "Success"@.len());
        r
    }
}

/// Transfers from the caller; "Success" exactly when the transfer is made.
/// A receiver that reads as a reserved identifier is refused.
pub fn transfer_to(
    state: &mut TokenState,
    caller: &Account,
    receiver: String,
    amount: String,
    now: u64,
) -> (r: String)
    requires
        old(state).wf(),
    ensures
        final(state).wf(),
        old(state).no_reserved_entries() ==> final(state).no_reserved_entries(),
        r@ == "Success"@ || r@ == "Failed"@,
        (r@ == "Success"@) == (!is_reserved(account_of(receiver@, caller@)) && transfer_goes_ahead(
            old(state),
            caller@,
            account_of(receiver@, caller@),
            amount_of(amount@) as u128,
        )),
        r@ == "Failed"@ ==> *final(state) == *old(state),
        r@ == "Success"@ ==> transfer_effect(
            old(state),
            final(state),
            caller@,
            account_of(receiver@, caller@),
            amount_of(amount@) as u128,
            now,
        ),
{
    let to = convert_from_string_to_principal(receiver, caller);
    let value = convert_from_string_to_u128(amount);
    if to.is_reserved() {
        return outcome(false);
    }
    match transfer(state, caller, &to, value, now) {
        Ok(_) => outcome(true),
        Err(_) => outcome(false),
    }
}

/// Mints to the caller; "Success" exactly when the mint is made. A reserved
/// caller is refused.
pub fn mint_tokens(state: &mut TokenState, caller: &Account, amount: String, now: u64) -> (r: String)
    requires
        old(state).wf(),
        mint_goes_ahead(old(state), caller@, amount_of(amount@) as u128) ==> old(state).total_supply
            + amount_of(amount@) <= u128::MAX,
    ensures
        final(state).wf(),
        old(state).no_reserved_entries() ==> final(state).no_reserved_entries(),
        r@ == "Success"@ || r@ == "Failed"@,
        (r@ == "Success"@) == (!is_reserved(caller@) && mint_goes_ahead(
            old(state),
            caller@,
            amount_of(amount@) as u128,
        )),
        r@ == "Failed"@ ==> *final(state) == *old(state),
        r@ == "Success"@ ==> mint_effect(
            old(state),
            final(state),
            caller@,
            amount_of(amount@) as u128,
            now,
        ),
{
    let value = convert_from_string_to_u128(amount);
    if caller.is_reserved() {
        return outcome(false);
    }
    match mint(state, caller, value, caller, now) {
        Ok(_) => outcome(true),
        Err(_) => outcome(false),
    }
}

/// Sets the caller's profile; a reserved caller changes nothing.
pub fn update_profile_details(
    state: &mut TokenState,
    caller: &Account,
    username: String,
    email: String,
)
    requires
        old(state).wf(),
    ensures
        final(state).wf(),
        old(state).no_reserved_entries() ==> final(state).no_reserved_entries(),
        is_reserved(caller@) ==> *final(state) == *old(state),
        !is_reserved(caller@) ==> profile_effect(
            old(state),
            final(state),
            caller@,
            username@,
            email@,
        ),
{
    update_user_details(state, caller, username, email);
}

/// Registers the caller.
pub fn register_user(state: &mut TokenState, caller: &Account, now: u64)
    requires
        old(state).wf(),
        airdrop_fits(old(state), caller@),
    ensures
        final(state).wf(),
        old(state).no_reserved_entries() ==> final(state).no_reserved_entries(),
        registration_effect(old(state), final(state), caller@, now),
{
    new_user(state, caller, now);
}

/// Claims the faucet for the caller; a reserved caller changes nothing.
pub fn get_faucets(state: &mut TokenState, caller: &Account, now: u64)
    requires
        old(state).wf(),
        !is_reserved(caller@) && old(state).authority(caller@) != caller@ ==> old(state).balance(
            old(state).authority(caller@),
        ) >= FAUCET_AMOUNT,
    ensures
        final(state).wf(),
        old(state).no_reserved_entries() ==> final(state).no_reserved_entries(),
        is_reserved(caller@) ==> *final(state) == *old(state),
        !is_reserved(caller@) ==> faucet_effect(old(state), final(state), caller@, now),
{
    add_faucets(state, caller, now);
}

/// The caller's transactions, oldest first.
pub fn fetch_transactions(state: &TokenState, caller: &Account) -> (r: Vec<Transaction>)
    ensures
        r@.map_values(|t: Transaction| t@) == involving(state.history(), caller@),
{
    get_transactions_for(state, caller)
}

} // verus!
