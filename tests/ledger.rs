use my_token_backend::state::{get_state, save_state, StateStore};
use my_token_backend::token::{
    add_faucets, check_balance, get_transactions_for, init, mint, minter, new_user, profile_of,
    token_name,
    token_symbol, total_supply, transfer, update_user_details,
};
use my_token_backend::types::{Account, Errors, TokenState, TxType};
use my_token_backend::user::{mint_tokens, transfer_to};
use my_token_backend::utils::{convert_from_string_to_principal, convert_from_string_to_u128};

fn acct(b: u8) -> Account {
    Account::new(vec![b, 7, 7])
}

fn sum_of_balances(s: &TokenState) -> u128 {
    s.all_users_balance.iter().map(|e| e.1).sum()
}

fn no_reserved(s: &TokenState) -> bool {
    let anon = Account::anonymous();
    let none = Account::no_sender();
    s.all_users_balance
        .iter()
        .all(|e| !e.0.equals(&anon) && !e.0.equals(&none))
}

#[test]
fn metadata() {
    assert_eq!(token_name(), "CoreX");
    assert_eq!(token_symbol(), "CRX");
    let m = acct(1);
    let s = init(&m);
    assert_eq!(total_supply(&s), 90000000000);
    assert_eq!(check_balance(&s, &m), 90000000000);
    assert!(minter(&s, &acct(2)).equals(&m));
}

#[test]
fn minter_defaults_to_caller() {
    let s = TokenState::empty();
    assert!(minter(&s, &acct(9)).equals(&acct(9)));
}

#[test]
fn transfer_insufficient_funds() {
    let m = acct(1);
    let a = acct(2);
    let b = acct(3);
    let mut s = init(&m);
    assert_eq!(transfer(&mut s, &m, &a, 50, 1), Ok(90000000000 - 50));
    assert_eq!(
        transfer(&mut s, &a, &b, 100, 2),
        Err(Errors::InsufficientFunds { balance: 50 })
    );
    assert_eq!(check_balance(&s, &a), 50);
    assert_eq!(check_balance(&s, &b), 0);
    assert_eq!(s.transactions.len(), 1);
}

#[test]
fn transfer_to_self_refused() {
    let m = acct(1);
    let mut s = init(&m);
    assert_eq!(transfer(&mut s, &m, &m, 10, 1), Err(Errors::ReceiverSameAsSender));
    let poor = acct(4);
    assert_eq!(transfer(&mut s, &poor, &poor, 10, 1), Err(Errors::ReceiverSameAsSender));
    assert_eq!(check_balance(&s, &m), 90000000000);
}

#[test]
fn transfer_zero_refused() {
    let m = acct(1);
    let mut s = init(&m);
    assert_eq!(transfer(&mut s, &m, &acct(2), 0, 1), Err(Errors::ZeroTransfer));
}

#[test]
fn transfer_moves_balance_and_logs() {
    let m = acct(1);
    let b = acct(3);
    let mut s = init(&m);
    assert_eq!(transfer(&mut s, &m, &b, 1000, 42), Ok(89999999000));
    assert_eq!(check_balance(&s, &b), 1000);
    assert_eq!(total_supply(&s), 90000000000);
    assert_eq!(sum_of_balances(&s), total_supply(&s));
    let t = &s.transactions[0];
    assert!(t.from.equals(&m) && t.to.equals(&b));
    assert_eq!((t.amount, t.timestamp, t.tx_type), (1000, 42, TxType::Transfer));
}

#[test]
fn mint_by_non_authority_refused() {
    let m = acct(1);
    let other = acct(2);
    let mut s = init(&m);
    assert_eq!(mint(&mut s, &other, 10, &other, 1), Err(Errors::NotTheMinter));
    assert_eq!(total_supply(&s), 90000000000);
    assert_eq!(check_balance(&s, &other), 0);
}

#[test]
fn mint_by_authority() {
    let m = acct(1);
    let t = acct(2);
    let mut s = init(&m);
    assert_eq!(mint(&mut s, &m, 0, &t, 1), Err(Errors::ZeroTransfer));
    assert_eq!(mint(&mut s, &m, 10, &t, 5), Ok(()));
    assert_eq!(total_supply(&s), 90000000010);
    assert_eq!(check_balance(&s, &t), 10);
    assert!(s.transactions[0].from.equals(&Account::no_sender()));
    assert_eq!(s.transactions[0].tx_type, TxType::Mint);
    assert_eq!(sum_of_balances(&s), total_supply(&s));
}

#[test]
fn mint_without_authority_is_self_minting() {
    let mut s = TokenState::empty();
    let c = acct(5);
    assert_eq!(mint(&mut s, &c, 7, &c, 1), Ok(()));
    assert_eq!(check_balance(&s, &c), 7);
    assert_eq!(total_supply(&s), 7);
}

#[test]
fn register_twice_changes_once() {
    let m = acct(1);
    let a = acct(2);
    let mut s = init(&m);
    new_user(&mut s, &a, 1);
    assert_eq!(s.all_user.len(), 2);
    assert_eq!(s.all_users_balance.len(), 2);
    new_user(&mut s, &a, 2);
    assert_eq!(s.all_user.len(), 2);
    assert_eq!(s.all_users_balance.len(), 2);
    assert_eq!(check_balance(&s, &a), 0);
}

#[test]
fn register_anonymous_ignored() {
    let m = acct(1);
    let mut s = init(&m);
    new_user(&mut s, &Account::anonymous(), 1);
    assert_eq!(s.all_user.len(), 1);
    assert!(no_reserved(&s));
}

#[test]
fn milestone_airdrop_once() {
    let m = acct(1);
    let mut s = init(&m);
    for b in 2..=5u8 {
        new_user(&mut s, &acct(b), b as u64);
    }
    assert_eq!(s.all_user.len(), 5);
    assert_eq!(s.airdrop_milestone, 10);
    assert_eq!(total_supply(&s), 90000000000 + 5 * 60000);
    assert_eq!(check_balance(&s, &m), 90000000000 + 60000);
    for b in 2..=5u8 {
        assert_eq!(check_balance(&s, &acct(b)), 60000);
    }
    let drops = s
        .transactions
        .iter()
        .filter(|t| t.tx_type == TxType::AirDrop)
        .count();
    assert_eq!(drops, 5);
    assert!(s
        .transactions
        .iter()
        .all(|t| t.from.equals(&Account::no_sender()) && t.amount == 60000));
    new_user(&mut s, &acct(6), 9);
    assert_eq!(s.airdrop_milestone, 10);
    assert_eq!(check_balance(&s, &acct(6)), 0);
    assert_eq!(total_supply(&s), 90000000000 + 5 * 60000);
    assert_eq!(sum_of_balances(&s), total_supply(&s));
}

#[test]
fn faucet_moves_from_authority() {
    let m = acct(1);
    let c = acct(2);
    let mut s = init(&m);
    add_faucets(&mut s, &c, 3);
    assert_eq!(check_balance(&s, &c), 100);
    assert_eq!(check_balance(&s, &m), 90000000000 - 100);
    assert_eq!(total_supply(&s), 90000000000);
    assert_eq!(s.transactions[0].tx_type, TxType::Faucet);
    assert!(s.transactions[0].from.equals(&m));
}

#[test]
fn faucet_by_authority_nets_zero() {
    let m = acct(1);
    let mut s = init(&m);
    add_faucets(&mut s, &m, 3);
    assert_eq!(check_balance(&s, &m), 90000000000);
    assert_eq!(sum_of_balances(&s), total_supply(&s));
}

#[test]
fn supply_equals_sum_after_mixed_operations() {
    let m = acct(1);
    let mut s = init(&m);
    new_user(&mut s, &acct(2), 1);
    let _ = transfer(&mut s, &m, &acct(2), 500, 2);
    let _ = mint(&mut s, &m, 77, &acct(3), 3);
    add_faucets(&mut s, &acct(4), 4);
    for b in 5..=7u8 {
        new_user(&mut s, &acct(b), 5);
    }
    let _ = transfer(&mut s, &acct(2), &acct(6), 1000, 6);
    assert_eq!(sum_of_balances(&s), total_supply(&s));
    assert!(s.is_well_formed());
}

#[test]
fn history_for_account_only_and_in_order() {
    let m = acct(1);
    let a = acct(2);
    let b = acct(3);
    let mut s = init(&m);
    let _ = transfer(&mut s, &m, &a, 10, 1);
    let _ = transfer(&mut s, &m, &b, 20, 2);
    let _ = transfer(&mut s, &a, &m, 5, 3);
    let before = get_transactions_for(&s, &a);
    let _ = get_transactions_for(&s, &b);
    let after = get_transactions_for(&s, &a);
    assert_eq!(before.len(), 2);
    assert_eq!(after.len(), 2);
    assert_eq!((after[0].timestamp, after[1].timestamp), (1, 3));
    assert!(after.iter().all(|t| t.from.equals(&a) || t.to.equals(&a)));
    assert_eq!(s.transactions.len(), 3);
}

#[test]
fn profile_update() {
    let m = acct(1);
    let mut s = init(&m);
    update_user_details(&mut s, &m, "Ann".to_string(), "ann@example.org".to_string());
    assert_eq!(s.all_user.len(), 1);
    assert_eq!(s.all_user[0].1.name, "Ann");
    assert_eq!(s.all_user[0].1.email, "ann@example.org");
}

#[test]
fn store_round_trip_and_default() {
    let m = acct(1);
    let mut s = init(&m);
    let _ = transfer(&mut s, &m, &acct(2), 10, 1);
    let mut store = StateStore::new();
    save_state(&mut store, s.duplicate());
    let loaded = get_state(&mut store, None);
    assert_eq!(check_balance(&loaded, &acct(2)), 10);
    assert_eq!(loaded.transactions.len(), 1);

    let mut restarted = StateStore::new();
    let restored = get_state(&mut restarted, Some(s.duplicate()));
    assert_eq!(total_supply(&restored), total_supply(&s));
    assert_eq!(restored.all_users_balance.len(), s.all_users_balance.len());

    let mut fresh = StateStore::new();
    let d = get_state(&mut fresh, None);
    assert_eq!(d.total_supply, 0);
    assert_eq!(d.airdrop_milestone, 0);
    assert!(d.minting_account.is_none());
    assert!(d.all_user.is_empty() && d.transactions.is_empty());
    assert!(fresh.is_loaded());
}

#[test]
fn well_formedness_detects_bad_supply() {
    let m = acct(1);
    let mut s = init(&m);
    assert!(s.is_well_formed());
    s.total_supply = 1;
    assert!(!s.is_well_formed());
}

#[test]
fn amount_text() {
    assert_eq!(convert_from_string_to_u128("1234".to_string()), 1234);
    assert_eq!(convert_from_string_to_u128("+7".to_string()), 7);
    assert_eq!(convert_from_string_to_u128("".to_string()), 0);
    assert_eq!(convert_from_string_to_u128("12a".to_string()), 0);
    assert_eq!(convert_from_string_to_u128("-1".to_string()), 0);
    assert_eq!(
        convert_from_string_to_u128("340282366920938463463374607431768211455".to_string()),
        u128::MAX
    );
    assert_eq!(
        convert_from_string_to_u128("340282366920938463463374607431768211456".to_string()),
        0
    );
}

#[test]
fn principal_text() {
    let caller = acct(9);
    let anon = convert_from_string_to_principal("2vxsx-fae".to_string(), &caller);
    assert_eq!(anon.bytes, vec![4u8]);
    let mgmt = convert_from_string_to_principal("aaaaa-aa".to_string(), &caller);
    assert!(mgmt.bytes.is_empty());
    let bad = convert_from_string_to_principal("not a principal".to_string(), &caller);
    assert!(bad.equals(&caller));
}

#[test]
fn string_interface() {
    let m = acct(1);
    let mut s = init(&m);
    let text = "pyq3t-asn73-vg45r-dnltz-whebg-hujyt-tlvhp-wqeno-6f3zy-jghzt-lae";
    let named = convert_from_string_to_principal(text.to_string(), &m);
    assert!(!named.equals(&m));
    assert_eq!(transfer_to(&mut s, &m, text.to_string(), "25".to_string(), 1), "Success");
    assert_eq!(check_balance(&s, &named), 25);
    assert_eq!(transfer_to(&mut s, &m, "2vxsx-fae".to_string(), "25".to_string(), 1), "Failed");
    assert_eq!(check_balance(&s, &Account::anonymous()), 0);
    assert!(no_reserved(&s));
    assert_eq!(transfer_to(&mut s, &m, "bogus".to_string(), "25".to_string(), 2), "Failed");
    assert_eq!(transfer_to(&mut s, &m, "aaaaa-aa".to_string(), "x".to_string(), 3), "Failed");
    assert_eq!(mint_tokens(&mut s, &m, "5".to_string(), 4), "Success");
    assert_eq!(mint_tokens(&mut s, &acct(2), "5".to_string(), 5), "Failed");
    assert_eq!(total_supply(&s), 90000000005);
}

#[test]
fn reserved_identifiers_never_credited() {
    let m = acct(1);
    let mut s = init(&m);
    let anon = Account::anonymous();
    let none = Account::no_sender();
    add_faucets(&mut s, &anon, 1);
    add_faucets(&mut s, &none, 2);
    new_user(&mut s, &none, 3);
    new_user(&mut s, &anon, 4);
    update_user_details(&mut s, &anon, "x".to_string(), "y".to_string());
    assert_eq!(mint_tokens(&mut s, &none, "5".to_string(), 5), "Failed");
    assert_eq!(s.all_user.len(), 1);
    assert_eq!(s.all_users_balance.len(), 1);
    assert!(s.transactions.is_empty());
    assert!(no_reserved(&s));
    assert!(anon.is_reserved() && none.is_reserved() && !m.is_reserved());
}

#[test]
fn profile_lookup() {
    let m = acct(1);
    let s = init(&m);
    let p = profile_of(&s, &m);
    assert_eq!((p.name.as_str(), p.email.as_str()), ("Admin", "minter404@gmail.com"));
    let q = profile_of(&s, &acct(2));
    assert!(q.name.is_empty() && q.email.is_empty());
}
