//! The ledger's data: account identifiers, profiles, transactions and the
//! aggregate state.
use vstd::prelude::*;

use crate::table::{balance_of, keys_unique, lookup, sum_balances};

verus! {

/// An account identifier: the significant bytes of a principal.
pub struct Account {
    pub bytes: Vec<u8>,
}

impl View for Account {
    type V = Seq<u8>;

    open spec fn view(&self) -> Seq<u8> {
        self.bytes@
    }
}

/// The reserved identifier of an unauthenticated caller.
pub open spec fn anonymous_id() -> Seq<u8> {
    seq![4u8]
}

/// The reserved identifier used as the sender of minted and airdropped tokens.
pub open spec fn no_sender_id() -> Seq<u8> {
    Seq::empty()
}

pub open spec fn is_reserved(id: Seq<u8>) -> bool {
    id == anonymous_id() || id == no_sender_id()
}

impl Account {
    pub fn new(bytes: Vec<u8>) -> (r: Account)
        ensures
            r@ == bytes@,
    {
        Account { bytes }
    }

    /// The unauthenticated caller.
    pub fn anonymous() -> (r: Account)
        ensures
            r@ == anonymous_id(),
    {
        let mut bytes: Vec<u8> = Vec::new();
        bytes.push(4u8);
        proof {
            assert(bytes@ =~= anonymous_id());
        }
        Account { bytes }
    }

    /// The sender recorded on mints and airdrops.
    pub fn no_sender() -> (r: Account)
        ensures
            r@ == no_sender_id(),
    {
        let bytes: Vec<u8> = Vec::new();
        proof {
            assert(bytes@ =~= no_sender_id());
        }
        Account { bytes }
    }

    pub fn equals(&self, other: &Account) -> (r: bool)
        ensures
            r == (self@ == other@),
    {
        if self.bytes.len() != other.bytes.len() {
            return false;
        }
        let mut i: usize = 0;
        while i < self.bytes.len()
            invariant
                self.bytes.len() == other.bytes.len(),
                i <= self.bytes.len(),
                forall|j: int| 0 <= j < i ==> self@[j] == other@[j],
            decreases self.bytes.len() - i,
        {
            if self.bytes[i] != other.bytes[i] {
                return false;
            }
            i = i + 1;
        }
        proof {
            assert(self@ =~= other@);
        }
        true
    }

    pub fn duplicate(&self) -> (r: Account)
        ensures
            r@ == self@,
    {
        let mut bytes: Vec<u8> = Vec::new();
        let mut i: usize = 0;
        while i < self.bytes.len()
            invariant
                i <= self.bytes.len(),
                bytes@ =~= self@.subrange(0, i as int),
            decreases self.bytes.len() - i,
        {
            bytes.push(self.bytes[i]);
            i = i + 1;
        }
        proof {
            assert(bytes@ =~= self@);
        }
        Account { bytes }
    }

    /// Whether this is one of the reserved identifiers.
    pub fn is_reserved(&self) -> (r: bool)
        ensures
            r == is_reserved(self@),
    {
        if self.bytes.len() == 0 {
            proof {
                assert(self@ =~= no_sender_id());
            }
            true
        } else {
            self.is_anonymous()
        }
    }

    pub fn is_anonymous(&self) -> (r: bool)
        ensures
            r == (self@ == anonymous_id()),
    {
        let a = Account::anonymous();
        self.equals(&a)
    }
}

/// Why an operation on the ledger was refused.
#[derive(PartialEq, Eq, Structural, Clone, Copy, Debug)]
pub enum Errors {
    InsufficientFunds { balance: u128 },
    ReceiverSameAsSender,
    ZeroTransfer,
    MinterNotSet,
    NotTheMinter,
}

/// A user's profile.
pub struct UserData {
    pub name: String,
    pub email: String,
}

impl View for UserData {
    type V = (Seq<char>, Seq<char>);

    open spec fn view(&self) -> (Seq<char>, Seq<char>) {
        (self.name@, self.email@)
    }
}

impl UserData {
    pub fn empty() -> (r: UserData)
        ensures
            r@.0.len() == 0,
            r@.1.len() == 0,
    {
        UserData { name: String::new(), email: String::new() }
    }

    pub fn duplicate(&self) -> (r: UserData)
        ensures
            r@ == self@,
    {
        UserData { name: self.name.clone(), email: self.email.clone() }
    }
}

/// What kind of event a transaction records.
#[derive(PartialEq, Eq, Structural, Clone, Copy, Debug)]
pub enum TxType {
    Transfer,
    Mint,
    AirDrop,
    Faucet,
}

/// One balance-affecting event.
pub struct Transaction {
    pub from: Account,
    pub to: Account,
    pub amount: u128,
    pub timestamp: u64,
    pub tx_type: TxType,
}

/// What a transaction records, over identifiers' bytes.
pub ghost struct TxRecord {
    pub from: Seq<u8>,
    pub to: Seq<u8>,
    pub amount: u128,
    pub timestamp: u64,
    pub tx_type: TxType,
}

impl View for Transaction {
    type V = TxRecord;

    open spec fn view(&self) -> TxRecord {
        TxRecord {
            from: self.from@,
            to: self.to@,
            amount: self.amount,
            timestamp: self.timestamp,
            tx_type: self.tx_type,
        }
    }
}

impl Transaction {
    pub fn duplicate(&self) -> (r: Transaction)
        ensures
            r@ == self@,
    {
        Transaction {
            from: self.from.duplicate(),
            to: self.to.duplicate(),
            amount: self.amount,
            timestamp: self.timestamp,
            tx_type: self.tx_type,
        }
    }
}

/// The whole ledger.
///
/// `all_user` holds the registered accounts in order of registration and
/// `all_users_balance` the accounts that hold a balance; neither repeats a key.
pub struct TokenState {
    pub total_supply: u128,
    pub all_user: Vec<(Account, UserData)>,
    pub all_users_balance: Vec<(Account, u128)>,
    pub minting_account: Option<Account>,
    pub airdrop_milestone: u128,
    pub transactions: Vec<Transaction>,
}

impl TokenState {
    /// Keys are unique and the supply is the sum of the balances.
    pub open spec fn wf(&self) -> bool {
        &&& keys_unique(self.all_user@)
        &&& keys_unique(self.all_users_balance@)
        &&& self.total_supply as int == sum_balances(self.all_users_balance@)
    }

    pub open spec fn balance(&self, id: Seq<u8>) -> nat {
        balance_of(self.all_users_balance@, id)
    }

    pub open spec fn is_registered(&self, id: Seq<u8>) -> bool {
        lookup(self.all_user@, id).is_some()
    }

    pub open spec fn has_balance_entry(&self, id: Seq<u8>) -> bool {
        lookup(self.all_users_balance@, id).is_some()
    }

    /// No reserved identifier holds a balance entry, is registered or is the authority.
    pub open spec fn no_reserved_entries(&self) -> bool {
        &&& forall|id: Seq<u8>|
            is_reserved(id) ==> !self.has_balance_entry(id) && !self.is_registered(id)
        &&& match self.minting_account {
            Some(m) => !is_reserved(m@),
            None => true,
        }
    }

    pub open spec fn user_count(&self) -> nat {
        self.all_user@.len()
    }

    pub open spec fn history(&self) -> Seq<TxRecord> {
        self.transactions@.map_values(|t: Transaction| t@)
    }

    /// The authority that mints: the configured one, else the caller itself.
    pub open spec fn authority(&self, caller: Seq<u8>) -> Seq<u8> {
        match self.minting_account {
            Some(m) => m@,
            None => caller,
        }
    }

    /// The default state: no supply, no accounts, no authority, milestone 0.
    pub fn empty() -> (r: TokenState)
        ensures
            r.wf(),
            r.total_supply == 0,
            r.all_user@.len() == 0,
            r.all_users_balance@.len() == 0,
            r.minting_account.is_none(),
            r.airdrop_milestone == 0,
            r.transactions@.len() == 0,
    {
        TokenState {
            total_supply: 0,
            all_user: Vec::new(),
            all_users_balance: Vec::new(),
            minting_account: None,
            airdrop_milestone: 0,
            transactions: Vec::new(),
        }
    }
}

} // verus!
