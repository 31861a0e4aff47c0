//! A fungible-token ledger: balances, a total-supply counter, a minting
//! authority, milestone airdrops and an append-only transaction log, with
//! every operation proved to keep the supply equal to the sum of balances.
pub mod laws;
pub mod state;
pub mod table;
pub mod token;
pub mod types;
pub mod user;
pub mod utils;
