//! A small bank: accounts with balances, and the transactions that move
//! money between them.

pub mod balance;
pub mod storage;
pub mod transaction;
