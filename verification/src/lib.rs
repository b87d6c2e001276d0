//! A minimal single-node ledger: hash-chained blocks, balances derived by
//! replaying transactions in order, and a vote-ranked validator registry.

pub mod block;
pub mod chain;
pub mod db;
pub mod ledger;
pub mod production;
pub mod text;
pub mod tx;
pub mod validator;
pub mod wallet;
pub mod wallet_io;
