//! A minimal account-model blockchain core: accounts and balances, gas
//! accounting, change-sets, a canonical transaction encoding with hashing and
//! signatures, blocks chained by hash, and the execution engine that turns a
//! batch of pending transactions into a committed block.

pub mod address;
pub mod bank;
pub mod block;
pub mod changeset;
pub mod cli;
pub mod codec;
pub mod config;
pub mod crypto;
pub mod natives;
pub mod coin;
pub mod engine;
pub mod gas;
pub mod genesis;
pub mod ident;
pub mod keystore;
pub mod rpc;
pub mod state;
pub mod tx;
pub mod tx_context;
pub mod hexstr;
pub mod strutil;
