//! Prize pool and draw settlement: rounds commit to a secret, entries carry
//! tickets and entropy, and a settled round pays out of the pool's balance.

pub mod ask;
pub mod bytes;
pub mod config;
pub mod contract;
pub mod digest;
pub mod draw;
pub mod entries;
pub mod error;
pub mod laws;
pub mod msg;
pub mod outcome;
pub mod query;
pub mod rounds;
pub mod rules;
pub mod settle;
pub mod state;
pub mod table;
pub mod text;
pub mod validity;
