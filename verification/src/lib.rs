//! Off-chain settlement and state-synchronization engine for a decentralized
//! exchange: batch replay, deterministic ledger mutation, content-addressed
//! state commitment, snapshot construction, and liquidity-volume bookkeeping.
use vstd::prelude::*;

pub mod codec;
pub mod crypto;
pub mod engine;
pub mod laws;
pub mod ledger;
pub mod lmp;
pub mod settlement;
pub mod store;
pub mod support;
pub mod sync;
pub mod types;
