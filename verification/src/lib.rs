//! An on-ledger key/value record store with metered mutation operations.
//!
//! Accounts hold a fixed-width encoded map of string records; instructions
//! mint, transfer and burn records, move native balance, and request an
//! external token transfer, all behind ownership and authority checks.

pub mod codec;
pub mod error;
pub mod instruction;
pub mod ledger;
pub mod processor;
pub mod state;
pub mod token;
