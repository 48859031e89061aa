//! A peer-to-peer conditional-payment escrow: a proposer pays a creation fee
//! and escrows an optional gift for a receiver, who later accepts or declines,
//! which routes the escrowed funds. The crate holds the fee and escrow
//! accounting, the proposal lifecycle state machine, the participant/status
//! index used to list proposals, and the status counters. The host ledger that
//! moves balances, the ownership subsystem, and the wire encoding live outside.

pub mod aggregate;
pub mod coin;
pub mod error;
pub mod helpers;
pub mod index;
pub mod manager;
pub mod query;
pub mod state;
