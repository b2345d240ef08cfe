//! Wallet engine for a Bitcoin-anchored digital-asset protocol.
//!
//! The library tracks fungible assets bound to individual unspent
//! transaction outputs, drives the multi-step transfer protocol by which
//! asset ownership moves between wallets, computes settled / future /
//! spendable balances, consolidates a wallet's value into one destination
//! (drain), and produces and restores password-encrypted backups of the
//! wallet state.
//!
//! Chain access, persistent storage and file I/O are collaborators: the
//! engine consumes chain facts as plain data (`ChainState`, consignments)
//! and hands archives back as plain bytes.
use vstd::prelude::*;

pub mod errors;
pub mod model;
pub mod balance;
pub mod wallet;
pub mod codec;
pub mod backup;

verus! {

} // verus!
