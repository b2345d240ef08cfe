//! Error kinds surfaced by the wallet engine.
use vstd::prelude::*;

verus! {

/// Errors returned by wallet operations. Every operation returns one of
/// these instead of panicking.
#[derive(Debug, Clone)]
pub enum Error {
    /// Coin selection could not cover the required fee or target value.
    InsufficientBitcoins { needed: u64, available: u64 },
    /// The fee rate lies outside the accepted interval; the message names
    /// the violated bound.
    InvalidFeeRate { details: String },
    /// The destination address fails validation for the active network.
    InvalidAddress { details: String },
    /// The asset name is empty or too long.
    InvalidName { details: String },
    /// The requested precision is not supported.
    InvalidPrecision { details: String },
    /// The operation needs signing capability that this wallet lacks.
    WatchOnly,
    /// The supplied online handle was issued for a different wallet.
    CannotChangeOnline,
    /// The backup target path is already occupied.
    FileAlreadyExists { path: String },
    /// Restore could not decrypt or validate the archive.
    WrongPassword,
    /// The wallet has no UTXO that can host a new allocation.
    InsufficientAllocationSlots,
    /// The wallet holds less of the asset than the send requires.
    InsufficientAssets { needed: u64, available: u64 },
    /// No asset with the given identifier is recorded in this wallet.
    AssetNotFound { asset_id: u64 },
    /// Stored state contradicts itself or the chain view.
    Inconsistency { details: String },
}

/// Message carried by `InvalidFeeRate` when the rate is below the minimum.
pub open spec fn fee_low_msg() -> Seq<char> {
    "fee rate below minimum"@
}

/// Message carried by `InvalidFeeRate` when the rate is above the maximum.
pub open spec fn fee_high_msg() -> Seq<char> {
    "fee rate above maximum"@
}

/// The low-bound fee-rate message as an owned string.
pub fn fee_msg_low() -> (r: String)
    ensures
        r@ == fee_low_msg(),
{
    "fee rate below minimum".to_owned()
}

/// The high-bound fee-rate message as an owned string.
pub fn fee_msg_high() -> (r: String)
    ensures
        r@ == fee_high_msg(),
{
    "fee rate above maximum".to_owned()
}

} // verus!
