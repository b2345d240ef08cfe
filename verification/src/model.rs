//! Data model of the wallet: assets, unspents, allocations, transfers,
//! balances, and the facts the chain and counterparties deliver.
use vstd::prelude::*;

verus! {

/// Longest accepted asset name, in bytes.
pub const MAX_NAME_LEN: usize = 32;

/// Longest accepted asset ticker, in bytes.
pub const MAX_TICKER_LEN: usize = 8;

/// Longest accepted asset details text, in bytes.
pub const MAX_DETAILS_LEN: usize = 64;

/// Highest accepted decimal precision of an asset.
pub const MAX_PRECISION: u8 = 18;

/// Confirmations a transfer needs before it settles.
pub const MIN_CONFIRMATIONS: u64 = 1;

/// Schema under which an asset was issued.
#[derive(Debug, Clone, Copy, PartialEq, Eq, Structural)]
pub enum AssetSchema {
    /// Non-inflatable asset.
    Nia,
    /// Unique digital asset.
    Uda,
    /// Collectible fungible asset.
    Cfa,
}

/// Immutable issuance record of one asset.
#[derive(Debug, Clone)]
pub struct Asset {
    /// Row index in the wallet's asset table.
    pub idx: u64,
    /// Optional reference into a media table.
    pub media_idx: Option<u64>,
    /// Protocol-wide identifier of the asset.
    pub id: u64,
    /// Issuance schema.
    pub schema: AssetSchema,
    /// Logical time at which the wallet recorded the asset.
    pub added_at: u64,
    /// Optional free-form details, UTF-8 bytes.
    pub details: Option<Vec<u8>>,
    /// Total issued supply; fixed at issuance.
    pub issued_supply: u64,
    /// Human-readable name, UTF-8 bytes.
    pub name: Vec<u8>,
    /// Decimal precision of amounts.
    pub precision: u8,
    /// Optional ticker, UTF-8 bytes.
    pub ticker: Option<Vec<u8>>,
    /// Issuance timestamp (logical time).
    pub timestamp: u64,
}

/// A transaction output on the chain.
#[derive(Debug, Clone, Copy, PartialEq, Eq, Structural)]
pub struct Outpoint {
    /// Identifier of the transaction that created the output.
    pub txid: u64,
    /// Output position within that transaction.
    pub vout: u32,
}

/// A chain output owned by the wallet.
#[derive(Debug, Clone, Copy, PartialEq, Eq, Structural)]
pub struct Unspent {
    /// The output this record describes.
    pub outpoint: Outpoint,
    /// Value in satoshis.
    pub sat: u64,
    /// Whether the creating transaction is confirmed on chain.
    pub confirmed: bool,
    /// Whether the output was produced by a wallet-originated transaction
    /// (change is spendable at zero confirmations by policy).
    pub internal: bool,
    /// Whether the output is reserved for asset allocations (colored).
    pub colorable: bool,
    /// Identifier of the open transfer consuming this output, if any.
    /// At most one in-flight spend may reference an output.
    pub pending_spend: Option<u64>,
}

/// Binding of an (asset, amount) pair to one unspent output.
#[derive(Debug, Clone, Copy, PartialEq, Eq, Structural)]
pub struct Allocation {
    /// The output carrying the allocation.
    pub outpoint: Outpoint,
    /// The allocated asset.
    pub asset_id: u64,
    /// Allocated amount, in asset units.
    pub amount: u64,
}

/// Lifecycle state of a transfer.
#[derive(Debug, Clone, Copy, PartialEq, Eq, Structural)]
pub enum TransferStatus {
    /// Negotiation: the counterparty has not yet consumed the receive data.
    WaitingCounterparty,
    /// A chain transaction is pending inclusion.
    WaitingConfirmations,
    /// Terminal success: confirmed and durably recorded.
    Settled,
    /// Terminal failure: no allocation change.
    Failed,
}

/// How an incoming transfer receives its allocation.
#[derive(Debug, Clone, Copy, PartialEq, Eq, Structural)]
pub enum ReceiveKind {
    /// The recipient shared a blinded commitment to one of its own outputs.
    Blinded,
    /// The destination output is revealed by the transaction itself.
    Witness,
}

/// One instance of moving an amount of one asset between wallets.
#[derive(Debug, Clone, Copy, PartialEq, Eq, Structural)]
pub struct Transfer {
    /// Identifier within this wallet.
    pub id: u64,
    /// The asset being moved; for a pure bitcoin movement there is none.
    pub asset_id: Option<u64>,
    /// Amount in asset units.
    pub amount: u64,
    /// Direction: true for incoming.
    pub incoming: bool,
    /// Receive method of the incoming side.
    pub kind: ReceiveKind,
    /// Receive identifier exchanged out-of-band.
    pub recipient_id: u64,
    /// Chain transaction carrying the transfer, once known.
    pub txid: Option<u64>,
    /// Current lifecycle state.
    pub status: TransferStatus,
    /// Blinded receive: the wallet output chosen to host the allocation.
    pub blinded_outpoint: Option<Outpoint>,
    /// Witness receive: output position and value expected on the transaction.
    pub witness_vout: Option<u32>,
    /// Witness receive: satoshi value of the expected output.
    pub witness_sat: u64,
    /// Outgoing: change output created by the send.
    pub change_outpoint: Option<Outpoint>,
    /// Outgoing: asset amount that returns to this wallet as change.
    pub change_amount: u64,
    /// Outgoing: satoshi value of the change output.
    pub change_sat: u64,
}

/// Derived balance of one asset or of the bitcoin value.
#[derive(Debug, Clone, Copy, PartialEq, Eq, Structural)]
pub struct Balance {
    /// Confirmed on chain and not committed to any open outgoing transfer.
    pub settled: u64,
    /// Settled adjusted for the net effect of all non-terminal transfers.
    pub future: u64,
    /// Value that can be committed to a new transaction right now.
    pub spendable: u64,
}

/// Bitcoin balances split by whether outputs are reserved for allocations.
#[derive(Debug, Clone, Copy, PartialEq, Eq, Structural)]
pub struct BtcBalance {
    /// Balance of ordinary outputs.
    pub vanilla: Balance,
    /// Balance of outputs reserved for asset allocations.
    pub colored: Balance,
}

/// Capability token tying a chain session to the wallet that opened it.
#[derive(Debug, Clone, Copy, PartialEq, Eq, Structural)]
pub struct Online {
    /// Session identifier.
    pub id: u64,
    /// Identifier of the wallet the session was issued for.
    pub wallet_id: u64,
}

/// One output as the chain reports it for this wallet's addresses.
#[derive(Debug, Clone, Copy, PartialEq, Eq, Structural)]
pub struct ChainUtxo {
    /// The output.
    pub outpoint: Outpoint,
    /// Value in satoshis.
    pub sat: u64,
    /// Confirmations of the creating transaction.
    pub confirmations: u64,
}

/// Confirmation count of one transaction the wallet watches.
#[derive(Debug, Clone, Copy, PartialEq, Eq, Structural)]
pub struct ChainTx {
    /// The transaction.
    pub txid: u64,
    /// Confirmations; zero while in the mempool.
    pub confirmations: u64,
}

/// Read-only snapshot of the chain as seen for this wallet.
#[derive(Debug, Clone)]
pub struct ChainState {
    /// Current block height.
    pub height: u64,
    /// Outputs payable to this wallet.
    pub utxos: Vec<ChainUtxo>,
    /// Confirmation counts of transactions the wallet watches.
    pub txs: Vec<ChainTx>,
}

/// Out-of-band data a sender hands the recipient of a transfer.
#[derive(Debug, Clone, Copy, PartialEq, Eq, Structural)]
pub struct Consignment {
    /// Receive identifier this consignment answers.
    pub recipient_id: u64,
    /// The asset being moved.
    pub asset_id: u64,
    /// Amount in asset units.
    pub amount: u64,
    /// The chain transaction carrying the transfer.
    pub txid: u64,
    /// Total issued supply of the asset, for validation and recording.
    pub asset_supply: u64,
    /// Decimal precision of the asset.
    pub asset_precision: u8,
    /// Witness receives: output position of the recipient's new output.
    pub witness_vout: u32,
    /// Witness receives: satoshi value of that output.
    pub witness_sat: u64,
}

/// What `refresh` reports about one transfer it looked at.
#[derive(Debug, Clone, Copy, PartialEq, Eq, Structural)]
pub struct RefreshedTransfer {
    /// The transfer's identifier.
    pub id: u64,
    /// Its status after the refresh.
    pub status: TransferStatus,
    /// Whether this refresh changed the status.
    pub updated: bool,
}

/// Whether a lifecycle state is terminal.
pub open spec fn is_terminal(s: TransferStatus) -> bool {
    s == TransferStatus::Settled || s == TransferStatus::Failed
}

/// Sum of satoshi values of the unspents selected by `f`.
pub open spec fn sum_sat_if(s: Seq<Unspent>, f: spec_fn(Unspent) -> bool) -> int
    decreases s.len(),
{
    if s.len() == 0 {
        0
    } else {
        sum_sat_if(s.drop_last(), f) + if f(s.last()) {
            s.last().sat as int
        } else {
            0int
        }
    }
}

/// Sum of allocated amounts of the allocation rows selected by `f`.
pub open spec fn sum_alloc_if(s: Seq<Allocation>, f: spec_fn(Allocation) -> bool) -> int
    decreases s.len(),
{
    if s.len() == 0 {
        0
    } else {
        sum_alloc_if(s.drop_last(), f) + if f(s.last()) {
            s.last().amount as int
        } else {
            0int
        }
    }
}

/// Sum of transfer amounts of the transfers selected by `f`.
pub open spec fn sum_transfer_if(s: Seq<Transfer>, f: spec_fn(Transfer) -> bool) -> int
    decreases s.len(),
{
    if s.len() == 0 {
        0
    } else {
        sum_transfer_if(s.drop_last(), f) + if f(s.last()) {
            s.last().amount as int
        } else {
            0int
        }
    }
}

/// Sum of satoshi values of the chain outputs selected by `f`.
pub open spec fn sum_chain_sat_if(s: Seq<ChainUtxo>, f: spec_fn(ChainUtxo) -> bool) -> int
    decreases s.len(),
{
    if s.len() == 0 {
        0
    } else {
        sum_chain_sat_if(s.drop_last(), f) + if f(s.last()) {
            s.last().sat as int
        } else {
            0int
        }
    }
}

/// Sum of a sequence of amounts.
pub open spec fn sum_amounts(s: Seq<u64>) -> int
    decreases s.len(),
{
    if s.len() == 0 {
        0
    } else {
        sum_amounts(s.drop_last()) + s.last() as int
    }
}

/// A prefix of issuance amounts never sums to more than the whole list.
pub proof fn lemma_sum_amounts_prefix(s: Seq<u64>, i: int)
    requires
        0 <= i <= s.len(),
    ensures
        sum_amounts(s.take(i)) <= sum_amounts(s),
    decreases s.len() - i,
{
    if i < s.len() {
        lemma_sum_amounts_prefix(s, i + 1);
        assert(s.take(i + 1).drop_last() =~= s.take(i));
        assert(s.take(i + 1).last() == s[i]);
    } else {
        assert(s.take(i) =~= s);
    }
}

/// Saturating step of the wallet's logical clock.
pub open spec fn bump(c: u64) -> u64 {
    if c == u64::MAX {
        c
    } else {
        (c + 1) as u64
    }
}

/// The subsequence of unspents selected by `p`, in order.
pub open spec fn unspent_retained(s: Seq<Unspent>, p: spec_fn(Unspent) -> bool) -> Seq<Unspent>
    decreases s.len(),
{
    if s.len() == 0 {
        Seq::empty()
    } else if p(s.last()) {
        unspent_retained(s.drop_last(), p).push(s.last())
    } else {
        unspent_retained(s.drop_last(), p)
    }
}

/// The subsequence of allocation rows selected by `p`, in order.
pub open spec fn alloc_retained(s: Seq<Allocation>, p: spec_fn(Allocation) -> bool) -> Seq<Allocation>
    decreases s.len(),
{
    if s.len() == 0 {
        Seq::empty()
    } else if p(s.last()) {
        alloc_retained(s.drop_last(), p).push(s.last())
    } else {
        alloc_retained(s.drop_last(), p)
    }
}

/// Dropping rows never raises a selected allocation sum.
pub proof fn lemma_sum_alloc_retained_le(
    s: Seq<Allocation>,
    p: spec_fn(Allocation) -> bool,
    f: spec_fn(Allocation) -> bool,
)
    ensures
        sum_alloc_if(alloc_retained(s, p), f) <= sum_alloc_if(s, f),
    decreases s.len(),
{
    if s.len() > 0 {
        lemma_sum_alloc_retained_le(s.drop_last(), p, f);
        if p(s.last()) {
            assert(alloc_retained(s, p).drop_last() =~= alloc_retained(s.drop_last(), p));
            assert(alloc_retained(s, p).last() == s.last());
        }
    }
}

} // verus!
