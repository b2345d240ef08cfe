//! The wallet: relational state (assets, unspents, allocation rows, open
//! transfers), the transfer state machine driven by `refresh`, the drain
//! consolidation, and the backup bookkeeping.
use vstd::prelude::*;

use crate::balance::{
    clamp64, compute_asset_balance, compute_btc_side, find_unspent, has_allocation, is_colored,
    p_asset, p_asset_all, spec_asset_balance, spec_btc_balance, utxo_of, MODE_SPENDABLE,
};
use crate::errors::{fee_high_msg, fee_low_msg, fee_msg_high, fee_msg_low, Error};
use crate::model::{
    alloc_retained, bump, is_terminal, sum_alloc_if, sum_amounts, sum_sat_if, unspent_retained, Allocation, Asset,
    AssetSchema, Balance, BtcBalance, ChainState, ChainTx, ChainUtxo, Consignment, Online, Outpoint,
    ReceiveKind, RefreshedTransfer, Transfer, TransferStatus, Unspent, MAX_DETAILS_LEN, MAX_NAME_LEN,
    MAX_PRECISION, MAX_TICKER_LEN, MIN_CONFIRMATIONS,
};

verus! {

/// Lowest accepted fee rate, in tenths of a satoshi per virtual byte.
pub const FEE_RATE_MIN: u64 = 10;

/// Highest accepted fee rate, in tenths of a satoshi per virtual byte.
pub const FEE_RATE_MAX: u64 = 10000;

/// Fee rate used by operations that take none, in tenths of a satoshi per
/// virtual byte.
pub const DEFAULT_FEE_RATE: u64 = 10;

/// Virtual size charged for a transaction regardless of its inputs.
pub const VB_BASE: u64 = 200;

/// Virtual size charged per input.
pub const VB_PER_INPUT: u64 = 100;

/// Virtual size charged per output.
pub const VB_PER_OUTPUT: u64 = 32;

/// Fee owed by a transaction of the given shape at the given rate, clamped
/// at the largest representable count.
pub open spec fn spec_fee(n_in: int, n_out: int, rate: int) -> int {
    clamp64((rate * (VB_BASE + VB_PER_INPUT * n_in + VB_PER_OUTPUT * n_out)) / 10)
}

/// Computes the fee owed by a transaction of the given shape.
pub fn fee_for(n_in: usize, n_out: usize, rate: u64) -> (r: u64)
    requires
        rate <= FEE_RATE_MAX,
    ensures
        r == spec_fee(n_in as int, n_out as int, rate as int),
{
    let a: u128 = n_in as u128;
    let b: u128 = n_out as u128;
    proof {
        assert(100u128 * a <= 1844674407370955161500u128 && 32u128 * b
            <= 590295810358705651680u128) by (nonlinear_arith)
            requires
                a <= 18446744073709551615u128,
                b <= 18446744073709551615u128,
        ;
    }
    let vb: u128 = VB_BASE as u128 + VB_PER_INPUT as u128 * a + VB_PER_OUTPUT as u128 * b;
    proof {
        assert(rate as u128 * vb <= 10000u128 * 2434970217729660813380u128) by (nonlinear_arith)
            requires
                rate as u128 <= 10000u128,
                vb <= 2434970217729660813380u128,
        ;
    }
    let raw: u128 = rate as u128 * vb / 10;
    if raw > u64::MAX as u128 {
        u64::MAX
    } else {
        raw as u64
    }
}

/// A character an address may contain: an ASCII digit or lowercase letter.
pub open spec fn valid_address_char(c: char) -> bool {
    ('0' <= c && c <= '9') || ('a' <= c && c <= 'z')
}

/// A destination address valid for the active network: the network prefix,
/// a plausible length, and only digits and lowercase letters.
pub open spec fn valid_address(s: Seq<char>) -> bool {
    &&& 6 <= s.len() <= 90
    &&& s[0] == 'b'
    &&& s[1] == 'c'
    &&& s[2] == 'r'
    &&& s[3] == 't'
    &&& s[4] == '1'
    &&& forall|i: int| 0 <= i < s.len() ==> valid_address_char(#[trigger] s[i])
}

/// Validates a destination address; executable twin of `valid_address`.
#[verifier::loop_isolation(false)]
pub fn check_address(addr: &str) -> (r: bool)
    ensures
        r == valid_address(addr@),
{
    if !addr.is_ascii() {
        proof {
            let cs = addr@;
            assert(!vstd::utf8::is_ascii_chars(cs));
            let j = choose|j: int| !(0 <= j < cs.len() ==> '\0' <= #[trigger] cs[j] <= '\u{7f}');
            assert(!valid_address_char(cs[j]));
        }
        return false;
    }
    proof {
        vstd::string::is_ascii_spec_bytes(addr);
    }
    let b = addr.as_bytes();
    let ghost cs = addr@;
    let n = b.len();
    if n < 6 || n > 90 {
        return false;
    }
    assert(forall|i: int| 0 <= i < cs.len() ==> b@[i] == #[trigger] cs[i] as u8);
    if !(b[0] == 98 && b[1] == 99 && b[2] == 114 && b[3] == 116 && b[4] == 49) {
        return false;
    }
    let mut i: usize = 0;
    while i < n
        invariant
            0 <= i <= n,
            forall|j: int| 0 <= j < i ==> valid_address_char(#[trigger] cs[j]),
        decreases n - i,
    {
        let c = b[i];
        if !((48 <= c && c <= 57) || (97 <= c && c <= 122)) {
            return false;
        }
        i += 1;
    }
    true
}

/// Receive data handed out-of-band to the counterparty of a transfer.
#[derive(Debug, Clone, Copy, PartialEq, Eq, Structural)]
pub struct ReceiveData {
    /// The identifier the sender must address.
    pub recipient_id: u64,
}

/// What a send returns: the transaction and the consignment to deliver.
#[derive(Debug, Clone, Copy, PartialEq, Eq, Structural)]
pub struct SendResult {
    /// Identifier of the constructed transaction.
    pub txid: u64,
    /// The consignment the caller delivers to the recipient out-of-band.
    pub consignment: Consignment,
}

/// Whether an outpoint appears in the chain's listing.
pub open spec fn chain_lists(cs: Seq<ChainUtxo>, op: Outpoint) -> bool {
    exists|i: int| 0 <= i < cs.len() && cs[i].outpoint == op
}

/// The wallet record that one chain listing produces: a known output keeps
/// its origin and pending mark; an unknown one enters as external.
pub open spec fn merge_one(us: Seq<Unspent>, c: ChainUtxo) -> Unspent {
    match utxo_of(us, c.outpoint) {
        Some(u) => Unspent {
            outpoint: c.outpoint,
            sat: c.sat,
            confirmed: c.confirmations >= MIN_CONFIRMATIONS,
            internal: u.internal,
            colorable: u.colorable,
            pending_spend: u.pending_spend,
        },
        None => Unspent {
            outpoint: c.outpoint,
            sat: c.sat,
            confirmed: c.confirmations >= MIN_CONFIRMATIONS,
            internal: false,
            colorable: false,
            pending_spend: None,
        },
    }
}

/// Local records kept through a synchronization although the chain no
/// longer lists them: colored or committed outputs.
pub open spec fn p_kept_local(allocs: Seq<Allocation>, cs: Seq<ChainUtxo>) -> spec_fn(Unspent) -> bool {
    |u: Unspent|
        (u.colorable || is_colored(allocs, u.outpoint) || u.pending_spend is Some) && !chain_lists(
            cs,
            u.outpoint,
        )
}

/// The unspent set after a synchronization pass: every chain listing,
/// merged with local knowledge, followed by the kept local records.
pub open spec fn sync_unspents(us: Seq<Unspent>, allocs: Seq<Allocation>, cs: Seq<ChainUtxo>) -> Seq<
    Unspent,
> {
    Seq::new(cs.len(), |i: int| merge_one(us, cs[i])) + unspent_retained(
        us,
        p_kept_local(allocs, cs),
    )
}

/// Outputs a drain consumes: spendable now, and colored only when the
/// caller chose to forfeit allocations.
pub open spec fn p_drain_sel(allocs: Seq<Allocation>, destroy: bool) -> spec_fn(Unspent) -> bool {
    |u: Unspent|
        u.pending_spend is None && (u.confirmed || u.internal) && (destroy || (!u.colorable
            && !is_colored(allocs, u.outpoint)))
}

/// Complement of `p_drain_sel`: what a drain leaves in the wallet.
pub open spec fn p_drain_keep(allocs: Seq<Allocation>, destroy: bool) -> spec_fn(Unspent) -> bool {
    |u: Unspent| !(p_drain_sel(allocs, destroy)(u))
}

/// Allocation rows that survive a destroying drain: those whose host
/// output was not consumed.
pub open spec fn p_alloc_keep(us: Seq<Unspent>, allocs: Seq<Allocation>, destroy: bool) -> spec_fn(
    Allocation,
) -> bool {
    |al: Allocation|
        match utxo_of(us, al.outpoint) {
            Some(u) => !(p_drain_sel(allocs, destroy)(u)),
            None => true,
        }
}

/// Law: a drain never raises any asset's allocated total. Without
/// destroying, `drain_to` leaves the allocation rows untouched (stated in
/// its contract), so every total is exactly preserved; destroying only
/// removes rows, so every total can only go down, to zero on the consumed
/// outputs.
pub proof fn lemma_drain_never_raises_allocated_total(
    allocs: Seq<Allocation>,
    us1: Seq<Unspent>,
    destroy: bool,
    asset_id: u64,
)
    ensures
        sum_alloc_if(
            alloc_retained(allocs, p_alloc_keep(us1, allocs, destroy)),
            p_asset_all(asset_id),
        ) <= sum_alloc_if(allocs, p_asset_all(asset_id)),
{
    crate::model::lemma_sum_alloc_retained_le(
        allocs,
        p_alloc_keep(us1, allocs, destroy),
        p_asset_all(asset_id),
    );
}

/// First consignment addressed to a receive identifier.
pub open spec fn spec_consignment_for(cs: Seq<Consignment>, rid: u64) -> Option<Consignment>
    decreases cs.len(),
{
    if cs.len() == 0 {
        None
    } else if cs[0].recipient_id == rid {
        Some(cs[0])
    } else {
        spec_consignment_for(cs.drop_first(), rid)
    }
}

/// Confirmation count the chain reports for a transaction, if listed.
pub open spec fn spec_tx_confs(txs: Seq<ChainTx>, txid: u64) -> Option<u64>
    decreases txs.len(),
{
    if txs.len() == 0 {
        None
    } else if txs[0].txid == txid {
        Some(txs[0].confirmations)
    } else {
        spec_tx_confs(txs.drop_first(), txid)
    }
}

/// A consignment the wallet accepts: a positive amount within the asset's
/// declared supply, at a supported precision.
pub open spec fn consignment_ok(c: Consignment) -> bool {
    0 < c.amount <= c.asset_supply && c.asset_precision <= MAX_PRECISION
}

/// Whether a transfer falls under the refresh's asset filter; transfers
/// whose asset is not yet known always match.
pub open spec fn in_filter(t: Transfer, f: Option<u64>) -> bool {
    match f {
        None => true,
        Some(aid) => match t.asset_id {
            Some(x) => x == aid,
            None => true,
        },
    }
}

/// One step of the transfer state machine, as `refresh` performs it on one
/// transfer: what the fresh chain and counterparty facts determine about
/// the transfer's next state. Which terminal a confirmed incoming transfer
/// reaches depends on whether its destination output is still present.
pub open spec fn refresh_step(
    t0: Transfer,
    t1: Transfer,
    cs: Seq<Consignment>,
    acks: Seq<u64>,
    txs: Seq<ChainTx>,
    filter: Option<u64>,
) -> bool {
    &&& t1.id == t0.id
    &&& t1.incoming == t0.incoming
    &&& t1.kind == t0.kind
    &&& t1.recipient_id == t0.recipient_id
    &&& (!in_filter(t0, filter) ==> t1 == t0)
    &&& (t1.status == TransferStatus::Settled ==> t0.status == TransferStatus::Settled || (
    t0.status == TransferStatus::WaitingConfirmations && (t0.txid matches Some(x)
        && (spec_tx_confs(txs, x) matches Some(c) && c >= MIN_CONFIRMATIONS))))
    &&& (in_filter(t0, filter) && t0.status == TransferStatus::WaitingCounterparty && t0.incoming
        ==> match spec_consignment_for(cs, t0.recipient_id) {
        Some(c) => {
            &&& t1.status == (if consignment_ok(c) {
                TransferStatus::WaitingConfirmations
            } else {
                TransferStatus::Failed
            })
            &&& (consignment_ok(c) ==> t1.asset_id == Some(c.asset_id) && t1.amount == c.amount
                && t1.txid == Some(c.txid))
        },
        None => t1 == t0,
    })
    &&& (in_filter(t0, filter) && t0.status == TransferStatus::WaitingCounterparty && !t0.incoming
        ==> {
        &&& t1.status == (if acks.contains(t0.recipient_id) {
            TransferStatus::WaitingConfirmations
        } else {
            TransferStatus::WaitingCounterparty
        })
        &&& (!acks.contains(t0.recipient_id) ==> t1 == t0)
    })
    &&& (in_filter(t0, filter) && t0.status == TransferStatus::WaitingConfirmations ==> match t0.txid {
        None => t1.status == TransferStatus::Failed,
        Some(x) => match spec_tx_confs(txs, x) {
            Some(c) => if c >= MIN_CONFIRMATIONS {
                is_terminal(t1.status)
            } else {
                t1 == t0
            },
            None => t1 == t0,
        },
    })
}

/// Whether some allocation row binds the given asset to this output.
pub open spec fn hosts_asset_spec(allocs: Seq<Allocation>, op: Outpoint, asset_id: u64) -> bool {
    exists|j: int|
        0 <= j < allocs.len() && (#[trigger] allocs[j]).outpoint == op && allocs[j].asset_id
            == asset_id
}

/// Outputs a send consumes first: spendable hosts of the asset being sent.
pub open spec fn p_send_colored(allocs: Seq<Allocation>, asset_id: u64) -> spec_fn(Unspent) -> bool {
    |u: Unspent|
        u.pending_spend is None && (u.confirmed || u.internal) && hosts_asset_spec(
            allocs,
            u.outpoint,
            asset_id,
        )
}

/// The unspent set after a send: the selected outputs (hosts of the asset,
/// plus the spendable uncolored outputs when they must join) become
/// committed to the new transfer; everything else is untouched.
pub open spec fn send_marked(
    us: Seq<Unspent>,
    allocs: Seq<Allocation>,
    asset_id: u64,
    use_vanilla: bool,
    tid: u64,
) -> Seq<Unspent> {
    Seq::new(
        us.len(),
        |j: int|
            {
                let u = us[j];
                if p_send_colored(allocs, asset_id)(u) || (use_vanilla && p_drain_sel(
                    allocs,
                    false,
                )(u)) {
                    Unspent { pending_spend: Some(tid), ..u }
                } else {
                    u
                }
            },
    )
}

/// Outputs not committed to the given transfer.
pub open spec fn p_unconsumed(tid: u64) -> spec_fn(Unspent) -> bool {
    |u: Unspent| u.pending_spend != Some(tid)
}

/// Allocation rows whose host output is not committed to the given
/// transfer (rows on consumed outputs leave with them).
pub open spec fn p_alloc_surviving(us: Seq<Unspent>, tid: u64) -> spec_fn(Allocation) -> bool {
    |al: Allocation|
        match utxo_of(us, al.outpoint) {
            Some(u) => u.pending_spend != Some(tid),
            None => true,
        }
}

/// The change output a settled outgoing transfer surfaces.
pub open spec fn spec_change_utxo(t: Transfer, op: Outpoint) -> Unspent {
    Unspent {
        outpoint: op,
        sat: t.change_sat,
        confirmed: true,
        internal: true,
        colorable: t.change_amount > 0,
        pending_spend: None,
    }
}

/// Progress rank of a lifecycle state: a refresh never moves a transfer
/// backwards.
pub open spec fn status_rank(s: TransferStatus) -> int {
    match s {
        TransferStatus::WaitingCounterparty => 0,
        TransferStatus::WaitingConfirmations => 1,
        TransferStatus::Settled => 2,
        TransferStatus::Failed => 2,
    }
}

/// A wallet: the durable state the repository would hold, as plain data.
#[derive(Debug, Clone)]
pub struct Wallet {
    /// Identifier derived from the wallet's key material.
    pub wallet_id: u64,
    /// Whether signing key material is available (false: watch-only).
    pub has_private_keys: bool,
    /// Session bound to this wallet by `go_online`, if any.
    pub online_id: Option<u64>,
    /// Issued or received assets.
    pub assets: Vec<Asset>,
    /// Outputs the wallet owns.
    pub unspents: Vec<Unspent>,
    /// Bindings of assets to outputs.
    pub allocations: Vec<Allocation>,
    /// Transfer history, open and terminal.
    pub transfers: Vec<Transfer>,
    /// Logical clock; every mutating operation advances it.
    pub clock: u64,
    /// Clock value of the last mutating operation.
    pub last_operation: u64,
    /// Clock value of the last successful backup.
    pub last_backup: u64,
    /// Next asset identifier to assign.
    pub next_asset_id: u64,
    /// Next transfer identifier to assign.
    pub next_transfer_id: u64,
    /// Next receive identifier to assign.
    pub next_recipient_id: u64,
    /// Next transaction identifier to assign.
    pub next_txid: u64,
}

impl Wallet {
    /// Structural well-formedness: recorded texts fit the fixed widths the
    /// backup codec writes, and the clocks are consistent.
    pub open spec fn wf(self) -> bool {
        &&& forall|i: int|
            0 <= i < self.assets@.len() ==> {
                let a = #[trigger] self.assets@[i];
                &&& a.name@.len() <= MAX_NAME_LEN
                &&& (a.ticker matches Some(t) ==> t@.len() <= MAX_TICKER_LEN)
                &&& (a.details matches Some(d) ==> d@.len() <= MAX_DETAILS_LEN)
            }
        &&& forall|i: int, j: int|
            0 <= i < j < self.assets@.len() ==> (#[trigger] self.assets@[i]).id != (
            #[trigger] self.assets@[j]).id
        &&& self.last_operation <= self.clock
        &&& self.last_backup <= self.clock
    }

    /// An identifier the asset table does not hold matches no row.
    pub proof fn lemma_asset_of_none(assets: Seq<Asset>, id: u64)
        requires
            Self::spec_asset_of(assets, id) is None,
        ensures
            forall|i: int| 0 <= i < assets.len() ==> (#[trigger] assets[i]).id != id,
        decreases assets.len(),
    {
        if assets.len() > 0 {
            Self::lemma_asset_of_none(assets.drop_first(), id);
            assert forall|i: int| 0 <= i < assets.len() implies (#[trigger] assets[i]).id != id by {
                if i > 0 {
                    assert(assets.drop_first()[i - 1] == assets[i]);
                }
            }
        }
    }

    /// Whether a backup is currently recommended.
    pub open spec fn spec_backup_required(self) -> bool {
        self.last_operation > self.last_backup
    }

    /// Whether the online handle was issued for this wallet instance.
    pub open spec fn online_matches(self, online: Online) -> bool {
        online.wallet_id == self.wallet_id && self.online_id == Some(online.id)
    }

    /// A fresh wallet: empty ledgers, nothing to back up.
    pub fn new(wallet_id: u64, has_private_keys: bool) -> (r: Wallet)
        ensures
            r.wf(),
            r.wallet_id == wallet_id,
            r.has_private_keys == has_private_keys,
            r.assets@.len() == 0,
            r.unspents@.len() == 0,
            r.allocations@.len() == 0,
            r.transfers@.len() == 0,
            !r.spec_backup_required(),
            r.online_id is None,
    {
        Wallet {
            wallet_id,
            has_private_keys,
            online_id: None,
            assets: Vec::new(),
            unspents: Vec::new(),
            allocations: Vec::new(),
            transfers: Vec::new(),
            clock: 0,
            last_operation: 0,
            last_backup: 0,
            next_asset_id: 1,
            next_transfer_id: 1,
            next_recipient_id: 1,
            next_txid: 1,
        }
    }

    /// Opens a chain session bound to this wallet instance.
    pub fn go_online(&mut self, session_id: u64) -> (r: Online)
        ensures
            final(self).online_id == Some(session_id),
            r == (Online { id: session_id, wallet_id: old(self).wallet_id }),
            *final(self) == (Wallet { online_id: Some(session_id), ..*old(self) }),
    {
        self.online_id = Some(session_id);
        Online { id: session_id, wallet_id: self.wallet_id }
    }

    /// Rejects a session handle issued for another wallet instance.
    pub fn check_online(&self, online: &Online) -> (r: Result<(), Error>)
        ensures
            r is Ok <==> self.online_matches(*online),
            r is Err ==> r matches Err(Error::CannotChangeOnline),
    {
        let ok = online.wallet_id == self.wallet_id && match self.online_id {
            Some(id) => id == online.id,
            None => false,
        };
        if ok {
            Ok(())
        } else {
            Err(Error::CannotChangeOnline)
        }
    }

    /// Pure read: whether wallet state has changed since the last backup.
    pub fn backup_info(&self) -> (r: Result<bool, Error>)
        ensures
            r matches Ok(b) && b == self.spec_backup_required(),
    {
        Ok(self.last_operation > self.last_backup)
    }

    /// Advances the logical clock and stamps the operation.
    fn touch(&mut self)
        ensures
            *final(self) == (Wallet {
                clock: bump(old(self).clock),
                last_operation: bump(old(self).clock),
                ..*old(self)
            }),
    {
        self.clock = if self.clock == u64::MAX {
            self.clock
        } else {
            self.clock + 1
        };
        self.last_operation = self.clock;
    }

    /// First recorded asset with the given identifier.
    pub open spec fn spec_asset_of(assets: Seq<Asset>, id: u64) -> Option<int>
        decreases assets.len(),
    {
        if assets.len() == 0 {
            None
        } else if assets[0].id == id {
            Some(0)
        } else {
            match Self::spec_asset_of(assets.drop_first(), id) {
                Some(i) => Some(i + 1),
                None => None,
            }
        }
    }

    /// Looks up an asset by identifier.
    #[verifier::loop_isolation(false)]
    pub fn find_asset(&self, id: u64) -> (r: Option<usize>)
        ensures
            match r {
                Some(i) => Self::spec_asset_of(self.assets@, id) == Some(i as int) && i
                    < self.assets@.len() && self.assets@[i as int].id == id,
                None => Self::spec_asset_of(self.assets@, id) is None,
            },
    {
        let mut i: usize = 0;
        proof {
            assert(self.assets@.skip(0) =~= self.assets@);
        }
        while i < self.assets.len()
            invariant
                0 <= i <= self.assets@.len(),
                forall|j: int| 0 <= j < i ==> self.assets@[j].id != id,
                Self::spec_asset_of(self.assets@, id) == match Self::spec_asset_of(
                    self.assets@.skip(i as int),
                    id,
                ) {
                    Some(k) => Some(k + i),
                    None => None::<int>,
                },
            decreases self.assets@.len() - i,
        {
            if self.assets[i].id == id {
                return Some(i);
            }
            proof {
                assert(self.assets@.skip(i as int).drop_first() =~= self.assets@.skip(i as int + 1));
            }
            i += 1;
        }
        None
    }

    /// The bitcoin balances, split into uncolored and colored value.
    pub fn get_btc_balance(&self, online: &Online) -> (r: Result<BtcBalance, Error>)
        ensures
            self.online_matches(*online) ==> (r matches Ok(b) && b == (BtcBalance {
                vanilla: spec_btc_balance(self.unspents@, self.transfers@, false),
                colored: spec_btc_balance(self.unspents@, self.transfers@, true),
            })),
            !self.online_matches(*online) ==> r matches Err(Error::CannotChangeOnline),
    {
        self.check_online(online)?;
        Ok(BtcBalance {
            vanilla: compute_btc_side(&self.unspents, &self.transfers, false),
            colored: compute_btc_side(&self.unspents, &self.transfers, true),
        })
    }

    /// Whether the chain lists an outpoint; executable twin of `chain_lists`.
    #[verifier::loop_isolation(false)]
    fn chain_lists_exec(chain: &ChainState, op: Outpoint) -> (r: bool)
        ensures
            r == chain_lists(chain.utxos@, op),
    {
        let mut i: usize = 0;
        while i < chain.utxos.len()
            invariant
                0 <= i <= chain.utxos@.len(),
                forall|j: int| 0 <= j < i ==> chain.utxos@[j].outpoint != op,
            decreases chain.utxos@.len() - i,
        {
            if chain.utxos[i].outpoint == op {
                return true;
            }
            i += 1;
        }
        false
    }

    /// Synchronization pass: folds the chain's current listing for this
    /// wallet into the local unspent set. Outputs the chain lists are
    /// merged with local knowledge; local records that the chain no longer
    /// lists are kept only while they carry an allocation or are committed
    /// to a pending transaction.
    #[verifier::loop_isolation(false)]
    pub fn sync(&mut self, chain: &ChainState)
        ensures
            final(self).unspents@ == sync_unspents(
                old(self).unspents@,
                old(self).allocations@,
                chain.utxos@,
            ),
            *final(self) == (Wallet { unspents: final(self).unspents, ..*old(self) }),
    {
        let ghost us0 = self.unspents@;
        let ghost allocs0 = self.allocations@;
        let ghost cs = chain.utxos@;
        let mut merged: Vec<Unspent> = Vec::new();
        let mut i: usize = 0;
        while i < chain.utxos.len()
            invariant
                0 <= i <= cs.len(),
                merged@ == Seq::new(i as nat, |k: int| merge_one(us0, cs[k])),
            decreases cs.len() - i,
        {
            let c = chain.utxos[i];
            let rec = match find_unspent(&self.unspents, c.outpoint) {
                Some(k) => {
                    let u = &self.unspents[k];
                    Unspent {
                        outpoint: c.outpoint,
                        sat: c.sat,
                        confirmed: c.confirmations >= MIN_CONFIRMATIONS,
                        internal: u.internal,
                        colorable: u.colorable,
                        pending_spend: u.pending_spend,
                    }
                },
                None => Unspent {
                    outpoint: c.outpoint,
                    sat: c.sat,
                    confirmed: c.confirmations >= MIN_CONFIRMATIONS,
                    internal: false,
                    colorable: false,
                    pending_spend: None,
                },
            };
            proof {
                assert(rec == merge_one(us0, cs[i as int]));
            }
            merged.push(rec);
            proof {
                assert(merged@ =~= Seq::new((i + 1) as nat, |k: int| merge_one(us0, cs[k])));
            }
            i += 1;
        }
        let mut kept: Vec<Unspent> = Vec::new();
        let mut j: usize = 0;
        proof {
            assert(us0.take(0) =~= Seq::<Unspent>::empty());
        }
        while j < self.unspents.len()
            invariant
                0 <= j <= us0.len(),
                self.unspents@ == us0,
                self.allocations@ == allocs0,
                kept@ == unspent_retained(us0.take(j as int), p_kept_local(allocs0, cs)),
            decreases us0.len() - j,
        {
            let u = self.unspents[j];
            let keep = (u.colorable || has_allocation(&self.allocations, u.outpoint)
                || u.pending_spend.is_some()) && !Self::chain_lists_exec(chain, u.outpoint);
            proof {
                assert(us0.take(j as int + 1).drop_last() =~= us0.take(j as int));
                assert(us0.take(j as int + 1).last() == us0[j as int]);
                assert(keep == p_kept_local(allocs0, cs)(us0[j as int]));
            }
            if keep {
                kept.push(u);
            }
            j += 1;
        }
        proof {
            assert(us0.take(us0.len() as int) =~= us0);
        }
        merged.append(&mut kept);
        self.unspents = merged;
        proof {
            assert(final(self).unspents@ =~= sync_unspents(us0, allocs0, cs));
        }
    }

    /// Issues a non-inflatable asset: validates the request, records the
    /// issuance, and allocates the whole supply to one spendable output.
    #[verifier::loop_isolation(false)]
    pub fn issue_asset_nia(
        &mut self,
        name: Vec<u8>,
        ticker: Option<Vec<u8>>,
        precision: u8,
        amounts: &Vec<u64>,
    ) -> (r: Result<u64, Error>)
        requires
            old(self).wf(),
        ensures
            final(self).wf(),
            r is Err ==> *final(self) == *old(self),
            r matches Ok(id) ==> {
                &&& id == old(self).next_asset_id
                &&& final(self).assets@.len() == old(self).assets@.len() + 1
                &&& final(self).assets@.subrange(0, old(self).assets@.len() as int) == old(
                    self,
                ).assets@
                &&& final(self).assets@[old(self).assets@.len() as int].id == id
                &&& final(self).assets@[old(self).assets@.len() as int].issued_supply
                    == sum_amounts(amounts@)
                &&& final(self).allocations@.len() == old(self).allocations@.len() + 1
                &&& final(self).allocations@.subrange(0, old(self).allocations@.len() as int) == old(
                    self,
                ).allocations@
                &&& final(self).allocations@[old(self).allocations@.len() as int].asset_id == id
                &&& final(self).allocations@[old(self).allocations@.len() as int].amount
                    == sum_amounts(amounts@)
                &&& final(self).unspents@ == old(self).unspents@
                &&& final(self).transfers@ == old(self).transfers@
                &&& final(self).last_operation == bump(old(self).clock)
                &&& final(self).last_backup == old(self).last_backup
            },
            // Each rejection comes exactly from its own validation; a valid
            // request with a host output is owed success.
            r matches Err(Error::InvalidName { .. }) ==> (name@.len() == 0 || name@.len()
                > MAX_NAME_LEN || (ticker matches Some(t) && t@.len() > MAX_TICKER_LEN)),
            r matches Err(Error::InvalidPrecision { .. }) ==> (precision > MAX_PRECISION
                || sum_amounts(amounts@) == 0 || sum_amounts(amounts@) > u64::MAX),
            r matches Err(Error::InsufficientAllocationSlots) ==> !Self::spec_has_host(
                old(self).unspents@,
            ),
            r matches Err(Error::Inconsistency { .. }) ==> Self::spec_asset_of(
                old(self).assets@,
                old(self).next_asset_id,
            ) is Some,
            (0 < name@.len() <= MAX_NAME_LEN && (ticker matches Some(t) ==> t@.len()
                <= MAX_TICKER_LEN) && precision <= MAX_PRECISION && 0 < sum_amounts(amounts@)
                <= u64::MAX && Self::spec_has_host(old(self).unspents@) && Self::spec_asset_of(
                old(self).assets@,
                old(self).next_asset_id,
            ) is None) ==> r is Ok,
    {
        if name.len() == 0 || name.len() > MAX_NAME_LEN {
            return Err(Error::InvalidName { details: "name must be 1 to 32 bytes".to_owned() });
        }
        let ticker_ok = match &ticker {
            Some(t) => t.len() <= MAX_TICKER_LEN,
            None => true,
        };
        if !ticker_ok {
            return Err(Error::InvalidName { details: "ticker too long".to_owned() });
        }
        if precision > MAX_PRECISION {
            return Err(Error::InvalidPrecision { details: "precision too high".to_owned() });
        }
        // Total supply, rejecting amounts that do not fit the asset's range.
        let mut supply: u64 = 0;
        let mut i: usize = 0;
        while i < amounts.len()
            invariant
                0 <= i <= amounts@.len(),
                supply == sum_amounts(amounts@.take(i as int)),
                sum_amounts(amounts@.take(i as int)) <= u64::MAX,
            decreases amounts@.len() - i,
        {
            proof {
                assert(amounts@.take(i as int + 1).drop_last() =~= amounts@.take(i as int));
                assert(amounts@.take(i as int + 1).last() == amounts@[i as int]);
            }
            if amounts[i] > u64::MAX - supply {
                proof {
                    crate::model::lemma_sum_amounts_prefix(amounts@, i as int + 1);
                }
                return Err(Error::InvalidPrecision {
                    details: "issuance amounts exceed the asset range".to_owned(),
                });
            }
            supply = supply + amounts[i];
            i += 1;
        }
        proof {
            assert(amounts@.take(amounts@.len() as int) =~= amounts@);
        }
        if supply == 0 {
            return Err(Error::InvalidPrecision { details: "supply must be positive".to_owned() });
        }
        // The identifier about to be assigned must be fresh.
        if self.find_asset(self.next_asset_id).is_some() {
            return Err(Error::Inconsistency {
                details: "asset identifier space exhausted".to_owned(),
            });
        }
        // The allocation needs a spendable output to live on.
        let host = self.pick_allocation_host();
        let op = match host {
            Some(op) => op,
            None => {
                return Err(Error::InsufficientAllocationSlots);
            },
        };
        self.touch();
        let id = self.next_asset_id;
        self.next_asset_id = if self.next_asset_id == u64::MAX {
            self.next_asset_id
        } else {
            self.next_asset_id + 1
        };
        let asset = Asset {
            idx: id,
            media_idx: None,
            id,
            schema: AssetSchema::Nia,
            added_at: self.clock,
            details: None,
            issued_supply: supply,
            name,
            precision,
            ticker,
            timestamp: self.clock,
        };
        self.assets.push(asset);
        self.allocations.push(Allocation { outpoint: op, asset_id: id, amount: supply });
        proof {
            Self::lemma_asset_of_none(old(self).assets@, id);
            assert(final(self).assets@.subrange(0, old(self).assets@.len() as int) =~= old(
                self,
            ).assets@);
            assert(final(self).allocations@.subrange(0, old(self).allocations@.len() as int) =~= old(
                self,
            ).allocations@);
        }
        Ok(id)
    }

    /// Whether some spendable colored output can host a new allocation.
    pub open spec fn spec_has_host(us: Seq<Unspent>) -> bool {
        exists|i: int|
            0 <= i < us.len() && (#[trigger] us[i]).colorable && us[i].pending_spend is None && (
            us[i].confirmed || us[i].internal)
    }

    /// Picks a spendable colored output to host a new allocation; finds one
    /// exactly when one exists.
    #[verifier::loop_isolation(false)]
    fn pick_allocation_host(&self) -> (r: Option<Outpoint>)
        ensures
            r is Some <==> Self::spec_has_host(self.unspents@),
            r matches Some(op) ==> exists|i: int|
                0 <= i < self.unspents@.len() && (#[trigger] self.unspents@[i]).outpoint == op
                    && self.unspents@[i].colorable && self.unspents@[i].pending_spend is None && (
                self.unspents@[i].confirmed || self.unspents@[i].internal),
    {
        let mut i: usize = 0;
        while i < self.unspents.len()
            invariant
                0 <= i <= self.unspents@.len(),
                forall|j: int|
                    0 <= j < i ==> !((#[trigger] self.unspents@[j]).colorable
                        && self.unspents@[j].pending_spend is None && (self.unspents@[j].confirmed
                        || self.unspents@[j].internal)),
            decreases self.unspents@.len() - i,
        {
            let u = self.unspents[i];
            if u.colorable && u.pending_spend.is_none() && (u.confirmed || u.internal) {
                return Some(u.outpoint);
            }
            i += 1;
        }
        None
    }

    /// Creates a blinded receive: the allocation will land on an existing
    /// output the counterparty never learns.
    pub fn blind_receive(&mut self) -> (r: Result<ReceiveData, Error>)
        requires
            old(self).wf(),
        ensures
            final(self).wf(),
            r matches Err(e) ==> (e matches Error::InsufficientAllocationSlots && *final(self)
                == *old(self) && !Self::spec_has_host(old(self).unspents@)),
            Self::spec_has_host(old(self).unspents@) ==> r is Ok,
            r matches Ok(d) ==> {
                &&& d.recipient_id == old(self).next_recipient_id
                &&& final(self).transfers@.len() == old(self).transfers@.len() + 1
                &&& final(self).transfers@.subrange(0, old(self).transfers@.len() as int) == old(
                    self,
                ).transfers@
                &&& final(self).transfers@.last().incoming
                &&& final(self).transfers@.last().status == TransferStatus::WaitingCounterparty
                &&& final(self).transfers@.last().kind == ReceiveKind::Blinded
                &&& final(self).transfers@.last().recipient_id == d.recipient_id
                &&& final(self).allocations@ == old(self).allocations@
                &&& final(self).unspents@ == old(self).unspents@
                &&& final(self).assets@ == old(self).assets@
            },
    {
        let op = match self.pick_allocation_host() {
            Some(op) => op,
            None => {
                return Err(Error::InsufficientAllocationSlots);
            },
        };
        self.touch();
        let rid = self.next_recipient_id;
        self.next_recipient_id = if rid == u64::MAX {
            rid
        } else {
            rid + 1
        };
        let tid = self.next_transfer_id;
        self.next_transfer_id = if tid == u64::MAX {
            tid
        } else {
            tid + 1
        };
        let t = Transfer {
            id: tid,
            asset_id: None,
            amount: 0,
            incoming: true,
            kind: ReceiveKind::Blinded,
            recipient_id: rid,
            txid: None,
            status: TransferStatus::WaitingCounterparty,
            blinded_outpoint: Some(op),
            witness_vout: None,
            witness_sat: 0,
            change_outpoint: None,
            change_amount: 0,
            change_sat: 0,
        };
        self.transfers.push(t);
        proof {
            assert(final(self).transfers@.subrange(0, old(self).transfers@.len() as int) =~= old(
                self,
            ).transfers@);
        }
        Ok(ReceiveData { recipient_id: rid })
    }

    /// Creates a witness receive: the transaction itself will carry a new
    /// output to this wallet.
    pub fn witness_receive(&mut self) -> (r: Result<ReceiveData, Error>)
        requires
            old(self).wf(),
        ensures
            final(self).wf(),
            r matches Ok(d) ==> {
                &&& d.recipient_id == old(self).next_recipient_id
                &&& final(self).transfers@.len() == old(self).transfers@.len() + 1
                &&& final(self).transfers@.subrange(0, old(self).transfers@.len() as int) == old(
                    self,
                ).transfers@
                &&& final(self).transfers@.last().incoming
                &&& final(self).transfers@.last().status == TransferStatus::WaitingCounterparty
                &&& final(self).transfers@.last().kind == ReceiveKind::Witness
                &&& final(self).allocations@ == old(self).allocations@
                &&& final(self).unspents@ == old(self).unspents@
                &&& final(self).assets@ == old(self).assets@
            },
            r is Ok,
    {
        self.touch();
        let rid = self.next_recipient_id;
        self.next_recipient_id = if rid == u64::MAX {
            rid
        } else {
            rid + 1
        };
        let tid = self.next_transfer_id;
        self.next_transfer_id = if tid == u64::MAX {
            tid
        } else {
            tid + 1
        };
        let t = Transfer {
            id: tid,
            asset_id: None,
            amount: 0,
            incoming: true,
            kind: ReceiveKind::Witness,
            recipient_id: rid,
            txid: None,
            status: TransferStatus::WaitingCounterparty,
            blinded_outpoint: None,
            witness_vout: None,
            witness_sat: 0,
            change_outpoint: None,
            change_amount: 0,
            change_sat: 0,
        };
        self.transfers.push(t);
        proof {
            assert(final(self).transfers@.subrange(0, old(self).transfers@.len() as int) =~= old(
                self,
            ).transfers@);
        }
        Ok(ReceiveData { recipient_id: rid })
    }

    /// Whether a status is terminal; executable twin of `is_terminal`.
    fn is_terminal_exec(s: TransferStatus) -> (r: bool)
        ensures
            r == is_terminal(s),
    {
        matches!(s, TransferStatus::Settled) || matches!(s, TransferStatus::Failed)
    }

    /// Confirmation count the chain reports for a transaction, if listed;
    /// executable twin of `spec_tx_confs`.
    #[verifier::loop_isolation(false)]
    fn tx_confs(chain: &ChainState, txid: u64) -> (r: Option<u64>)
        ensures
            r == spec_tx_confs(chain.txs@, txid),
    {
        let mut i: usize = 0;
        proof {
            assert(chain.txs@.skip(0) =~= chain.txs@);
        }
        while i < chain.txs.len()
            invariant
                0 <= i <= chain.txs@.len(),
                spec_tx_confs(chain.txs@.skip(i as int), txid) == spec_tx_confs(chain.txs@, txid),
            decreases chain.txs@.len() - i,
        {
            if chain.txs[i].txid == txid {
                proof {
                    assert(chain.txs@.skip(i as int)[0] == chain.txs@[i as int]);
                }
                return Some(chain.txs[i].confirmations);
            }
            proof {
                assert(chain.txs@.skip(i as int).drop_first() =~= chain.txs@.skip(i as int + 1));
            }
            i += 1;
        }
        None
    }

    /// First consignment addressed to the given receive identifier;
    /// executable twin of `spec_consignment_for`.
    #[verifier::loop_isolation(false)]
    fn find_consignment(cons: &Vec<Consignment>, rid: u64) -> (r: Option<usize>)
        ensures
            match r {
                Some(i) => i < cons@.len() && spec_consignment_for(cons@, rid) == Some(
                    cons@[i as int],
                ),
                None => spec_consignment_for(cons@, rid) is None,
            },
    {
        let mut i: usize = 0;
        proof {
            assert(cons@.skip(0) =~= cons@);
        }
        while i < cons.len()
            invariant
                0 <= i <= cons@.len(),
                spec_consignment_for(cons@.skip(i as int), rid) == spec_consignment_for(cons@, rid),
            decreases cons@.len() - i,
        {
            if cons[i].recipient_id == rid {
                proof {
                    assert(cons@.skip(i as int)[0] == cons@[i as int]);
                }
                return Some(i);
            }
            proof {
                assert(cons@.skip(i as int).drop_first() =~= cons@.skip(i as int + 1));
            }
            i += 1;
        }
        None
    }

    /// Whether the list of acknowledged receive identifiers names this one.
    #[verifier::loop_isolation(false)]
    fn acked(acks: &Vec<u64>, rid: u64) -> (r: bool)
        ensures
            r == acks@.contains(rid),
    {
        let mut i: usize = 0;
        while i < acks.len()
            invariant
                0 <= i <= acks@.len(),
                forall|j: int| 0 <= j < i ==> acks@[j] != rid,
            decreases acks@.len() - i,
        {
            if acks[i] == rid {
                return true;
            }
            i += 1;
        }
        false
    }

    /// Books the on-chain effect of a settled outgoing transfer: the
    /// consumed outputs leave the wallet, the change output enters it, and
    /// the asset change allocation replaces the consumed rows.
    #[verifier::loop_isolation(false)]
    fn settle_outgoing(&mut self, t: Transfer)
        requires
            old(self).wf(),
        ensures
            final(self).wf(),
            *final(self) == (Wallet {
                unspents: final(self).unspents,
                allocations: final(self).allocations,
                ..*old(self)
            }),
            final(self).unspents@ == unspent_retained(old(self).unspents@, p_unconsumed(t.id))
                + (match t.change_outpoint {
                Some(op) => seq![spec_change_utxo(t, op)],
                None => Seq::<Unspent>::empty(),
            }),
            final(self).allocations@ == alloc_retained(
                old(self).allocations@,
                p_alloc_surviving(old(self).unspents@, t.id),
            ) + (match (t.asset_id, t.change_outpoint) {
                (Some(aid), Some(op)) => if t.change_amount > 0 {
                    seq![(Allocation { outpoint: op, asset_id: aid, amount: t.change_amount })]
                } else {
                    Seq::<Allocation>::empty()
                },
                _ => Seq::<Allocation>::empty(),
            }),
    {
        let ghost us0 = self.unspents@;
        let ghost allocs0 = self.allocations@;
        let ghost pa = p_alloc_surviving(us0, t.id);
        let ghost pu = p_unconsumed(t.id);
        // Drop allocation rows hosted on the outputs this transfer consumes.
        let mut arows: Vec<Allocation> = Vec::new();
        let mut i: usize = 0;
        proof {
            assert(allocs0.take(0) =~= Seq::<Allocation>::empty());
        }
        while i < self.allocations.len()
            invariant
                0 <= i <= allocs0.len(),
                self.unspents@ == us0,
                self.allocations@ == allocs0,
                arows@ == alloc_retained(allocs0.take(i as int), pa),
            decreases allocs0.len() - i,
        {
            let al = self.allocations[i];
            let consumed = match find_unspent(&self.unspents, al.outpoint) {
                Some(k) => match self.unspents[k].pending_spend {
                    Some(tid) => tid == t.id,
                    None => false,
                },
                None => false,
            };
            proof {
                assert((!consumed) == pa(allocs0[i as int]));
                assert(allocs0.take(i as int + 1).drop_last() =~= allocs0.take(i as int));
                assert(allocs0.take(i as int + 1).last() == allocs0[i as int]);
            }
            if !consumed {
                arows.push(al);
            }
            i += 1;
        }
        proof {
            assert(allocs0.take(allocs0.len() as int) =~= allocs0);
        }
        // The asset change returns to the wallet on the change output.
        if t.change_amount > 0 {
            match (t.asset_id, t.change_outpoint) {
                (Some(aid), Some(op)) => {
                    arows.push(Allocation { outpoint: op, asset_id: aid, amount: t.change_amount });
                },
                _ => {},
            }
        }
        // Drop the consumed outputs; surface the change output.
        let mut kept: Vec<Unspent> = Vec::new();
        let mut j: usize = 0;
        proof {
            assert(us0.take(0) =~= Seq::<Unspent>::empty());
        }
        while j < self.unspents.len()
            invariant
                0 <= j <= us0.len(),
                self.unspents@ == us0,
                kept@ == unspent_retained(us0.take(j as int), pu),
            decreases us0.len() - j,
        {
            let u = self.unspents[j];
            let consumed = match u.pending_spend {
                Some(tid) => tid == t.id,
                None => false,
            };
            proof {
                assert((!consumed) == pu(us0[j as int]));
                assert(us0.take(j as int + 1).drop_last() =~= us0.take(j as int));
                assert(us0.take(j as int + 1).last() == us0[j as int]);
            }
            if !consumed {
                kept.push(u);
            }
            j += 1;
        }
        proof {
            assert(us0.take(us0.len() as int) =~= us0);
        }
        match t.change_outpoint {
            Some(op) => {
                kept.push(Unspent {
                    outpoint: op,
                    sat: t.change_sat,
                    confirmed: true,
                    internal: true,
                    colorable: t.change_amount > 0,
                    pending_spend: None,
                });
            },
            None => {},
        }
        self.allocations = arows;
        self.unspents = kept;
        proof {
            assert(final(self).unspents@ =~= unspent_retained(us0, pu) + (match t.change_outpoint {
                Some(op) => seq![spec_change_utxo(t, op)],
                None => Seq::<Unspent>::empty(),
            }));
            assert(final(self).allocations@ =~= alloc_retained(allocs0, pa) + (match (
                t.asset_id,
                t.change_outpoint,
            ) {
                (Some(aid), Some(op)) => if t.change_amount > 0 {
                    seq![(Allocation { outpoint: op, asset_id: aid, amount: t.change_amount })]
                } else {
                    Seq::<Allocation>::empty()
                },
                _ => Seq::<Allocation>::empty(),
            }));
        }
    }

    /// Advances every open transfer on fresh chain and counterparty facts:
    /// a synchronization pass, then one step of the state machine per
    /// transfer. Terminal transfers are never touched, and no transfer ever
    /// moves backwards. Consignments and acknowledgements are the facts the
    /// transport layer collected for this wallet.
    #[verifier::loop_isolation(false)]
    pub fn refresh(
        &mut self,
        online: &Online,
        chain: &ChainState,
        consignments: &Vec<Consignment>,
        acks: &Vec<u64>,
        asset_filter: Option<u64>,
    ) -> (r: Result<Vec<RefreshedTransfer>, Error>)
        requires
            old(self).wf(),
        ensures
            final(self).wf(),
            !old(self).online_matches(*online) ==> (r matches Err(Error::CannotChangeOnline)
                && *final(self) == *old(self)),
            old(self).online_matches(*online) ==> r is Ok,
            r is Ok ==> {
                &&& final(self).transfers@.len() == old(self).transfers@.len()
                &&& forall|j: int|
                    0 <= j < old(self).transfers@.len() && is_terminal(
                        old(self).transfers@[j].status,
                    ) ==> #[trigger] final(self).transfers@[j] == old(self).transfers@[j]
                &&& forall|j: int|
                    0 <= j < old(self).transfers@.len() ==> status_rank(
                        #[trigger] final(self).transfers@[j].status,
                    ) >= status_rank(old(self).transfers@[j].status)
                &&& forall|j: int|
                    0 <= j < old(self).transfers@.len() ==> refresh_step(
                        #[trigger] old(self).transfers@[j],
                        final(self).transfers@[j],
                        consignments@,
                        acks@,
                        chain.txs@,
                        asset_filter,
                    )
                &&& final(self).assets@.len() >= old(self).assets@.len()
                &&& final(self).assets@.subrange(0, old(self).assets@.len() as int) == old(
                    self,
                ).assets@
                &&& final(self).last_backup == old(self).last_backup
                &&& final(self).last_operation == bump(old(self).clock)
                &&& old(self).clock < u64::MAX ==> final(self).spec_backup_required()
            },
            r matches Ok(rep) ==> rep@.len() == old(self).transfers@.len() && forall|j: int|
                0 <= j < old(self).transfers@.len() ==> #[trigger] rep@[j] == (RefreshedTransfer {
                    id: old(self).transfers@[j].id,
                    status: final(self).transfers@[j].status,
                    updated: final(self).transfers@[j] != old(self).transfers@[j],
                }),
    {
        self.check_online(online)?;
        self.sync(chain);
        self.touch();
        let ghost ts0 = self.transfers@;
        let n = self.transfers.len();
        let mut ts2: Vec<Transfer> = Vec::new();
        let mut report: Vec<RefreshedTransfer> = Vec::new();
        let mut i: usize = 0;
        let ghost assets0 = old(self).assets@;
        while i < n
            invariant
                0 <= i <= n,
                self.transfers@ == ts0,
                n == ts0.len(),
                ts2@.len() == i,
                report@.len() == i,
                forall|j: int|
                    0 <= j < i && is_terminal(ts0[j].status) ==> #[trigger] ts2@[j] == ts0[j],
                forall|j: int|
                    0 <= j < i ==> status_rank(#[trigger] ts2@[j].status) >= status_rank(
                        ts0[j].status,
                    ),
                forall|j: int|
                    0 <= j < i ==> refresh_step(
                        ts0[j],
                        #[trigger] ts2@[j],
                        consignments@,
                        acks@,
                        chain.txs@,
                        asset_filter,
                    ),
                forall|j: int|
                    0 <= j < i ==> #[trigger] report@[j] == (RefreshedTransfer {
                        id: ts0[j].id,
                        status: ts2@[j].status,
                        updated: ts2@[j] != ts0[j],
                    }),
                self.assets@.len() >= assets0.len(),
                self.assets@.subrange(0, assets0.len() as int) == assets0,
                self.wf(),
                self.last_backup == old(self).last_backup,
                self.last_operation == bump(old(self).clock),
                self.clock == bump(old(self).clock),
            decreases n - i,
        {
            let t = self.transfers[i];
            let matches_filter = match asset_filter {
                None => true,
                Some(aid) => match t.asset_id {
                    Some(x) => x == aid,
                    None => true,
                },
            };
            let mut t2 = t;
            if matches_filter && !Self::is_terminal_exec(t.status) {
                if matches!(t.status, TransferStatus::WaitingCounterparty) {
                    if t.incoming {
                        match Self::find_consignment(consignments, t.recipient_id) {
                            Some(ci) => {
                                let c = consignments[ci];
                                let valid = c.amount > 0 && c.amount <= c.asset_supply
                                    && c.asset_precision <= MAX_PRECISION;
                                if valid {
                                    if self.find_asset(c.asset_id).is_none() {
                                        self.record_asset_from(c);
                                    }
                                    t2.asset_id = Some(c.asset_id);
                                    t2.amount = c.amount;
                                    t2.txid = Some(c.txid);
                                    if matches!(t.kind, ReceiveKind::Witness) {
                                        t2.witness_vout = Some(c.witness_vout);
                                        t2.witness_sat = c.witness_sat;
                                    }
                                    t2.status = TransferStatus::WaitingConfirmations;
                                } else {
                                    // An invalid consignment fails the transfer.
                                    t2.status = TransferStatus::Failed;
                                }
                            },
                            None => {},
                        }
                    } else {
                        if Self::acked(acks, t.recipient_id) {
                            t2.status = TransferStatus::WaitingConfirmations;
                        }
                    }
                } else {
                    // WaitingConfirmations: look the transaction up on chain.
                    match t.txid {
                        None => {
                            // A pending transfer without a transaction is a
                            // structural inconsistency.
                            t2.status = TransferStatus::Failed;
                        },
                        Some(txid) => {
                            match Self::tx_confs(chain, txid) {
                                Some(confs) => {
                                    if confs >= MIN_CONFIRMATIONS {
                                        if t.incoming {
                                            let dest: Option<Outpoint> = if matches!(
                                                t.kind,
                                                ReceiveKind::Blinded,
                                            ) {
                                                t.blinded_outpoint
                                            } else {
                                                match t.witness_vout {
                                                    Some(v) => Some(Outpoint { txid, vout: v }),
                                                    None => None,
                                                }
                                            };
                                            let landed = match (t.asset_id, dest) {
                                                (Some(aid), Some(op)) => {
                                                    match find_unspent(&self.unspents, op) {
                                                        Some(k) => {
                                                            // The landing output now carries an
                                                            // allocation: mark it colored so a
                                                            // keep-policy drain preserves it.
                                                            let mut host = self.unspents[k];
                                                            host.colorable = true;
                                                            let _ = self.unspents.remove(k);
                                                            self.unspents.insert(k, host);
                                                            self.allocations.push(Allocation {
                                                                outpoint: op,
                                                                asset_id: aid,
                                                                amount: t.amount,
                                                            });
                                                            true
                                                        },
                                                        None => false,
                                                    }
                                                },
                                                _ => false,
                                            };
                                            // The expected output must still be
                                            // present; otherwise the value was
                                            // spent from under the transfer.
                                            t2.status = if landed {
                                                TransferStatus::Settled
                                            } else {
                                                TransferStatus::Failed
                                            };
                                        } else {
                                            self.settle_outgoing(t);
                                            t2.status = TransferStatus::Settled;
                                        }
                                    }
                                },
                                None => {},
                            }
                        },
                    }
                }
            }
            proof {
                assert(status_rank(t2.status) >= status_rank(t.status));
                assert(matches_filter == in_filter(t, asset_filter));
                assert(refresh_step(t, t2, consignments@, acks@, chain.txs@, asset_filter));
            }
            let updated = t2 != t;
            ts2.push(t2);
            report.push(RefreshedTransfer { id: t.id, status: t2.status, updated });
            i += 1;
        }
        self.transfers = ts2;
        Ok(report)
    }


    /// Records an asset first seen through a consignment.
    fn record_asset_from(&mut self, c: Consignment)
        requires
            old(self).wf(),
            Self::spec_asset_of(old(self).assets@, c.asset_id) is None,
        ensures
            final(self).wf(),
            *final(self) == (Wallet { assets: final(self).assets, ..*old(self) }),
            final(self).assets@.len() == old(self).assets@.len() + 1,
            final(self).assets@.subrange(0, old(self).assets@.len() as int) == old(self).assets@,
    {
        let a = Asset {
            idx: c.asset_id,
            media_idx: None,
            id: c.asset_id,
            schema: AssetSchema::Nia,
            added_at: self.clock,
            details: None,
            issued_supply: c.asset_supply,
            name: Vec::new(),
            precision: c.asset_precision,
            ticker: None,
            timestamp: self.clock,
        };
        self.assets.push(a);
        proof {
            Self::lemma_asset_of_none(old(self).assets@, c.asset_id);
            assert(final(self).assets@.subrange(0, old(self).assets@.len() as int) =~= old(
                self,
            ).assets@);
        }
    }

    /// All validations a drain performs before touching state.
    pub open spec fn spec_drain_ready(self, online: Online, addr: Seq<char>, rate: u64) -> bool {
        &&& self.online_matches(online)
        &&& self.has_private_keys
        &&& FEE_RATE_MIN <= rate <= FEE_RATE_MAX
        &&& valid_address(addr)
    }

    /// Consolidates the wallet's spendable value into one destination
    /// address. With `destroy_assets` false every colored output is kept
    /// and only uncolored value moves; with it true colored outputs are
    /// consumed and their allocations forfeited. A synchronization pass
    /// runs first so that newly arrived outputs are swept too.
    #[verifier::loop_isolation(false)]
    pub fn drain_to(
        &mut self,
        online: &Online,
        chain: &ChainState,
        address: &str,
        destroy_assets: bool,
        fee_rate: u64,
    ) -> (r: Result<u64, Error>)
        requires
            old(self).wf(),
        ensures
            final(self).wf(),
            !old(self).online_matches(*online) ==> (r matches Err(Error::CannotChangeOnline)
                && *final(self) == *old(self)),
            old(self).online_matches(*online) && !old(self).has_private_keys ==> (r matches Err(
                Error::WatchOnly,
            ) && *final(self) == *old(self)),
            old(self).online_matches(*online) && old(self).has_private_keys && fee_rate
                < FEE_RATE_MIN ==> (r matches Err(Error::InvalidFeeRate { details }) && details@
                == fee_low_msg() && *final(self) == *old(self)),
            old(self).online_matches(*online) && old(self).has_private_keys && fee_rate
                > FEE_RATE_MAX ==> (r matches Err(Error::InvalidFeeRate { details }) && details@
                == fee_high_msg() && *final(self) == *old(self)),
            old(self).online_matches(*online) && old(self).has_private_keys && FEE_RATE_MIN
                <= fee_rate <= FEE_RATE_MAX && !valid_address(address@) ==> (r matches Err(
                Error::InvalidAddress { .. },
            ) && *final(self) == *old(self)),
            old(self).spec_drain_ready(*online, address@, fee_rate) ==> {
                let us1 = sync_unspents(old(self).unspents@, old(self).allocations@, chain.utxos@);
                let sel = p_drain_sel(old(self).allocations@, destroy_assets);
                let total = clamp64(sum_sat_if(us1, sel));
                let fee = spec_fee(unspent_retained(us1, sel).len() as int, 1, fee_rate as int);
                if total <= fee {
                    &&& r matches Err(Error::InsufficientBitcoins { needed, available })
                        && needed == clamp64(fee + 1) && available == total
                    &&& final(self).unspents@ == us1
                    &&& *final(self) == (Wallet { unspents: final(self).unspents, ..*old(self) })
                } else {
                    &&& r matches Ok(txid) && txid == old(self).next_txid
                    &&& final(self).unspents@ == unspent_retained(
                        us1,
                        p_drain_keep(old(self).allocations@, destroy_assets),
                    )
                    &&& (!destroy_assets ==> final(self).allocations@ == old(self).allocations@)
                    &&& (destroy_assets ==> final(self).allocations@ == alloc_retained(
                        old(self).allocations@,
                        p_alloc_keep(us1, old(self).allocations@, destroy_assets),
                    ))
                    &&& final(self).transfers@ == old(self).transfers@
                    &&& final(self).assets@ == old(self).assets@
                    &&& final(self).last_operation == bump(old(self).clock)
                    &&& final(self).last_backup == old(self).last_backup
                    &&& (old(self).clock < u64::MAX ==> final(self).spec_backup_required())
                }
            },
    {
        self.check_online(online)?;
        if !self.has_private_keys {
            return Err(Error::WatchOnly);
        }
        if fee_rate < FEE_RATE_MIN {
            return Err(Error::InvalidFeeRate { details: fee_msg_low() });
        }
        if fee_rate > FEE_RATE_MAX {
            return Err(Error::InvalidFeeRate { details: fee_msg_high() });
        }
        if !check_address(address) {
            return Err(Error::InvalidAddress {
                details: "not a valid address for the active network".to_owned(),
            });
        }
        // Sweep in outputs the chain knows about but the wallet does not yet.
        self.sync(chain);
        let ghost us1 = self.unspents@;
        let ghost allocs0 = self.allocations@;
        let ghost sel = p_drain_sel(allocs0, destroy_assets);
        // Count and value of the outputs this drain would consume.
        let mut n_in: usize = 0;
        let mut total128: u128 = 0;
        let mut i: usize = 0;
        while i < self.unspents.len()
            invariant
                0 <= i <= us1.len(),
                self.unspents@ == us1,
                self.allocations@ == allocs0,
                n_in == unspent_retained(us1.take(i as int), sel).len(),
                total128 == sum_sat_if(us1.take(i as int), sel),
                total128 <= (i as int) * (u64::MAX as int),
                n_in <= i,
            decreases us1.len() - i,
        {
            let u = self.unspents[i];
            let selected = u.pending_spend.is_none() && (u.confirmed || u.internal) && (
            destroy_assets || (!u.colorable && !has_allocation(&self.allocations, u.outpoint)));
            proof {
                assert(selected == sel(us1[i as int]));
                assert(us1.take(i as int + 1).drop_last() =~= us1.take(i as int));
                assert(us1.take(i as int + 1).last() == us1[i as int]);
                assert((i as int + 1) * (u64::MAX as int) == (i as int) * (u64::MAX as int) + (
                u64::MAX as int));
            }
            if selected {
                n_in = n_in + 1;
                total128 = total128 + u.sat as u128;
            }
            i += 1;
        }
        proof {
            assert(us1.take(us1.len() as int) =~= us1);
        }
        let total: u64 = if total128 > u64::MAX as u128 {
            u64::MAX
        } else {
            total128 as u64
        };
        let fee = fee_for(n_in, 1, fee_rate);
        if total <= fee {
            let needed = if fee == u64::MAX {
                u64::MAX
            } else {
                fee + 1
            };
            return Err(Error::InsufficientBitcoins { needed, available: total });
        }
        // Consume the selected outputs; forfeit their allocations when asked.
        let ghost ukeep = p_drain_keep(allocs0, destroy_assets);
        let mut kept: Vec<Unspent> = Vec::new();
        let mut j: usize = 0;
        proof {
            assert(us1.take(0) =~= Seq::<Unspent>::empty());
        }
        while j < self.unspents.len()
            invariant
                0 <= j <= us1.len(),
                self.unspents@ == us1,
                self.allocations@ == allocs0,
                kept@ == unspent_retained(us1.take(j as int), ukeep),
            decreases us1.len() - j,
        {
            let u = self.unspents[j];
            let selected = u.pending_spend.is_none() && (u.confirmed || u.internal) && (
            destroy_assets || (!u.colorable && !has_allocation(&self.allocations, u.outpoint)));
            proof {
                assert(us1.take(j as int + 1).drop_last() =~= us1.take(j as int));
                assert(us1.take(j as int + 1).last() == us1[j as int]);
                assert((!selected) == ukeep(us1[j as int]));
            }
            if !selected {
                kept.push(u);
            }
            j += 1;
        }
        proof {
            assert(us1.take(us1.len() as int) =~= us1);
        }
        if destroy_assets {
            let ghost akeep = p_alloc_keep(us1, allocs0, destroy_assets);
            let mut arows: Vec<Allocation> = Vec::new();
            let mut k: usize = 0;
            proof {
                assert(allocs0.take(0) =~= Seq::<Allocation>::empty());
            }
            while k < self.allocations.len()
                invariant
                    0 <= k <= allocs0.len(),
                    self.unspents@ == us1,
                    self.allocations@ == allocs0,
                    arows@ == alloc_retained(allocs0.take(k as int), akeep),
                decreases allocs0.len() - k,
            {
                let al = self.allocations[k];
                let keep = match find_unspent(&self.unspents, al.outpoint) {
                    Some(x) => {
                        let u = self.unspents[x];
                        !(u.pending_spend.is_none() && (u.confirmed || u.internal) && (
                        destroy_assets || (!u.colorable && !has_allocation(
                            &self.allocations,
                            u.outpoint,
                        ))))
                    },
                    None => true,
                };
                proof {
                    assert(keep == akeep(allocs0[k as int]));
                    assert(allocs0.take(k as int + 1).drop_last() =~= allocs0.take(k as int));
                    assert(allocs0.take(k as int + 1).last() == allocs0[k as int]);
                }
                if keep {
                    arows.push(al);
                }
                k += 1;
            }
            proof {
                assert(allocs0.take(allocs0.len() as int) =~= allocs0);
            }
            self.allocations = arows;
        }
        self.unspents = kept;
        self.touch();
        let txid = self.next_txid;
        self.next_txid = if txid == u64::MAX {
            txid
        } else {
            txid + 1
        };
        Ok(txid)
    }

    /// Splits spendable uncolored value into `num` small outputs that can
    /// host allocations, plus change; the transaction is broadcast at once.
    #[verifier::loop_isolation(false)]
    pub fn create_utxos(&mut self, online: &Online, num: u8, size: u64) -> (r: Result<u8, Error>)
        requires
            old(self).wf(),
            num > 0,
            size > 0,
        ensures
            final(self).wf(),
            !old(self).online_matches(*online) ==> (r matches Err(Error::CannotChangeOnline)
                && *final(self) == *old(self)),
            old(self).online_matches(*online) && !old(self).has_private_keys ==> (r matches Err(
                Error::WatchOnly,
            ) && *final(self) == *old(self)),
            r matches Ok(n) ==> {
                &&& n == num
                &&& final(self).allocations@ == old(self).allocations@
                &&& final(self).transfers@ == old(self).transfers@
                &&& final(self).assets@ == old(self).assets@
                &&& final(self).last_operation == bump(old(self).clock)
                &&& final(self).last_backup == old(self).last_backup
                &&& final(self).unspents@.len() >= num as int + 1
            },
            r matches Err(Error::InsufficientBitcoins { .. }) ==> *final(self) == *old(self),
            // The selection decides the outcome: enough spendable uncolored
            // value covers the new outputs and the fee, or the call fails.
            old(self).online_matches(*online) && old(self).has_private_keys ==> {
                let sel = p_drain_sel(old(self).allocations@, false);
                let total = clamp64(sum_sat_if(old(self).unspents@, sel));
                let n_in = unspent_retained(old(self).unspents@, sel).len();
                let need = spec_fee(n_in as int, num as int + 1, DEFAULT_FEE_RATE as int) + num
                    * size;
                if total < need || n_in == 0 {
                    r matches Err(Error::InsufficientBitcoins { .. })
                } else {
                    r is Ok
                }
            },
    {
        self.check_online(online)?;
        if !self.has_private_keys {
            return Err(Error::WatchOnly);
        }
        let ghost us0 = self.unspents@;
        let ghost allocs0 = self.allocations@;
        let ghost sel = p_drain_sel(allocs0, false);
        // Select every spendable uncolored output.
        let mut n_in: usize = 0;
        let mut total128: u128 = 0;
        let mut i: usize = 0;
        proof {
            assert(us0.take(0) =~= Seq::<Unspent>::empty());
        }
        while i < self.unspents.len()
            invariant
                0 <= i <= us0.len(),
                self.unspents@ == us0,
                self.allocations@ == allocs0,
                total128 == sum_sat_if(us0.take(i as int), sel),
                total128 <= (i as int) * (u64::MAX as int),
                n_in == unspent_retained(us0.take(i as int), sel).len(),
                n_in <= i,
            decreases us0.len() - i,
        {
            let u = self.unspents[i];
            let selected = u.pending_spend.is_none() && (u.confirmed || u.internal) && !u.colorable
                && !has_allocation(&self.allocations, u.outpoint);
            proof {
                assert(selected == sel(us0[i as int]));
                assert(us0.take(i as int + 1).drop_last() =~= us0.take(i as int));
                assert(us0.take(i as int + 1).last() == us0[i as int]);
                assert((i as int + 1) * (u64::MAX as int) == (i as int) * (u64::MAX as int) + (
                u64::MAX as int));
            }
            if selected {
                n_in = n_in + 1;
                total128 = total128 + u.sat as u128;
            }
            i += 1;
        }
        proof {
            assert(us0.take(us0.len() as int) =~= us0);
        }
        let total: u64 = if total128 > u64::MAX as u128 {
            u64::MAX
        } else {
            total128 as u64
        };
        let fee = fee_for(n_in, num as usize + 1, DEFAULT_FEE_RATE);
        proof {
            assert(num as u128 * size as u128 <= 255u128 * 18446744073709551615u128)
                by (nonlinear_arith)
                requires
                    num as u128 <= 255u128,
                    size as u128 <= 18446744073709551615u128,
            ;
        }
        let need128: u128 = fee as u128 + num as u128 * size as u128;
        if (total as u128) < need128 || n_in == 0 {
            let needed = if need128 > u64::MAX as u128 {
                u64::MAX
            } else {
                need128 as u64
            };
            return Err(Error::InsufficientBitcoins { needed, available: total });
        }
        // Consume the selected outputs and create the new ones.
        let mut kept: Vec<Unspent> = Vec::new();
        let mut j: usize = 0;
        while j < self.unspents.len()
            invariant
                0 <= j <= us0.len(),
                self.unspents@ == us0,
                self.allocations@ == allocs0,
            decreases us0.len() - j,
        {
            let u = self.unspents[j];
            let selected = u.pending_spend.is_none() && (u.confirmed || u.internal) && !u.colorable
                && !has_allocation(&self.allocations, u.outpoint);
            if !selected {
                kept.push(u);
            }
            j += 1;
        }
        self.touch();
        let txid = self.next_txid;
        self.next_txid = if txid == u64::MAX {
            txid
        } else {
            txid + 1
        };
        let mut k: u8 = 0;
        while k < num
            invariant
                0 <= k <= num,
                kept@.len() >= k,
            decreases num - k,
        {
            kept.push(Unspent {
                outpoint: Outpoint { txid, vout: k as u32 },
                sat: size,
                confirmed: false,
                internal: true,
                colorable: true,
                pending_spend: None,
            });
            k += 1;
        }
        let change: u64 = ((total as u128 - need128) as u64);
        kept.push(Unspent {
            outpoint: Outpoint { txid, vout: num as u32 },
            sat: change,
            confirmed: false,
            internal: true,
            colorable: false,
            pending_spend: None,
        });
        self.unspents = kept;
        Ok(num)
    }

    /// Sends an amount of one asset to a counterparty's receive identifier.
    /// The transaction is constructed and the consignment returned for
    /// out-of-band delivery; broadcasting waits for the counterparty's
    /// acknowledgement, observed by a later `refresh`.
    #[verifier::loop_isolation(false)]
    pub fn send(
        &mut self,
        online: &Online,
        asset_id: u64,
        amount: u64,
        recipient_id: u64,
        witness_sat: Option<u64>,
    ) -> (r: Result<SendResult, Error>)
        requires
            old(self).wf(),
        ensures
            final(self).wf(),
            !old(self).online_matches(*online) ==> (r matches Err(Error::CannotChangeOnline)
                && *final(self) == *old(self)),
            old(self).online_matches(*online) && !old(self).has_private_keys ==> (r matches Err(
                Error::WatchOnly,
            ) && *final(self) == *old(self)),
            r matches Ok(sr) ==> {
                &&& sr.txid == old(self).next_txid
                &&& sr.consignment.recipient_id == recipient_id
                &&& sr.consignment.asset_id == asset_id
                &&& sr.consignment.amount == amount
                &&& sr.consignment.txid == sr.txid
                &&& final(self).allocations@ == old(self).allocations@
                &&& final(self).assets@ == old(self).assets@
                &&& final(self).transfers@.len() == old(self).transfers@.len() + 1
                &&& final(self).transfers@.subrange(0, old(self).transfers@.len() as int) == old(
                    self,
                ).transfers@
                &&& !final(self).transfers@.last().incoming
                &&& final(self).transfers@.last().status == TransferStatus::WaitingCounterparty
                &&& final(self).transfers@.last().asset_id == Some(asset_id)
                &&& final(self).transfers@.last().amount == amount
                &&& final(self).transfers@.last().txid == Some(sr.txid)
                &&& final(self).unspents@.len() == old(self).unspents@.len()
                &&& final(self).unspents@ == send_marked(
                    old(self).unspents@,
                    old(self).allocations@,
                    asset_id,
                    sum_sat_if(
                        old(self).unspents@,
                        p_send_colored(old(self).allocations@, asset_id),
                    ) < spec_fee(
                        unspent_retained(
                            old(self).unspents@,
                            p_send_colored(old(self).allocations@, asset_id),
                        ).len() as int,
                        match witness_sat {
                            Some(_) => 2int,
                            None => 1int,
                        },
                        DEFAULT_FEE_RATE as int,
                    ) + (match witness_sat {
                        Some(x) => x,
                        None => 0u64,
                    }) as int,
                    old(self).next_transfer_id,
                )
                &&& final(self).last_operation == bump(old(self).clock)
                &&& final(self).last_backup == old(self).last_backup
                &&& amount <= clamp64(
                    sum_alloc_if(
                        old(self).allocations@,
                        p_asset(old(self).unspents@, asset_id, MODE_SPENDABLE),
                    ),
                )
            },
            r is Err ==> *final(self) == *old(self),
            r matches Err(Error::AssetNotFound { .. }) ==> Self::spec_asset_of(
                old(self).assets@,
                asset_id,
            ) is None,
            // Once the asset-side checks pass, the bitcoin side decides:
            // the consumed value must cover the fee and the witness output.
            (old(self).online_matches(*online) && old(self).has_private_keys
                && Self::spec_asset_of(old(self).assets@, asset_id) is Some && 0 < amount && amount
                <= clamp64(
                sum_alloc_if(
                    old(self).allocations@,
                    p_asset(old(self).unspents@, asset_id, MODE_SPENDABLE),
                ),
            )) ==> {
                let pc = p_send_colored(old(self).allocations@, asset_id);
                let pv = p_drain_sel(old(self).allocations@, false);
                let csat = sum_sat_if(old(self).unspents@, pc);
                let vsat = sum_sat_if(old(self).unspents@, pv);
                let nc = unspent_retained(old(self).unspents@, pc).len() as int;
                let nv = unspent_retained(old(self).unspents@, pv).len() as int;
                let ws = (match witness_sat {
                    Some(x) => x,
                    None => 0u64,
                }) as int;
                let n_out: int = match witness_sat {
                    Some(_) => 2,
                    None => 1,
                };
                let fee1 = spec_fee(nc, n_out, DEFAULT_FEE_RATE as int);
                let use_v = csat < fee1 + ws;
                let sats = if use_v {
                    csat + vsat
                } else {
                    csat
                };
                let fee = if use_v {
                    spec_fee(nc + nv, n_out, DEFAULT_FEE_RATE as int)
                } else {
                    fee1
                };
                if sats < fee + ws {
                    r matches Err(Error::InsufficientBitcoins { .. })
                } else {
                    r is Ok
                }
            },
            r matches Err(Error::InsufficientAssets { needed, available }) ==> needed == amount
                && available == clamp64(
                sum_alloc_if(
                    old(self).allocations@,
                    p_asset(old(self).unspents@, asset_id, MODE_SPENDABLE),
                ),
            ) && (available < amount || amount == 0),
    {
        self.check_online(online)?;
        if !self.has_private_keys {
            return Err(Error::WatchOnly);
        }
        if self.find_asset(asset_id).is_none() {
            return Err(Error::AssetNotFound { asset_id });
        }
        let spendable = crate::balance::asset_sum(
            &self.allocations,
            &self.unspents,
            asset_id,
            MODE_SPENDABLE,
        );
        if spendable < amount || amount == 0 {
            return Err(Error::InsufficientAssets { needed: amount, available: spendable });
        }
        let ws: u64 = match witness_sat {
            Some(w) => w,
            None => 0,
        };
        let n_out: usize = match witness_sat {
            Some(_) => 2,
            None => 1,
        };
        // First pass: the outputs that carry this asset and are spendable.
        let ghost us0 = self.unspents@;
        let ghost allocs0 = self.allocations@;
        let ghost pc = p_send_colored(allocs0, asset_id);
        let ghost pv = p_drain_sel(allocs0, false);
        let mut colored_sat: u128 = 0;
        let mut n_colored: usize = 0;
        let mut vanilla_sat: u128 = 0;
        let mut n_vanilla: usize = 0;
        let mut i: usize = 0;
        proof {
            assert(us0.take(0) =~= Seq::<Unspent>::empty());
        }
        while i < self.unspents.len()
            invariant
                0 <= i <= self.unspents@.len(),
                self.unspents@ == us0,
                self.allocations@ == allocs0,
                colored_sat == sum_sat_if(us0.take(i as int), pc),
                vanilla_sat == sum_sat_if(us0.take(i as int), pv),
                n_colored == unspent_retained(us0.take(i as int), pc).len(),
                n_vanilla == unspent_retained(us0.take(i as int), pv).len(),
                colored_sat <= (i as int) * (u64::MAX as int),
                vanilla_sat <= (i as int) * (u64::MAX as int),
                n_colored <= i,
                n_vanilla <= i,
                n_colored + n_vanilla <= i,
            decreases self.unspents@.len() - i,
        {
            let u = self.unspents[i];
            let spendable_now = u.pending_spend.is_none() && (u.confirmed || u.internal);
            let hosts = self.hosts_asset(u.outpoint, asset_id);
            let is_c = spendable_now && hosts;
            let is_v = spendable_now && !hosts && !u.colorable && !has_allocation(
                &self.allocations,
                u.outpoint,
            );
            proof {
                assert(is_c == pc(us0[i as int]));
                assert(is_v == pv(us0[i as int]));
                assert(us0.take(i as int + 1).drop_last() =~= us0.take(i as int));
                assert(us0.take(i as int + 1).last() == us0[i as int]);
                assert((i as int + 1) * (u64::MAX as int) == (i as int) * (u64::MAX as int) + (
                u64::MAX as int));
            }
            if is_c {
                colored_sat = colored_sat + u.sat as u128;
                n_colored = n_colored + 1;
            } else if is_v {
                vanilla_sat = vanilla_sat + u.sat as u128;
                n_vanilla = n_vanilla + 1;
            }
            i += 1;
        }
        proof {
            assert(us0.take(us0.len() as int) =~= us0);
        }
        // Decide whether uncolored inputs must join to cover fee and the
        // witness output.
        let fee1 = fee_for(n_colored, n_out, DEFAULT_FEE_RATE);
        let need1: u128 = fee1 as u128 + ws as u128;
        let use_vanilla = colored_sat < need1;
        let (n_in, sats_in, fee) = if use_vanilla {
            let f = fee_for(n_colored + n_vanilla, n_out, DEFAULT_FEE_RATE);
            (n_colored + n_vanilla, colored_sat + vanilla_sat, f)
        } else {
            (n_colored, colored_sat, fee1)
        };
        let need: u128 = fee as u128 + ws as u128;
        if sats_in < need {
            let needed = if need > u64::MAX as u128 {
                u64::MAX
            } else {
                need as u64
            };
            let avail = if sats_in > u64::MAX as u128 {
                u64::MAX
            } else {
                sats_in as u64
            };
            return Err(Error::InsufficientBitcoins { needed, available: avail });
        }
        self.touch();
        let txid = self.next_txid;
        self.next_txid = if txid == u64::MAX {
            txid
        } else {
            txid + 1
        };
        let tid = self.next_transfer_id;
        self.next_transfer_id = if tid == u64::MAX {
            tid
        } else {
            tid + 1
        };
        // Mark the consumed outputs as committed to this transfer.
        proof {
            assert(use_vanilla == (sum_sat_if(us0, pc) < spec_fee(
                unspent_retained(us0, pc).len() as int,
                n_out as int,
                DEFAULT_FEE_RATE as int,
            ) + ws as int));
        }
        let ghost marked = send_marked(us0, allocs0, asset_id, use_vanilla, tid);
        let mut us2: Vec<Unspent> = Vec::new();
        let mut j: usize = 0;
        while j < self.unspents.len()
            invariant
                0 <= j <= us0.len(),
                self.unspents@ == us0,
                self.allocations@ == allocs0,
                us2@.len() == j,
                marked == send_marked(us0, allocs0, asset_id, use_vanilla, tid),
                forall|k: int| 0 <= k < j ==> #[trigger] us2@[k] == marked[k],
            decreases us0.len() - j,
        {
            let mut u = self.unspents[j];
            let selected = u.pending_spend.is_none() && (u.confirmed || u.internal) && (
            self.hosts_asset(u.outpoint, asset_id) || (use_vanilla && !u.colorable
                && !has_allocation(&self.allocations, u.outpoint)));
            proof {
                assert(selected == (pc(us0[j as int]) || (use_vanilla && pv(us0[j as int]))));
            }
            if selected {
                u.pending_spend = Some(tid);
            }
            us2.push(u);
            j += 1;
        }
        proof {
            assert(us2@ =~= marked);
        }
        self.unspents = us2;
        let change_sat128: u128 = sats_in - need;
        let change_sat: u64 = if change_sat128 > u64::MAX as u128 {
            u64::MAX
        } else {
            change_sat128 as u64
        };
        let change_amount = spendable - amount;
        let supply: u64;
        let precision: u8;
        match self.find_asset(asset_id) {
            Some(k) => {
                supply = self.assets[k].issued_supply;
                precision = self.assets[k].precision;
            },
            None => {
                supply = 0;
                precision = 0;
            },
        }
        let t = Transfer {
            id: tid,
            asset_id: Some(asset_id),
            amount,
            incoming: false,
            kind: match witness_sat {
                Some(_) => ReceiveKind::Witness,
                None => ReceiveKind::Blinded,
            },
            recipient_id,
            txid: Some(txid),
            status: TransferStatus::WaitingCounterparty,
            blinded_outpoint: None,
            witness_vout: None,
            witness_sat: ws,
            change_outpoint: Some(Outpoint { txid, vout: 0 }),
            change_amount,
            change_sat,
        };
        self.transfers.push(t);
        proof {
            assert(final(self).transfers@.subrange(0, old(self).transfers@.len() as int) =~= old(
                self,
            ).transfers@);
        }
        Ok(SendResult {
            txid,
            consignment: Consignment {
                recipient_id,
                asset_id,
                amount,
                txid,
                asset_supply: supply,
                asset_precision: precision,
                witness_vout: 1,
                witness_sat: ws,
            },
        })
    }

    /// Whether the output hosts an allocation of the given asset.
    #[verifier::loop_isolation(false)]
    fn hosts_asset(&self, op: Outpoint, asset_id: u64) -> (r: bool)
        ensures
            r == hosts_asset_spec(self.allocations@, op, asset_id),
    {
        let mut i: usize = 0;
        while i < self.allocations.len()
            invariant
                0 <= i <= self.allocations@.len(),
                forall|j: int|
                    0 <= j < i ==> !((#[trigger] self.allocations@[j]).outpoint == op
                        && self.allocations@[j].asset_id == asset_id),
            decreases self.allocations@.len() - i,
        {
            let al = &self.allocations[i];
            if al.outpoint == op && al.asset_id == asset_id {
                return true;
            }
            i += 1;
        }
        false
    }

    /// The balance of one asset.
    pub fn get_balance(&self, asset_id: u64) -> (r: Result<Balance, Error>)
        ensures
            Self::spec_asset_of(self.assets@, asset_id) is Some ==> (r matches Ok(b) && b
                == spec_asset_balance(self.unspents@, self.allocations@, self.transfers@, asset_id)),
            Self::spec_asset_of(self.assets@, asset_id) is None ==> (r matches Err(
                Error::AssetNotFound { asset_id: a },
            ) && a == asset_id),
    {
        if self.find_asset(asset_id).is_none() {
            return Err(Error::AssetNotFound { asset_id });
        }
        Ok(compute_asset_balance(&self.unspents, &self.allocations, &self.transfers, asset_id))
    }
}

} // verus!
