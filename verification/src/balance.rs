//! Balance engine: settled / future / spendable sums for the bitcoin value
//! and for each asset, derived on demand from unspents, allocation rows and
//! open transfers.
use vstd::prelude::*;

use crate::model::{
    Allocation, Balance, Outpoint, ReceiveKind, Transfer, TransferStatus, Unspent, sum_alloc_if,
    sum_sat_if, sum_transfer_if,
};

verus! {

/// Mode selector of a per-output sum: settled, spendable, or the base of
/// the future balance.
pub const MODE_SETTLED: u8 = 0;

/// See `MODE_SETTLED`.
pub const MODE_SPENDABLE: u8 = 1;

/// See `MODE_SETTLED`.
pub const MODE_FUTURE: u8 = 2;

/// Whether an output counts under the given mode: settled value must be
/// confirmed and uncommitted; spendable value may instead be unconfirmed
/// change of a wallet-originated transaction; the future base only asks
/// that the output is not committed to a pending transaction.
pub open spec fn counts_in_mode(u: Unspent, mode: u8) -> bool {
    &&& u.pending_spend is None
    &&& if mode == MODE_SETTLED {
        u.confirmed
    } else if mode == MODE_SPENDABLE {
        u.confirmed || u.internal
    } else {
        true
    }
}

/// Whether some allocation row binds an asset to this output.
pub open spec fn is_colored(allocs: Seq<Allocation>, op: Outpoint) -> bool {
    exists|j: int| 0 <= j < allocs.len() && allocs[j].outpoint == op
}

/// Predicate over outputs used by the bitcoin sums: counted when the mode
/// admits the output and its coloring matches `colored`.
pub open spec fn p_btc(colored: bool, mode: u8) -> spec_fn(Unspent) -> bool {
    |u: Unspent| counts_in_mode(u, mode) && u.colorable == colored
}

/// First stored unspent at the given outpoint.
pub open spec fn utxo_of(us: Seq<Unspent>, op: Outpoint) -> Option<Unspent>
    decreases us.len(),
{
    if us.len() == 0 {
        None
    } else if us[0].outpoint == op {
        Some(us[0])
    } else {
        utxo_of(us.drop_first(), op)
    }
}

/// Whether the output hosting an allocation row counts under the mode.
/// The future base counts every recorded allocation.
pub open spec fn alloc_counts(us: Seq<Unspent>, op: Outpoint, mode: u8) -> bool {
    if mode == MODE_FUTURE {
        true
    } else {
        match utxo_of(us, op) {
            Some(u) => counts_in_mode(u, mode),
            None => false,
        }
    }
}

/// Predicate over allocation rows used by the asset sums.
pub open spec fn p_asset(us: Seq<Unspent>, asset_id: u64, mode: u8) -> spec_fn(Allocation) -> bool {
    |al: Allocation| al.asset_id == asset_id && alloc_counts(us, al.outpoint, mode)
}

/// Predicate that admits every allocation row of the asset.
pub open spec fn p_asset_all(asset_id: u64) -> spec_fn(Allocation) -> bool {
    |al: Allocation| al.asset_id == asset_id
}

/// Incoming transfers of the asset that the counterparty has acknowledged
/// but that have not yet settled.
pub open spec fn p_incoming_pending(asset_id: u64) -> spec_fn(Transfer) -> bool {
    |t: Transfer| t.incoming && t.status == TransferStatus::WaitingConfirmations
        && t.asset_id == Some(asset_id)
}

/// Outgoing transfers of the asset that have left negotiation but have not
/// yet settled.
pub open spec fn p_outgoing_pending(asset_id: u64) -> spec_fn(Transfer) -> bool {
    |t: Transfer| !t.incoming && t.status == TransferStatus::WaitingConfirmations
        && t.asset_id == Some(asset_id)
}

/// Whether any allocation row binds to this outpoint; executable twin of
/// `is_colored`.
#[verifier::loop_isolation(false)]
pub fn has_allocation(allocs: &Vec<Allocation>, op: Outpoint) -> (r: bool)
    ensures
        r == is_colored(allocs@, op),
{
    let mut i: usize = 0;
    while i < allocs.len()
        invariant
            0 <= i <= allocs@.len(),
            forall|j: int| 0 <= j < i ==> allocs@[j].outpoint != op,
        decreases allocs@.len() - i,
    {
        if allocs[i].outpoint == op {
            return true;
        }
        i += 1;
    }
    false
}

/// Looks up the stored unspent at an outpoint; executable twin of `utxo_of`.
#[verifier::loop_isolation(false)]
pub fn find_unspent(us: &Vec<Unspent>, op: Outpoint) -> (r: Option<usize>)
    ensures
        match r {
            Some(i) => i < us@.len() && us@[i as int].outpoint == op && utxo_of(us@, op) == Some(
                us@[i as int],
            ),
            None => utxo_of(us@, op) is None,
        },
{
    let mut i: usize = 0;
    proof {
        assert(us@.skip(0) =~= us@);
    }
    while i < us.len()
        invariant
            0 <= i <= us@.len(),
            forall|j: int| 0 <= j < i ==> us@[j].outpoint != op,
            utxo_of(us@.skip(i as int), op) == utxo_of(us@, op),
        decreases us@.len() - i,
    {
        if us[i].outpoint == op {
            assert(us@.skip(i as int)[0] == us@[i as int]);
            return Some(i);
        }
        proof {
            assert(us@.skip(i as int).drop_first() =~= us@.skip(i as int + 1));
        }
        i += 1;
    }
    None
}

/// Whether the output hosting an allocation row counts under the mode;
/// executable twin of `alloc_counts`.
#[verifier::loop_isolation(false)]
pub fn alloc_counts_exec(us: &Vec<Unspent>, op: Outpoint, mode: u8) -> (r: bool)
    requires
        mode == MODE_SETTLED || mode == MODE_SPENDABLE || mode == MODE_FUTURE,
    ensures
        r == alloc_counts(us@, op, mode),
{
    if mode == MODE_FUTURE {
        return true;
    }
    match find_unspent(us, op) {
        Some(k) => {
            let u = &us[k];
            if mode == MODE_SETTLED {
                u.pending_spend.is_none() && u.confirmed
            } else {
                u.pending_spend.is_none() && (u.confirmed || u.internal)
            }
        },
        None => false,
    }
}

/// Clamp of a non-negative mathematical value into a 64-bit count.
pub open spec fn clamp64(x: int) -> int {
    if x > u64::MAX {
        u64::MAX as int
    } else {
        x
    }
}

/// Sums the satoshi value of the outputs admitted by mode and coloring,
/// clamped at the largest representable count.
#[verifier::loop_isolation(false)]
pub fn btc_sum(us: &Vec<Unspent>, colored: bool, mode: u8) -> (r: u64)
    requires
        mode == MODE_SETTLED || mode == MODE_SPENDABLE || mode == MODE_FUTURE,
    ensures
        r == clamp64(sum_sat_if(us@, p_btc(colored, mode))),
{
    let ghost f = p_btc(colored, mode);
    let mut acc: u128 = 0;
    let mut i: usize = 0;
    while i < us.len()
        invariant
            0 <= i <= us@.len(),
            acc == sum_sat_if(us@.take(i as int), f),
            acc <= (i as int) * (u64::MAX as int),
        decreases us@.len() - i,
    {
        let u = &us[i];
        let counted = if mode == MODE_SETTLED {
            u.pending_spend.is_none() && u.confirmed
        } else if mode == MODE_SPENDABLE {
            u.pending_spend.is_none() && (u.confirmed || u.internal)
        } else {
            u.pending_spend.is_none()
        };
        let col = u.colorable;
        proof {
            assert(us@.take(i as int + 1).drop_last() =~= us@.take(i as int));
            assert(us@.take(i as int + 1).last() == us@[i as int]);
            assert((i as int + 1) * (u64::MAX as int) == (i as int) * (u64::MAX as int) + (
            u64::MAX as int));
        }
        if counted && col == colored {
            acc = acc + u.sat as u128;
        }
        i += 1;
    }
    proof {
        assert(us@.take(us@.len() as int) =~= us@);
    }
    if acc > u64::MAX as u128 {
        u64::MAX
    } else {
        acc as u64
    }
}

/// Sums the allocated amount of the asset's rows admitted by the mode,
/// clamped at the largest representable count.
#[verifier::loop_isolation(false)]
pub fn asset_sum(allocs: &Vec<Allocation>, us: &Vec<Unspent>, asset_id: u64, mode: u8) -> (r: u64)
    requires
        mode == MODE_SETTLED || mode == MODE_SPENDABLE || mode == MODE_FUTURE,
    ensures
        r == clamp64(sum_alloc_if(allocs@, p_asset(us@, asset_id, mode))),
{
    let ghost f = p_asset(us@, asset_id, mode);
    let mut acc: u128 = 0;
    let mut i: usize = 0;
    while i < allocs.len()
        invariant
            0 <= i <= allocs@.len(),
            acc == sum_alloc_if(allocs@.take(i as int), f),
            acc <= (i as int) * (u64::MAX as int),
        decreases allocs@.len() - i,
    {
        let al = &allocs[i];
        let counted = al.asset_id == asset_id && alloc_counts_exec(us, al.outpoint, mode);
        proof {
            assert(counted == f(allocs@[i as int]));
            assert(allocs@.take(i as int + 1).drop_last() =~= allocs@.take(i as int));
            assert(allocs@.take(i as int + 1).last() == allocs@[i as int]);
            assert((i as int + 1) * (u64::MAX as int) == (i as int) * (u64::MAX as int) + (
            u64::MAX as int));
        }
        if counted {
            acc = acc + al.amount as u128;
        }
        i += 1;
    }
    proof {
        assert(allocs@.take(allocs@.len() as int) =~= allocs@);
    }
    if acc > u64::MAX as u128 {
        u64::MAX
    } else {
        acc as u64
    }
}

/// Sums the amounts of the pending transfers of the asset in the given
/// direction, clamped at the largest representable count.
#[verifier::loop_isolation(false)]
pub fn transfer_sum(ts: &Vec<Transfer>, incoming: bool, asset_id: u64) -> (r: u64)
    ensures
        r == clamp64(
            sum_transfer_if(
                ts@,
                if incoming {
                    p_incoming_pending(asset_id)
                } else {
                    p_outgoing_pending(asset_id)
                },
            ),
        ),
{
    let ghost f = if incoming {
        p_incoming_pending(asset_id)
    } else {
        p_outgoing_pending(asset_id)
    };
    let mut acc: u128 = 0;
    let mut i: usize = 0;
    while i < ts.len()
        invariant
            0 <= i <= ts@.len(),
            acc == sum_transfer_if(ts@.take(i as int), f),
            acc <= (i as int) * (u64::MAX as int),
        decreases ts@.len() - i,
    {
        let t = &ts[i];
        let counted = t.incoming == incoming && matches!(
            t.status,
            TransferStatus::WaitingConfirmations,
        ) && t.asset_id == Some(asset_id);
        proof {
            assert(counted == f(ts@[i as int]));
            assert(ts@.take(i as int + 1).drop_last() =~= ts@.take(i as int));
            assert(ts@.take(i as int + 1).last() == ts@[i as int]);
            assert((i as int + 1) * (u64::MAX as int) == (i as int) * (u64::MAX as int) + (
            u64::MAX as int));
        }
        if counted {
            acc = acc + t.amount as u128;
        }
        i += 1;
    }
    proof {
        assert(ts@.take(ts@.len() as int) =~= ts@);
    }
    if acc > u64::MAX as u128 {
        u64::MAX
    } else {
        acc as u64
    }
}

/// The settled asset balance: allocations on confirmed, uncommitted outputs.
pub open spec fn spec_asset_settled(us: Seq<Unspent>, allocs: Seq<Allocation>, asset_id: u64) -> int {
    clamp64(sum_alloc_if(allocs, p_asset(us, asset_id, MODE_SETTLED)))
}

/// The spendable asset balance: allocations on uncommitted outputs that are
/// confirmed or wallet-originated.
pub open spec fn spec_asset_spendable(us: Seq<Unspent>, allocs: Seq<Allocation>, asset_id: u64) -> int {
    clamp64(sum_alloc_if(allocs, p_asset(us, asset_id, MODE_SPENDABLE)))
}

/// The future asset balance: every recorded allocation, plus acknowledged
/// incoming amounts, minus pending outgoing amounts, clamped at zero and at
/// the largest representable count.
pub open spec fn spec_asset_future(
    us: Seq<Unspent>,
    allocs: Seq<Allocation>,
    ts: Seq<Transfer>,
    asset_id: u64,
) -> int {
    let raw = clamp64(sum_alloc_if(allocs, p_asset(us, asset_id, MODE_FUTURE))) + clamp64(
        sum_transfer_if(ts, p_incoming_pending(asset_id)),
    ) - clamp64(sum_transfer_if(ts, p_outgoing_pending(asset_id)));
    if raw < 0 {
        0
    } else if raw > u64::MAX {
        u64::MAX as int
    } else {
        raw
    }
}

/// Incoming witness transfers that have been acknowledged but not settled:
/// their satoshi value will arrive as a new output once confirmed.
pub open spec fn p_witness_pending() -> spec_fn(Transfer) -> bool {
    |t: Transfer| t.incoming && t.status == TransferStatus::WaitingConfirmations
        && t.kind == ReceiveKind::Witness
}

/// Sum of satoshi values promised by pending witness receives.
pub open spec fn sum_wit_sat(s: Seq<Transfer>) -> int
    decreases s.len(),
{
    if s.len() == 0 {
        0
    } else {
        sum_wit_sat(s.drop_last()) + if p_witness_pending()(s.last()) {
            s.last().witness_sat as int
        } else {
            0int
        }
    }
}

/// Sums the satoshi value promised by pending witness receives, clamped.
#[verifier::loop_isolation(false)]
pub fn witness_pending_sum(ts: &Vec<Transfer>) -> (r: u64)
    ensures
        r == clamp64(sum_wit_sat(ts@)),
{
    let mut acc: u128 = 0;
    let mut i: usize = 0;
    while i < ts.len()
        invariant
            0 <= i <= ts@.len(),
            acc == sum_wit_sat(ts@.take(i as int)),
            acc <= (i as int) * (u64::MAX as int),
        decreases ts@.len() - i,
    {
        let t = &ts[i];
        let counted = t.incoming && matches!(t.status, TransferStatus::WaitingConfirmations)
            && matches!(t.kind, ReceiveKind::Witness);
        proof {
            assert(counted == p_witness_pending()(ts@[i as int]));
            assert(ts@.take(i as int + 1).drop_last() =~= ts@.take(i as int));
            assert(ts@.take(i as int + 1).last() == ts@[i as int]);
            assert((i as int + 1) * (u64::MAX as int) == (i as int) * (u64::MAX as int) + (
            u64::MAX as int));
        }
        if counted {
            acc = acc + t.witness_sat as u128;
        }
        i += 1;
    }
    proof {
        assert(ts@.take(ts@.len() as int) =~= ts@);
    }
    if acc > u64::MAX as u128 {
        u64::MAX
    } else {
        acc as u64
    }
}

/// The bitcoin balance of the colored or uncolored side: settled and
/// spendable follow the modes; future adds the value promised by pending
/// witness receives to the colored side.
pub open spec fn spec_btc_balance(
    us: Seq<Unspent>,
    ts: Seq<Transfer>,
    colored: bool,
) -> Balance {
    Balance {
        settled: clamp64(sum_sat_if(us, p_btc(colored, MODE_SETTLED))) as u64,
        future: clamp64(
            clamp64(sum_sat_if(us, p_btc(colored, MODE_FUTURE))) + if colored {
                clamp64(sum_wit_sat(ts))
            } else {
                0int
            },
        ) as u64,
        spendable: clamp64(sum_sat_if(us, p_btc(colored, MODE_SPENDABLE))) as u64,
    }
}

/// The balance of one asset.
pub open spec fn spec_asset_balance(
    us: Seq<Unspent>,
    allocs: Seq<Allocation>,
    ts: Seq<Transfer>,
    asset_id: u64,
) -> Balance {
    Balance {
        settled: spec_asset_settled(us, allocs, asset_id) as u64,
        future: spec_asset_future(us, allocs, ts, asset_id) as u64,
        spendable: spec_asset_spendable(us, allocs, asset_id) as u64,
    }
}

/// Computes the bitcoin balance of one side of the coloring split.
pub fn compute_btc_side(us: &Vec<Unspent>, ts: &Vec<Transfer>, colored: bool) -> (r: Balance)
    ensures
        r == spec_btc_balance(us@, ts@, colored),
{
    let settled = btc_sum(us, colored, MODE_SETTLED);
    let spendable = btc_sum(us, colored, MODE_SPENDABLE);
    let base = btc_sum(us, colored, MODE_FUTURE);
    let wit = if colored {
        witness_pending_sum(ts)
    } else {
        0
    };
    let fut128: u128 = base as u128 + wit as u128;
    let future = if fut128 > u64::MAX as u128 {
        u64::MAX
    } else {
        fut128 as u64
    };
    Balance { settled, future, spendable }
}

/// Computes the balance of one asset.
pub fn compute_asset_balance(
    us: &Vec<Unspent>,
    allocs: &Vec<Allocation>,
    ts: &Vec<Transfer>,
    asset_id: u64,
) -> (r: Balance)
    ensures
        r == spec_asset_balance(us@, allocs@, ts@, asset_id),
{
    let settled = asset_sum(allocs, us, asset_id, MODE_SETTLED);
    let spendable = asset_sum(allocs, us, asset_id, MODE_SPENDABLE);
    let base = asset_sum(allocs, us, asset_id, MODE_FUTURE);
    let inc = transfer_sum(ts, true, asset_id);
    let out = transfer_sum(ts, false, asset_id);
    let raw: u128 = base as u128 + inc as u128;
    let future = if raw < out as u128 {
        0u64
    } else {
        let d: u128 = raw - out as u128;
        if d > u64::MAX as u128 {
            u64::MAX
        } else {
            d as u64
        }
    };
    Balance { settled, future, spendable }
}

} // verus!
