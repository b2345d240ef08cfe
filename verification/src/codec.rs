//! Serialization of the wallet state into a flat word stream. Decoding the
//! exact encoding of a well-formed wallet is proved to yield that wallet's
//! content back (`decode_wallet` with `wallet_like`); that distinct wallet
//! states never share an encoding is not proved here.
//!
//! Every record is fixed-width, so positions are pure index arithmetic:
//! texts are length-prefixed and padded to `BYTES_W` words.
use vstd::prelude::*;

use crate::model::{
    Allocation, Asset, AssetSchema, Outpoint, ReceiveKind, Transfer, TransferStatus, Unspent,
};
use crate::wallet::Wallet;

verus! {

/// Width, in words, of the padded byte area of a text field.
pub const BYTES_W: usize = 64;

/// Words of one optional number: a presence flag, then the value.
pub open spec fn opt_word(o: Option<u64>) -> Seq<u64> {
    match o {
        Some(x) => seq![1u64, x],
        None => seq![0u64, 0u64],
    }
}

/// Words of one optional output reference.
pub open spec fn opt_outpoint_words(o: Option<Outpoint>) -> Seq<u64> {
    match o {
        Some(op) => seq![1u64, op.txid, op.vout as u64],
        None => seq![0u64, 0u64, 0u64],
    }
}

/// Words of one text: its length, then `BYTES_W` words holding one byte
/// each, zero-padded.
pub open spec fn bytes_words(b: Seq<u8>) -> Seq<u64> {
    seq![b.len() as u64] + Seq::new(
        BYTES_W as nat,
        |i: int|
            if i < b.len() {
                b[i] as u64
            } else {
                0u64
            },
    )
}

/// Words of one optional text.
pub open spec fn opt_bytes_words(o: Option<Seq<u8>>) -> Seq<u64> {
    match o {
        Some(b) => seq![1u64] + bytes_words(b),
        None => seq![0u64] + bytes_words(Seq::empty()),
    }
}

/// Numeric code of an issuance schema.
pub open spec fn schema_code(s: AssetSchema) -> u64 {
    match s {
        AssetSchema::Nia => 0,
        AssetSchema::Uda => 1,
        AssetSchema::Cfa => 2,
    }
}

/// Numeric code of a lifecycle state.
pub open spec fn status_code(s: TransferStatus) -> u64 {
    match s {
        TransferStatus::WaitingCounterparty => 0,
        TransferStatus::WaitingConfirmations => 1,
        TransferStatus::Settled => 2,
        TransferStatus::Failed => 3,
    }
}

/// Numeric code of a receive method.
pub open spec fn kind_code(k: ReceiveKind) -> u64 {
    match k {
        ReceiveKind::Blinded => 0,
        ReceiveKind::Witness => 1,
    }
}

/// Width of one asset record, in words.
pub const ASSET_W: usize = 206;

/// Words of one asset record.
pub open spec fn asset_words(a: Asset) -> Seq<u64> {
    seq![
        a.idx,
        match a.media_idx {
            Some(m) => 1u64,
            None => 0u64,
        },
        match a.media_idx {
            Some(m) => m,
            None => 0u64,
        },
        a.id,
        schema_code(a.schema),
        a.added_at,
        a.issued_supply,
        a.precision as u64,
        a.timestamp,
    ] + bytes_words(a.name@) + opt_bytes_words(
        match a.ticker {
            Some(t) => Some(t@),
            None => None,
        },
    ) + opt_bytes_words(
        match a.details {
            Some(d) => Some(d@),
            None => None,
        },
    )
}

/// Width of one unspent record, in words.
pub const UNSPENT_W: usize = 8;

/// Words of one unspent record.
pub open spec fn unspent_words(u: Unspent) -> Seq<u64> {
    seq![
        u.outpoint.txid,
        u.outpoint.vout as u64,
        u.sat,
        if u.confirmed {
            1u64
        } else {
            0u64
        },
        if u.internal {
            1u64
        } else {
            0u64
        },
        if u.colorable {
            1u64
        } else {
            0u64
        },
    ] + opt_word(u.pending_spend)
}

/// Width of one allocation record, in words.
pub const ALLOC_W: usize = 4;

/// Words of one allocation record.
pub open spec fn alloc_words(al: Allocation) -> Seq<u64> {
    seq![al.outpoint.txid, al.outpoint.vout as u64, al.asset_id, al.amount]
}

/// Width of one transfer record, in words.
pub const TRANSFER_W: usize = 21;

/// Words of one transfer record.
pub open spec fn transfer_words(t: Transfer) -> Seq<u64> {
    seq![
        t.id,
        t.amount,
        if t.incoming {
            1u64
        } else {
            0u64
        },
        kind_code(t.kind),
        t.recipient_id,
        status_code(t.status),
        t.witness_sat,
        t.change_amount,
        t.change_sat,
    ] + opt_word(t.asset_id) + opt_word(t.txid) + opt_outpoint_words(t.blinded_outpoint) + opt_word(
        match t.witness_vout {
            Some(v) => Some(v as u64),
            None => None,
        },
    ) + opt_outpoint_words(t.change_outpoint)
}

/// Words of the wallet's scalar header.
pub open spec fn header_words(w: Wallet) -> Seq<u64> {
    seq![
        w.wallet_id,
        if w.has_private_keys {
            1u64
        } else {
            0u64
        },
        w.clock,
        w.last_operation,
        w.last_backup,
        w.next_asset_id,
        w.next_transfer_id,
        w.next_recipient_id,
        w.next_txid,
    ]
}

/// Words of the whole wallet: header, then each table with its row count.
pub open spec fn wallet_words(w: Wallet) -> Seq<u64> {
    header_words(w) + seq![w.assets@.len() as u64] + flat_assets(w.assets@) + seq![
        w.unspents@.len() as u64,
    ] + flat_unspents(w.unspents@) + seq![w.allocations@.len() as u64] + flat_allocs(w.allocations@)
        + seq![w.transfers@.len() as u64] + flat_transfers(w.transfers@)
}

/// Concatenated asset records.
pub open spec fn flat_assets(s: Seq<Asset>) -> Seq<u64>
    decreases s.len(),
{
    if s.len() == 0 {
        Seq::empty()
    } else {
        flat_assets(s.drop_last()) + asset_words(s.last())
    }
}

/// Concatenated unspent records.
pub open spec fn flat_unspents(s: Seq<Unspent>) -> Seq<u64>
    decreases s.len(),
{
    if s.len() == 0 {
        Seq::empty()
    } else {
        flat_unspents(s.drop_last()) + unspent_words(s.last())
    }
}

/// Concatenated allocation records.
pub open spec fn flat_allocs(s: Seq<Allocation>) -> Seq<u64>
    decreases s.len(),
{
    if s.len() == 0 {
        Seq::empty()
    } else {
        flat_allocs(s.drop_last()) + alloc_words(s.last())
    }
}

/// Concatenated transfer records.
pub open spec fn flat_transfers(s: Seq<Transfer>) -> Seq<u64>
    decreases s.len(),
{
    if s.len() == 0 {
        Seq::empty()
    } else {
        flat_transfers(s.drop_last()) + transfer_words(s.last())
    }
}

/// Texts fit the fixed widths the codec writes: this is what `Wallet::wf`
/// guarantees, restated for the codec.
pub open spec fn codec_fits(w: Wallet) -> bool {
    forall|i: int|
        0 <= i < w.assets@.len() ==> {
            let a = #[trigger] w.assets@[i];
            &&& a.name@.len() <= BYTES_W
            &&& (a.ticker matches Some(t) ==> t@.len() <= BYTES_W)
            &&& (a.details matches Some(d) ==> d@.len() <= BYTES_W)
        }
}

/// Each record encoder produces its fixed width.
pub proof fn lemma_asset_words_len(a: Asset)
    ensures
        asset_words(a).len() == ASSET_W,
{
}

/// Length of a concatenated table of fixed-width records.
pub proof fn lemma_flat_assets_len(s: Seq<Asset>)
    ensures
        flat_assets(s).len() == s.len() * ASSET_W,
    decreases s.len(),
{
    if s.len() > 0 {
        lemma_flat_assets_len(s.drop_last());
        assert((s.len() - 1) * ASSET_W + ASSET_W == s.len() * ASSET_W) by (nonlinear_arith);
    }
}

/// See `lemma_flat_assets_len`.
pub proof fn lemma_flat_unspents_len(s: Seq<Unspent>)
    ensures
        flat_unspents(s).len() == s.len() * UNSPENT_W,
    decreases s.len(),
{
    if s.len() > 0 {
        lemma_flat_unspents_len(s.drop_last());
        assert((s.len() - 1) * UNSPENT_W + UNSPENT_W == s.len() * UNSPENT_W) by (nonlinear_arith);
    }
}

/// See `lemma_flat_assets_len`.
pub proof fn lemma_flat_allocs_len(s: Seq<Allocation>)
    ensures
        flat_allocs(s).len() == s.len() * ALLOC_W,
    decreases s.len(),
{
    if s.len() > 0 {
        lemma_flat_allocs_len(s.drop_last());
        assert((s.len() - 1) * ALLOC_W + ALLOC_W == s.len() * ALLOC_W) by (nonlinear_arith);
    }
}

/// See `lemma_flat_assets_len`.
pub proof fn lemma_flat_transfers_len(s: Seq<Transfer>)
    ensures
        flat_transfers(s).len() == s.len() * TRANSFER_W,
    decreases s.len(),
{
    if s.len() > 0 {
        lemma_flat_transfers_len(s.drop_last());
        assert((s.len() - 1) * TRANSFER_W + TRANSFER_W == s.len() * TRANSFER_W)
            by (nonlinear_arith);
    }
}

/// One record's segment within a concatenated table.
pub proof fn lemma_flat_assets_seg(s: Seq<Asset>, i: int)
    requires
        0 <= i < s.len(),
    ensures
        flat_assets(s).subrange(i * ASSET_W, (i + 1) * ASSET_W) == asset_words(s[i]),
    decreases s.len(),
{
    lemma_flat_assets_len(s);
    lemma_flat_assets_len(s.drop_last());
    assert(0 <= i * ASSET_W && (i + 1) * ASSET_W <= s.len() * ASSET_W) by (nonlinear_arith)
        requires
            0 <= i < s.len(),
    ;
    if i == s.len() - 1 {
        assert(flat_assets(s).subrange(i * ASSET_W, (i + 1) * ASSET_W) =~= asset_words(s[i]))
            by (nonlinear_arith)
            requires
                flat_assets(s) == flat_assets(s.drop_last()) + asset_words(s.last()),
                flat_assets(s.drop_last()).len() == i * ASSET_W,
                asset_words(s.last()).len() == ASSET_W,
                s.last() == s[i],
                flat_assets(s).len() == (i + 1) * ASSET_W,
        ;
    } else {
        lemma_flat_assets_seg(s.drop_last(), i);
        assert((i + 1) * ASSET_W <= (s.len() - 1) * ASSET_W) by (nonlinear_arith)
            requires
                0 <= i < s.len() - 1,
        ;
        assert(flat_assets(s).subrange(i * ASSET_W, (i + 1) * ASSET_W) =~= flat_assets(
            s.drop_last(),
        ).subrange(i * ASSET_W, (i + 1) * ASSET_W));
        assert(s.drop_last()[i] == s[i]);
    }
}

/// See `lemma_flat_assets_seg`.
pub proof fn lemma_flat_unspents_seg(s: Seq<Unspent>, i: int)
    requires
        0 <= i < s.len(),
    ensures
        flat_unspents(s).subrange(i * UNSPENT_W, (i + 1) * UNSPENT_W) == unspent_words(s[i]),
    decreases s.len(),
{
    lemma_flat_unspents_len(s);
    lemma_flat_unspents_len(s.drop_last());
    assert(0 <= i * UNSPENT_W && (i + 1) * UNSPENT_W <= s.len() * UNSPENT_W) by (nonlinear_arith)
        requires
            0 <= i < s.len(),
    ;
    if i == s.len() - 1 {
        assert(flat_unspents(s).subrange(i * UNSPENT_W, (i + 1) * UNSPENT_W) =~= unspent_words(
            s[i],
        )) by (nonlinear_arith)
            requires
                flat_unspents(s) == flat_unspents(s.drop_last()) + unspent_words(s.last()),
                flat_unspents(s.drop_last()).len() == i * UNSPENT_W,
                unspent_words(s.last()).len() == UNSPENT_W,
                s.last() == s[i],
                flat_unspents(s).len() == (i + 1) * UNSPENT_W,
        ;
    } else {
        lemma_flat_unspents_seg(s.drop_last(), i);
        assert((i + 1) * UNSPENT_W <= (s.len() - 1) * UNSPENT_W) by (nonlinear_arith)
            requires
                0 <= i < s.len() - 1,
        ;
        assert(flat_unspents(s).subrange(i * UNSPENT_W, (i + 1) * UNSPENT_W) =~= flat_unspents(
            s.drop_last(),
        ).subrange(i * UNSPENT_W, (i + 1) * UNSPENT_W));
        assert(s.drop_last()[i] == s[i]);
    }
}

/// See `lemma_flat_assets_seg`.
pub proof fn lemma_flat_allocs_seg(s: Seq<Allocation>, i: int)
    requires
        0 <= i < s.len(),
    ensures
        flat_allocs(s).subrange(i * ALLOC_W, (i + 1) * ALLOC_W) == alloc_words(s[i]),
    decreases s.len(),
{
    lemma_flat_allocs_len(s);
    lemma_flat_allocs_len(s.drop_last());
    assert(0 <= i * ALLOC_W && (i + 1) * ALLOC_W <= s.len() * ALLOC_W) by (nonlinear_arith)
        requires
            0 <= i < s.len(),
    ;
    if i == s.len() - 1 {
        assert(flat_allocs(s).subrange(i * ALLOC_W, (i + 1) * ALLOC_W) =~= alloc_words(s[i]))
            by (nonlinear_arith)
            requires
                flat_allocs(s) == flat_allocs(s.drop_last()) + alloc_words(s.last()),
                flat_allocs(s.drop_last()).len() == i * ALLOC_W,
                alloc_words(s.last()).len() == ALLOC_W,
                s.last() == s[i],
                flat_allocs(s).len() == (i + 1) * ALLOC_W,
        ;
    } else {
        lemma_flat_allocs_seg(s.drop_last(), i);
        assert((i + 1) * ALLOC_W <= (s.len() - 1) * ALLOC_W) by (nonlinear_arith)
            requires
                0 <= i < s.len() - 1,
        ;
        assert(flat_allocs(s).subrange(i * ALLOC_W, (i + 1) * ALLOC_W) =~= flat_allocs(
            s.drop_last(),
        ).subrange(i * ALLOC_W, (i + 1) * ALLOC_W));
        assert(s.drop_last()[i] == s[i]);
    }
}

/// See `lemma_flat_assets_seg`.
pub proof fn lemma_flat_transfers_seg(s: Seq<Transfer>, i: int)
    requires
        0 <= i < s.len(),
    ensures
        flat_transfers(s).subrange(i * TRANSFER_W, (i + 1) * TRANSFER_W) == transfer_words(s[i]),
    decreases s.len(),
{
    lemma_flat_transfers_len(s);
    lemma_flat_transfers_len(s.drop_last());
    assert(0 <= i * TRANSFER_W && (i + 1) * TRANSFER_W <= s.len() * TRANSFER_W)
        by (nonlinear_arith)
        requires
            0 <= i < s.len(),
    ;
    if i == s.len() - 1 {
        assert(flat_transfers(s).subrange(i * TRANSFER_W, (i + 1) * TRANSFER_W) =~= transfer_words(
            s[i],
        )) by (nonlinear_arith)
            requires
                flat_transfers(s) == flat_transfers(s.drop_last()) + transfer_words(s.last()),
                flat_transfers(s.drop_last()).len() == i * TRANSFER_W,
                transfer_words(s.last()).len() == TRANSFER_W,
                s.last() == s[i],
                flat_transfers(s).len() == (i + 1) * TRANSFER_W,
        ;
    } else {
        lemma_flat_transfers_seg(s.drop_last(), i);
        assert((i + 1) * TRANSFER_W <= (s.len() - 1) * TRANSFER_W) by (nonlinear_arith)
            requires
                0 <= i < s.len() - 1,
        ;
        assert(flat_transfers(s).subrange(i * TRANSFER_W, (i + 1) * TRANSFER_W) =~= flat_transfers(
            s.drop_last(),
        ).subrange(i * TRANSFER_W, (i + 1) * TRANSFER_W));
        assert(s.drop_last()[i] == s[i]);
    }
}

/// Appends one optional number.
fn push_opt(out: &mut Vec<u64>, o: Option<u64>)
    ensures
        final(out)@ == old(out)@ + opt_word(o),
{
    match o {
        Some(x) => {
            out.push(1);
            out.push(x);
        },
        None => {
            out.push(0);
            out.push(0);
        },
    }
    proof {
        assert(out@ =~= old(out)@ + opt_word(o));
    }
}

/// Appends one optional output reference.
fn push_opt_outpoint(out: &mut Vec<u64>, o: Option<Outpoint>)
    ensures
        final(out)@ == old(out)@ + opt_outpoint_words(o),
{
    match o {
        Some(op) => {
            out.push(1);
            out.push(op.txid);
            out.push(op.vout as u64);
        },
        None => {
            out.push(0);
            out.push(0);
            out.push(0);
        },
    }
    proof {
        assert(out@ =~= old(out)@ + opt_outpoint_words(o));
    }
}

/// Appends one text, length-prefixed and zero-padded.
#[verifier::loop_isolation(false)]
fn push_bytes(out: &mut Vec<u64>, b: &Vec<u8>)
    requires
        b@.len() <= BYTES_W,
    ensures
        final(out)@ == old(out)@ + bytes_words(b@),
{
    out.push(b.len() as u64);
    let ghost base = out@;
    let mut i: usize = 0;
    while i < BYTES_W
        invariant
            0 <= i <= BYTES_W,
            out@ == base + Seq::new(
                i as nat,
                |k: int|
                    if k < b@.len() {
                        b@[k] as u64
                    } else {
                        0u64
                    },
            ),
        decreases BYTES_W - i,
    {
        if i < b.len() {
            out.push(b[i] as u64);
        } else {
            out.push(0);
        }
        proof {
            assert(out@ =~= base + Seq::new(
                (i + 1) as nat,
                |k: int|
                    if k < b@.len() {
                        b@[k] as u64
                    } else {
                        0u64
                    },
            ));
        }
        i += 1;
    }
    proof {
        assert(out@ =~= old(out)@ + bytes_words(b@));
    }
}

/// Appends one optional text.
fn push_opt_bytes(out: &mut Vec<u64>, o: &Option<Vec<u8>>)
    requires
        o matches Some(b) ==> b@.len() <= BYTES_W,
    ensures
        final(out)@ == old(out)@ + opt_bytes_words(
            match o {
                Some(b) => Some(b@),
                None => None,
            },
        ),
{
    match o {
        Some(b) => {
            out.push(1);
            push_bytes(out, b);
        },
        None => {
            out.push(0);
            let empty: Vec<u8> = Vec::new();
            push_bytes(out, &empty);
        },
    }
    proof {
        assert(out@ =~= old(out)@ + opt_bytes_words(
            match o {
                Some(b) => Some(b@),
                None => None,
            },
        ));
    }
}

/// Appends one asset record.
fn push_asset(out: &mut Vec<u64>, a: &Asset)
    requires
        a.name@.len() <= BYTES_W,
        a.ticker matches Some(t) ==> t@.len() <= BYTES_W,
        a.details matches Some(d) ==> d@.len() <= BYTES_W,
    ensures
        final(out)@ == old(out)@ + asset_words(*a),
{
    out.push(a.idx);
    match a.media_idx {
        Some(m) => {
            out.push(1);
            out.push(m);
        },
        None => {
            out.push(0);
            out.push(0);
        },
    }
    out.push(a.id);
    out.push(
        match a.schema {
            AssetSchema::Nia => 0,
            AssetSchema::Uda => 1,
            AssetSchema::Cfa => 2,
        },
    );
    out.push(a.added_at);
    out.push(a.issued_supply);
    out.push(a.precision as u64);
    out.push(a.timestamp);
    push_bytes(out, &a.name);
    push_opt_bytes(out, &a.ticker);
    push_opt_bytes(out, &a.details);
    proof {
        assert(out@ =~= old(out)@ + asset_words(*a));
    }
}

/// Appends one unspent record.
fn push_unspent(out: &mut Vec<u64>, u: &Unspent)
    ensures
        final(out)@ == old(out)@ + unspent_words(*u),
{
    out.push(u.outpoint.txid);
    out.push(u.outpoint.vout as u64);
    out.push(u.sat);
    out.push(
        if u.confirmed {
            1
        } else {
            0
        },
    );
    out.push(
        if u.internal {
            1
        } else {
            0
        },
    );
    out.push(
        if u.colorable {
            1
        } else {
            0
        },
    );
    push_opt(out, u.pending_spend);
    proof {
        assert(out@ =~= old(out)@ + unspent_words(*u));
    }
}

/// Appends one allocation record.
fn push_alloc(out: &mut Vec<u64>, al: &Allocation)
    ensures
        final(out)@ == old(out)@ + alloc_words(*al),
{
    out.push(al.outpoint.txid);
    out.push(al.outpoint.vout as u64);
    out.push(al.asset_id);
    out.push(al.amount);
    proof {
        assert(out@ =~= old(out)@ + alloc_words(*al));
    }
}

/// Appends one transfer record.
#[verifier::rlimit(100)]
#[verifier::spinoff_prover]
fn push_transfer(out: &mut Vec<u64>, t: &Transfer)
    ensures
        final(out)@ == old(out)@ + transfer_words(*t),
{
    out.push(t.id);
    out.push(t.amount);
    out.push(
        if t.incoming {
            1
        } else {
            0
        },
    );
    out.push(
        match t.kind {
            ReceiveKind::Blinded => 0,
            ReceiveKind::Witness => 1,
        },
    );
    out.push(t.recipient_id);
    out.push(
        match t.status {
            TransferStatus::WaitingCounterparty => 0,
            TransferStatus::WaitingConfirmations => 1,
            TransferStatus::Settled => 2,
            TransferStatus::Failed => 3,
        },
    );
    out.push(t.witness_sat);
    out.push(t.change_amount);
    out.push(t.change_sat);
    push_opt(out, t.asset_id);
    push_opt(out, t.txid);
    push_opt_outpoint(out, t.blinded_outpoint);
    push_opt(
        out,
        match t.witness_vout {
            Some(v) => Some(v as u64),
            None => None,
        },
    );
    push_opt_outpoint(out, t.change_outpoint);
    proof {
        assert(out@ =~= old(out)@ + transfer_words(*t));
    }
}

/// Encodes the whole wallet as a word stream.
#[verifier::rlimit(100)]
#[verifier::spinoff_prover]
#[verifier::loop_isolation(false)]
pub fn encode_wallet(w: &Wallet) -> (r: Vec<u64>)
    requires
        codec_fits(*w),
    ensures
        r@ == wallet_words(*w),
{
    let mut out: Vec<u64> = Vec::new();
    out.push(w.wallet_id);
    out.push(
        if w.has_private_keys {
            1
        } else {
            0
        },
    );
    out.push(w.clock);
    out.push(w.last_operation);
    out.push(w.last_backup);
    out.push(w.next_asset_id);
    out.push(w.next_transfer_id);
    out.push(w.next_recipient_id);
    out.push(w.next_txid);
    proof {
        assert(out@ =~= header_words(*w));
    }
    out.push(w.assets.len() as u64);
    let ghost base_a = out@;
    let mut i: usize = 0;
    while i < w.assets.len()
        invariant
            0 <= i <= w.assets@.len(),
            out@ == base_a + flat_assets(w.assets@.take(i as int)),
        decreases w.assets@.len() - i,
    {
        push_asset(&mut out, &w.assets[i]);
        proof {
            assert(w.assets@.take(i as int + 1).drop_last() =~= w.assets@.take(i as int));
            assert(w.assets@.take(i as int + 1).last() == w.assets@[i as int]);
            assert(out@ =~= base_a + flat_assets(w.assets@.take(i as int + 1)));
        }
        i += 1;
    }
    proof {
        assert(w.assets@.take(w.assets@.len() as int) =~= w.assets@);
    }
    out.push(w.unspents.len() as u64);
    let ghost base_u = out@;
    let mut j: usize = 0;
    while j < w.unspents.len()
        invariant
            0 <= j <= w.unspents@.len(),
            out@ == base_u + flat_unspents(w.unspents@.take(j as int)),
        decreases w.unspents@.len() - j,
    {
        push_unspent(&mut out, &w.unspents[j]);
        proof {
            assert(w.unspents@.take(j as int + 1).drop_last() =~= w.unspents@.take(j as int));
            assert(w.unspents@.take(j as int + 1).last() == w.unspents@[j as int]);
            assert(out@ =~= base_u + flat_unspents(w.unspents@.take(j as int + 1)));
        }
        j += 1;
    }
    proof {
        assert(w.unspents@.take(w.unspents@.len() as int) =~= w.unspents@);
    }
    out.push(w.allocations.len() as u64);
    let ghost base_l = out@;
    let mut k: usize = 0;
    while k < w.allocations.len()
        invariant
            0 <= k <= w.allocations@.len(),
            out@ == base_l + flat_allocs(w.allocations@.take(k as int)),
        decreases w.allocations@.len() - k,
    {
        push_alloc(&mut out, &w.allocations[k]);
        proof {
            assert(w.allocations@.take(k as int + 1).drop_last() =~= w.allocations@.take(k as int));
            assert(w.allocations@.take(k as int + 1).last() == w.allocations@[k as int]);
            assert(out@ =~= base_l + flat_allocs(w.allocations@.take(k as int + 1)));
        }
        k += 1;
    }
    proof {
        assert(w.allocations@.take(w.allocations@.len() as int) =~= w.allocations@);
    }
    out.push(w.transfers.len() as u64);
    let ghost base_t = out@;
    let mut m: usize = 0;
    while m < w.transfers.len()
        invariant
            0 <= m <= w.transfers@.len(),
            out@ == base_t + flat_transfers(w.transfers@.take(m as int)),
        decreases w.transfers@.len() - m,
    {
        push_transfer(&mut out, &w.transfers[m]);
        proof {
            assert(w.transfers@.take(m as int + 1).drop_last() =~= w.transfers@.take(m as int));
            assert(w.transfers@.take(m as int + 1).last() == w.transfers@[m as int]);
            assert(out@ =~= base_t + flat_transfers(w.transfers@.take(m as int + 1)));
        }
        m += 1;
    }
    proof {
        assert(w.transfers@.take(w.transfers@.len() as int) =~= w.transfers@);
        assert(out@ =~= wallet_words(*w));
    }
    out
}

/// A wallet as restore reconstructs it: sessions are not durable, so the
/// restored instance is offline.
pub open spec fn offline(w: Wallet) -> Wallet {
    Wallet { online_id: None, ..w }
}

/// Reads one optional number.
fn dec_opt(buf: &Vec<u64>, pos: usize, Ghost(o): Ghost<Option<u64>>) -> (r: Option<(Option<u64>, usize)>)
    ensures
        (pos + 2 <= buf@.len() && buf@.subrange(pos as int, pos as int + 2) == opt_word(o)) ==> (r
            matches Some(p) && p.0 == o && p.1 == pos + 2),
{
    if buf.len() < 2 || pos > buf.len() - 2 {
        return None;
    }
    let flag = buf[pos];
    let val = buf[pos + 1];
    if flag == 1 {
        Some((Some(val), pos + 2))
    } else if flag == 0 && val == 0 {
        Some((None, pos + 2))
    } else {
        None
    }
}

/// Reads one optional output reference.
fn dec_opt_outpoint(buf: &Vec<u64>, pos: usize, Ghost(o): Ghost<Option<Outpoint>>) -> (r: Option<
    (Option<Outpoint>, usize),
>)
    ensures
        (pos + 3 <= buf@.len() && buf@.subrange(pos as int, pos as int + 3) == opt_outpoint_words(
            o,
        )) ==> (r matches Some(p) && p.0 == o && p.1 == pos + 3),
{
    if buf.len() < 3 || pos > buf.len() - 3 {
        return None;
    }
    let flag = buf[pos];
    let txid = buf[pos + 1];
    let vout = buf[pos + 2];
    if flag == 1 {
        if vout > u32::MAX as u64 {
            return None;
        }
        Some((Some(Outpoint { txid, vout: vout as u32 }), pos + 3))
    } else if flag == 0 && txid == 0 && vout == 0 {
        Some((None, pos + 3))
    } else {
        None
    }
}

/// Reads one text.
#[verifier::loop_isolation(false)]
fn dec_bytes(buf: &Vec<u64>, pos: usize, Ghost(b): Ghost<Seq<u8>>) -> (r: Option<(Vec<u8>, usize)>)
    ensures
        (b.len() <= BYTES_W && pos + 1 + BYTES_W <= buf@.len() && buf@.subrange(
            pos as int,
            pos as int + 1 + BYTES_W,
        ) == bytes_words(b)) ==> (r matches Some(p) && p.0@ == b && p.1 == pos + 1 + BYTES_W),
{
    let ghost h = b.len() <= BYTES_W && pos + 1 + BYTES_W <= buf@.len() && buf@.subrange(
        pos as int,
        pos as int + 1 + BYTES_W,
    ) == bytes_words(b);
    if buf.len() < 1 + BYTES_W || pos > buf.len() - 1 - BYTES_W {
        return None;
    }
    let len64 = buf[pos];
    proof {
        if h {
            assert(buf@.subrange(pos as int, pos as int + 1 + BYTES_W)[0] == b.len() as u64);
        }
    }
    if len64 > BYTES_W as u64 {
        return None;
    }
    let len = len64 as usize;
    let mut v: Vec<u8> = Vec::new();
    let mut i: usize = 0;
    while i < len
        invariant
            0 <= i <= len,
            len <= BYTES_W,
            pos + 1 + BYTES_W <= buf@.len(),
            v@.len() == i,
            h ==> len == b.len() && v@ =~= b.take(i as int),
        decreases len - i,
    {
        let x = buf[pos + 1 + i];
        if x > 255 {
            proof {
                if h {
                    assert(buf@.subrange(pos as int, pos as int + 1 + BYTES_W)[1 + i]
                        == b[i as int] as u64);
                }
            }
            return None;
        }
        v.push(x as u8);
        proof {
            if h {
                assert(buf@.subrange(pos as int, pos as int + 1 + BYTES_W)[1 + i]
                    == b[i as int] as u64);
                assert(v@ =~= b.take(i as int + 1));
            }
        }
        i += 1;
    }
    proof {
        if h {
            assert(b.take(b.len() as int) =~= b);
        }
    }
    Some((v, pos + 1 + BYTES_W))
}

/// Reads one optional text.
fn dec_opt_bytes(buf: &Vec<u64>, pos: usize, Ghost(o): Ghost<Option<Seq<u8>>>) -> (r: Option<
    (Option<Vec<u8>>, usize),
>)
    ensures
        ((o matches Some(b) ==> b.len() <= BYTES_W) && pos + 2 + BYTES_W <= buf@.len()
            && buf@.subrange(pos as int, pos as int + 2 + BYTES_W) == opt_bytes_words(o)) ==> (r
            matches Some(p) && (match o {
            Some(b) => p.0 matches Some(v) && v@ == b,
            None => p.0 is None,
        }) && p.1 == pos + 2 + BYTES_W),
{
    let ghost h = (o matches Some(b) ==> b.len() <= BYTES_W) && pos + 2 + BYTES_W <= buf@.len()
        && buf@.subrange(pos as int, pos as int + 2 + BYTES_W) == opt_bytes_words(o);
    if buf.len() < 2 + BYTES_W || pos > buf.len() - 2 - BYTES_W {
        return None;
    }
    let flag = buf[pos];
    proof {
        if h {
            assert(buf@.subrange(pos as int, pos as int + 2 + BYTES_W)[0] == opt_bytes_words(o)[0]);
            assert(buf@.subrange(pos as int + 1, pos as int + 2 + BYTES_W) =~= buf@.subrange(
                pos as int,
                pos as int + 2 + BYTES_W,
            ).subrange(1, 2 + BYTES_W));
            match o {
                Some(b) => {
                    assert(opt_bytes_words(o).subrange(1, 2 + BYTES_W) =~= bytes_words(b));
                },
                None => {
                    assert(opt_bytes_words(o).subrange(1, 2 + BYTES_W) =~= bytes_words(
                        Seq::<u8>::empty(),
                    ));
                },
            }
        }
    }
    if flag == 1 {
        let ghost bb = match o {
            Some(b) => b,
            None => Seq::empty(),
        };
        match dec_bytes(buf, pos + 1, Ghost(bb)) {
            Some((v, p2)) => Some((Some(v), p2)),
            None => None,
        }
    } else if flag == 0 {
        match dec_bytes(buf, pos + 1, Ghost(Seq::<u8>::empty())) {
            Some((v, p2)) => {
                if v.len() == 0 {
                    Some((None, p2))
                } else {
                    None
                }
            },
            None => None,
        }
    } else {
        None
    }
}

/// Same asset record, compared by content (texts by their bytes).
pub open spec fn asset_like(x: Asset, y: Asset) -> bool {
    &&& x.idx == y.idx
    &&& x.media_idx == y.media_idx
    &&& x.id == y.id
    &&& x.schema == y.schema
    &&& x.added_at == y.added_at
    &&& x.issued_supply == y.issued_supply
    &&& x.precision == y.precision
    &&& x.timestamp == y.timestamp
    &&& x.name@ == y.name@
    &&& match (x.ticker, y.ticker) {
        (Some(v), Some(t)) => v@ == t@,
        (None, None) => true,
        _ => false,
    }
    &&& match (x.details, y.details) {
        (Some(v), Some(d)) => v@ == d@,
        (None, None) => true,
        _ => false,
    }
}

/// Same wallet state, compared by content; the session handle is not part
/// of the durable state.
pub open spec fn wallet_like(x: Wallet, y: Wallet) -> bool {
    &&& x.wallet_id == y.wallet_id
    &&& x.has_private_keys == y.has_private_keys
    &&& x.clock == y.clock
    &&& x.last_operation == y.last_operation
    &&& x.last_backup == y.last_backup
    &&& x.next_asset_id == y.next_asset_id
    &&& x.next_transfer_id == y.next_transfer_id
    &&& x.next_recipient_id == y.next_recipient_id
    &&& x.next_txid == y.next_txid
    &&& x.assets@.len() == y.assets@.len()
    &&& forall|i: int|
        0 <= i < x.assets@.len() ==> asset_like(#[trigger] x.assets@[i], y.assets@[i])
    &&& x.unspents@ == y.unspents@
    &&& x.allocations@ == y.allocations@
    &&& x.transfers@ == y.transfers@
}

/// Two wallets with the same content observe alike: equal views drive all
/// balance computations.
pub proof fn lemma_wallet_like_balances(x: Wallet, y: Wallet)
    requires
        wallet_like(x, y),
    ensures
        forall|colored: bool|
            crate::balance::spec_btc_balance(x.unspents@, x.transfers@, colored)
                == crate::balance::spec_btc_balance(y.unspents@, y.transfers@, colored),
        forall|asset_id: u64|
            crate::balance::spec_asset_balance(x.unspents@, x.allocations@, x.transfers@, asset_id)
                == crate::balance::spec_asset_balance(
                y.unspents@,
                y.allocations@,
                y.transfers@,
                asset_id,
            ),
        x.spec_backup_required() == y.spec_backup_required(),
{
}

/// Reads one unspent record.
fn dec_unspent(buf: &Vec<u64>, pos: usize, Ghost(u): Ghost<Unspent>) -> (r: Option<(Unspent, usize)>)
    ensures
        (pos + UNSPENT_W <= buf@.len() && buf@.subrange(pos as int, pos as int + UNSPENT_W)
            == unspent_words(u)) ==> (r matches Some(p) && p.0 == u && p.1 == pos + UNSPENT_W),
{
    let ghost h = pos + UNSPENT_W <= buf@.len() && buf@.subrange(pos as int, pos as int + UNSPENT_W)
        == unspent_words(u);
    if buf.len() < UNSPENT_W || pos > buf.len() - UNSPENT_W {
        return None;
    }
    proof {
        if h {
            let s = buf@.subrange(pos as int, pos as int + UNSPENT_W);
            assert(buf@[pos as int] == s[0] && buf@[pos as int + 1] == s[1] && buf@[pos as int + 2]
                == s[2] && buf@[pos as int + 3] == s[3] && buf@[pos as int + 4] == s[4] && buf@[
                pos as int + 5] == s[5]);
            assert(buf@.subrange(pos as int + 6, pos as int + 8) =~= s.subrange(6, 8));
            assert(unspent_words(u).subrange(6, 8) =~= opt_word(u.pending_spend));
        }
    }
    let txid = buf[pos];
    let vout = buf[pos + 1];
    let sat = buf[pos + 2];
    let cw = buf[pos + 3];
    let iw = buf[pos + 4];
    let colw = buf[pos + 5];
    if vout > u32::MAX as u64 || cw > 1 || iw > 1 || colw > 1 {
        return None;
    }
    let pending = match dec_opt(buf, pos + 6, Ghost(u.pending_spend)) {
        Some((o, _)) => o,
        None => {
            return None;
        },
    };
    let u2 = Unspent {
        outpoint: Outpoint { txid, vout: vout as u32 },
        sat,
        confirmed: cw == 1,
        internal: iw == 1,
        colorable: colw == 1,
        pending_spend: pending,
    };
    Some((u2, pos + UNSPENT_W))
}

/// Reads one allocation record.
fn dec_alloc(buf: &Vec<u64>, pos: usize, Ghost(al): Ghost<Allocation>) -> (r: Option<
    (Allocation, usize),
>)
    ensures
        (pos + ALLOC_W <= buf@.len() && buf@.subrange(pos as int, pos as int + ALLOC_W)
            == alloc_words(al)) ==> (r matches Some(p) && p.0 == al && p.1 == pos + ALLOC_W),
{
    let ghost h = pos + ALLOC_W <= buf@.len() && buf@.subrange(pos as int, pos as int + ALLOC_W)
        == alloc_words(al);
    if buf.len() < ALLOC_W || pos > buf.len() - ALLOC_W {
        return None;
    }
    proof {
        if h {
            let s = buf@.subrange(pos as int, pos as int + ALLOC_W);
            assert(buf@[pos as int] == s[0] && buf@[pos as int + 1] == s[1] && buf@[pos as int + 2]
                == s[2] && buf@[pos as int + 3] == s[3]);
        }
    }
    let txid = buf[pos];
    let vout = buf[pos + 1];
    let asset_id = buf[pos + 2];
    let amount = buf[pos + 3];
    if vout > u32::MAX as u64 {
        return None;
    }
    Some((Allocation { outpoint: Outpoint { txid, vout: vout as u32 }, asset_id, amount }, pos
        + ALLOC_W))
}

/// Reads one transfer record.
#[verifier::rlimit(100)]
#[verifier::spinoff_prover]
fn dec_transfer(buf: &Vec<u64>, pos: usize, Ghost(t): Ghost<Transfer>) -> (r: Option<
    (Transfer, usize),
>)
    ensures
        (pos + TRANSFER_W <= buf@.len() && buf@.subrange(pos as int, pos as int + TRANSFER_W)
            == transfer_words(t)) ==> (r matches Some(p) && p.0 == t && p.1 == pos + TRANSFER_W),
{
    let ghost h = pos + TRANSFER_W <= buf@.len() && buf@.subrange(
        pos as int,
        pos as int + TRANSFER_W,
    ) == transfer_words(t);
    if buf.len() < TRANSFER_W || pos > buf.len() - TRANSFER_W {
        return None;
    }
    proof {
        if h {
            let s = buf@.subrange(pos as int, pos as int + TRANSFER_W);
            assert(buf@[pos as int] == s[0] && buf@[pos as int + 1] == s[1] && buf@[pos as int + 2]
                == s[2] && buf@[pos as int + 3] == s[3] && buf@[pos as int + 4] == s[4] && buf@[pos as int + 5] == s[5] && buf@[pos as int + 6] == s[6] && buf@[pos as int + 7] == s[7] && buf@[pos as int + 8] == s[8]);
            assert(buf@.subrange(pos as int + 9, pos as int + 11) =~= s.subrange(9, 11));
            assert(transfer_words(t).subrange(9, 11) =~= opt_word(t.asset_id));
            assert(buf@.subrange(pos as int + 11, pos as int + 13) =~= s.subrange(11, 13));
            assert(transfer_words(t).subrange(11, 13) =~= opt_word(t.txid));
            assert(buf@.subrange(pos as int + 13, pos as int + 16) =~= s.subrange(13, 16));
            assert(transfer_words(t).subrange(13, 16) =~= opt_outpoint_words(t.blinded_outpoint));
            assert(buf@.subrange(pos as int + 16, pos as int + 18) =~= s.subrange(16, 18));
            assert(transfer_words(t).subrange(16, 18) =~= opt_word(
                match t.witness_vout {
                    Some(v) => Some(v as u64),
                    None => None,
                },
            ));
            assert(buf@.subrange(pos as int + 18, pos as int + 21) =~= s.subrange(18, 21));
            assert(transfer_words(t).subrange(18, 21) =~= opt_outpoint_words(t.change_outpoint));
        }
    }
    let id = buf[pos];
    let amount = buf[pos + 1];
    let inw = buf[pos + 2];
    let kw = buf[pos + 3];
    let recipient_id = buf[pos + 4];
    let sw = buf[pos + 5];
    let witness_sat = buf[pos + 6];
    let change_amount = buf[pos + 7];
    let change_sat = buf[pos + 8];
    if inw > 1 || kw > 1 || sw > 3 {
        return None;
    }
    let asset_id = match dec_opt(buf, pos + 9, Ghost(t.asset_id)) {
        Some((o, _)) => o,
        None => {
            return None;
        },
    };
    let txid = match dec_opt(buf, pos + 11, Ghost(t.txid)) {
        Some((o, _)) => o,
        None => {
            return None;
        },
    };
    let blinded_outpoint = match dec_opt_outpoint(buf, pos + 13, Ghost(t.blinded_outpoint)) {
        Some((o, _)) => o,
        None => {
            return None;
        },
    };
    let ghost wvg = match t.witness_vout {
        Some(v) => Some(v as u64),
        None => None,
    };
    let witness_vout: Option<u32> = match dec_opt(buf, pos + 16, Ghost(wvg)) {
        Some((Some(v), _)) => {
            if v > u32::MAX as u64 {
                return None;
            }
            Some(v as u32)
        },
        Some((None, _)) => None,
        None => {
            return None;
        },
    };
    let change_outpoint = match dec_opt_outpoint(buf, pos + 18, Ghost(t.change_outpoint)) {
        Some((o, _)) => o,
        None => {
            return None;
        },
    };
    let t2 = Transfer {
        id,
        asset_id,
        amount,
        incoming: inw == 1,
        kind: if kw == 1 {
            ReceiveKind::Witness
        } else {
            ReceiveKind::Blinded
        },
        recipient_id,
        txid,
        status: if sw == 0 {
            TransferStatus::WaitingCounterparty
        } else if sw == 1 {
            TransferStatus::WaitingConfirmations
        } else if sw == 2 {
            TransferStatus::Settled
        } else {
            TransferStatus::Failed
        },
        blinded_outpoint,
        witness_vout,
        witness_sat,
        change_outpoint,
        change_amount,
        change_sat,
    };
    Some((t2, pos + TRANSFER_W))
}

/// Reads one asset record.
#[verifier::rlimit(100)]
#[verifier::spinoff_prover]
fn dec_asset(buf: &Vec<u64>, pos: usize, Ghost(a): Ghost<Asset>) -> (r: Option<(Asset, usize)>)
    ensures
        (a.name@.len() <= BYTES_W && (a.ticker matches Some(t) ==> t@.len() <= BYTES_W) && (
        a.details matches Some(d) ==> d@.len() <= BYTES_W) && pos + ASSET_W <= buf@.len()
            && buf@.subrange(pos as int, pos as int + ASSET_W) == asset_words(a)) ==> (r matches Some(
            p,
        ) && asset_like(p.0, a) && p.1 == pos + ASSET_W),
{
    let ghost h = a.name@.len() <= BYTES_W && (a.ticker matches Some(t) ==> t@.len() <= BYTES_W) && (
    a.details matches Some(d) ==> d@.len() <= BYTES_W) && pos + ASSET_W <= buf@.len()
        && buf@.subrange(pos as int, pos as int + ASSET_W) == asset_words(a);
    if buf.len() < ASSET_W || pos > buf.len() - ASSET_W {
        return None;
    }
    proof {
        if h {
            let s = buf@.subrange(pos as int, pos as int + ASSET_W);
            assert(buf@[pos as int] == s[0] && buf@[pos as int + 1] == s[1] && buf@[pos as int + 2]
                == s[2] && buf@[pos as int + 3] == s[3] && buf@[pos as int + 4] == s[4] && buf@[pos as int + 5] == s[5] && buf@[pos as int + 6] == s[6] && buf@[pos as int + 7] == s[7] && buf@[pos as int + 8] == s[8]);
            assert(buf@.subrange(pos as int + 9, pos as int + 74) =~= s.subrange(9, 74));
            assert(asset_words(a).subrange(9, 74) =~= bytes_words(a.name@));
            assert(buf@.subrange(pos as int + 74, pos as int + 140) =~= s.subrange(74, 140));
            assert(asset_words(a).subrange(74, 140) =~= opt_bytes_words(
                match a.ticker {
                    Some(t) => Some(t@),
                    None => None,
                },
            ));
            assert(buf@.subrange(pos as int + 140, pos as int + 206) =~= s.subrange(140, 206));
            assert(asset_words(a).subrange(140, 206) =~= opt_bytes_words(
                match a.details {
                    Some(d) => Some(d@),
                    None => None,
                },
            ));
        }
    }
    let idx = buf[pos];
    let mflag = buf[pos + 1];
    let mval = buf[pos + 2];
    let id = buf[pos + 3];
    let sw = buf[pos + 4];
    let added_at = buf[pos + 5];
    let issued_supply = buf[pos + 6];
    let precw = buf[pos + 7];
    let timestamp = buf[pos + 8];
    if mflag > 1 || sw > 2 || precw > 255 {
        return None;
    }
    if mflag == 0 && mval != 0 {
        return None;
    }
    let name = match dec_bytes(buf, pos + 9, Ghost(a.name@)) {
        Some((v, _)) => v,
        None => {
            return None;
        },
    };
    let ghost tg = match a.ticker {
        Some(t) => Some(t@),
        None => None,
    };
    let ticker = match dec_opt_bytes(buf, pos + 74, Ghost(tg)) {
        Some((o, _)) => o,
        None => {
            return None;
        },
    };
    let ghost dg = match a.details {
        Some(d) => Some(d@),
        None => None,
    };
    let details = match dec_opt_bytes(buf, pos + 140, Ghost(dg)) {
        Some((o, _)) => o,
        None => {
            return None;
        },
    };
    let a2 = Asset {
        idx,
        media_idx: if mflag == 1 {
            Some(mval)
        } else {
            None
        },
        id,
        schema: if sw == 0 {
            AssetSchema::Nia
        } else if sw == 1 {
            AssetSchema::Uda
        } else {
            AssetSchema::Cfa
        },
        added_at,
        details,
        issued_supply,
        name,
        precision: precw as u8,
        ticker,
        timestamp,
    };
    proof {
        if h {
            assert(asset_like(a2, a));
        }
    }
    Some((a2, pos + ASSET_W))
}

/// Bound used when sizing a table read: the declared row count must fit
/// the words that remain.
proof fn lemma_div_cap(x: int, d: int, n: int)
    requires
        0 <= x,
        0 < d,
        0 <= n <= x / d,
    ensures
        n * d <= x,
{
    vstd::arithmetic::div_mod::lemma_fundamental_div_mod(x, d);
    vstd::arithmetic::div_mod::lemma_mod_bound(x, d);
    assert(n * d <= (x / d) * d) by (nonlinear_arith)
        requires
            0 <= n <= x / d,
            0 < d,
    ;
}

/// Decodes a wallet from a word stream. On the exact encoding of a
/// well-formed wallet it yields that wallet's content, offline.
#[verifier::rlimit(100)]
#[verifier::spinoff_prover]
#[verifier::loop_isolation(false)]
pub fn decode_wallet(buf: &Vec<u64>, Ghost(w): Ghost<Wallet>) -> (r: Option<Wallet>)
    ensures
        (codec_fits(w) && buf@ == wallet_words(w)) ==> (r matches Some(w2) && wallet_like(
            w2,
            offline(w),
        )),
{
    let ghost h = codec_fits(w) && buf@ == wallet_words(w);
    proof {
        if h {
            lemma_flat_assets_len(w.assets@);
            lemma_flat_unspents_len(w.unspents@);
            lemma_flat_allocs_len(w.allocations@);
            lemma_flat_transfers_len(w.transfers@);
        }
    }
    if buf.len() < 13 {
        return None;
    }
    let wallet_id = buf[0];
    let keysw = buf[1];
    let clock = buf[2];
    let last_operation = buf[3];
    let last_backup = buf[4];
    let next_asset_id = buf[5];
    let next_transfer_id = buf[6];
    let next_recipient_id = buf[7];
    let next_txid = buf[8];
    if keysw > 1 {
        return None;
    }
    // Assets table.
    let n_a64 = buf[9];
    let mut pos: usize = 10;
    if n_a64 > ((buf.len() - pos) / ASSET_W) as u64 {
        return None;
    }
    let n_a = n_a64 as usize;
    proof {
        lemma_div_cap((buf@.len() - 10) as int, ASSET_W as int, n_a as int);
        if h {
            assert(buf@[9] == w.assets@.len() as u64);
        }
    }
    let mut assets: Vec<Asset> = Vec::new();
    let mut i: usize = 0;
    while i < n_a
        invariant
            0 <= i <= n_a,
            n_a * ASSET_W <= buf@.len() - 10,
            pos == 10 + i * ASSET_W,
            assets@.len() == i,
            h ==> {
                &&& n_a == w.assets@.len()
                &&& forall|k: int| 0 <= k < i ==> asset_like(#[trigger] assets@[k], w.assets@[k])
            },
        decreases n_a - i,
    {
        proof {
            assert(pos + ASSET_W <= buf@.len()) by (nonlinear_arith)
                requires
                    pos == 10 + i * ASSET_W,
                    i < n_a,
                    n_a * ASSET_W <= buf@.len() - 10,
                    ASSET_W == 206,
            ;
            if h {
                lemma_flat_assets_seg(w.assets@, i as int);
                assert((i as int + 1) * ASSET_W <= w.assets@.len() * ASSET_W) by (nonlinear_arith)
                    requires
                        0 <= i < w.assets@.len(),
                        ASSET_W == 206,
                ;
                let seg1 = buf@.subrange(pos as int, pos as int + ASSET_W);
                let seg2 = flat_assets(w.assets@).subrange(
                    (i as int) * ASSET_W,
                    (i as int + 1) * ASSET_W,
                );
                assert forall|q: int| 0 <= q < ASSET_W implies #[trigger] seg1[q] == seg2[q] by {
                    assert(seg1[q] == buf@[pos + q]);
                    assert(seg2[q] == flat_assets(w.assets@)[(i as int) * ASSET_W + q]);
                }
                assert(seg1 =~= seg2);
            }
        }
        let ghost ga = if h && i < w.assets@.len() {
            w.assets@[i as int]
        } else {
            arbitrary()
        };
        let a = match dec_asset(buf, pos, Ghost(ga)) {
            Some((a, _)) => a,
            None => {
                return None;
            },
        };
        assets.push(a);
        pos = pos + ASSET_W;
        proof {
            assert((i as int + 1) * ASSET_W == (i as int) * ASSET_W + ASSET_W) by (nonlinear_arith);
        }
        i += 1;
    }
    // Unspents table.
    if pos >= buf.len() {
        return None;
    }
    let ghost off_u = pos as int;
    proof {
        if h {
            assert(off_u == 10 + w.assets@.len() * ASSET_W);
            assert(buf@[off_u] == w.unspents@.len() as u64);
        }
    }
    let n_u64v = buf[pos];
    pos = pos + 1;
    if n_u64v > ((buf.len() - pos) / UNSPENT_W) as u64 {
        return None;
    }
    let n_u = n_u64v as usize;
    let ghost base_u = pos as int;
    proof {
        lemma_div_cap((buf@.len() - base_u) as int, UNSPENT_W as int, n_u as int);
    }
    let mut unspents: Vec<Unspent> = Vec::new();
    let mut j: usize = 0;
    while j < n_u
        invariant
            0 <= j <= n_u,
            n_u * UNSPENT_W <= buf@.len() - base_u,
            base_u == off_u + 1,
            pos == base_u + j * UNSPENT_W,
            unspents@.len() == j,
            h ==> {
                &&& n_u == w.unspents@.len()
                &&& unspents@ == w.unspents@.take(j as int)
            },
        decreases n_u - j,
    {
        proof {
            assert(pos + UNSPENT_W <= buf@.len()) by (nonlinear_arith)
                requires
                    pos == base_u + j * UNSPENT_W,
                    j < n_u,
                    n_u * UNSPENT_W <= buf@.len() - base_u,
                    UNSPENT_W == 8,
            ;
            if h {
                lemma_flat_unspents_seg(w.unspents@, j as int);
                assert((j as int + 1) * UNSPENT_W <= w.unspents@.len() * UNSPENT_W)
                    by (nonlinear_arith)
                    requires
                        0 <= j < w.unspents@.len(),
                        UNSPENT_W == 8,
                ;
                let seg1 = buf@.subrange(pos as int, pos as int + UNSPENT_W);
                let seg2 = flat_unspents(w.unspents@).subrange(
                    (j as int) * UNSPENT_W,
                    (j as int + 1) * UNSPENT_W,
                );
                assert forall|q: int| 0 <= q < UNSPENT_W implies #[trigger] seg1[q] == seg2[q] by {
                    assert(seg1[q] == buf@[pos + q]);
                    assert(seg2[q] == flat_unspents(w.unspents@)[(j as int) * UNSPENT_W + q]);
                }
                assert(seg1 =~= seg2);
            }
        }
        let ghost gu = if h && j < w.unspents@.len() {
            w.unspents@[j as int]
        } else {
            arbitrary()
        };
        let u = match dec_unspent(buf, pos, Ghost(gu)) {
            Some((u, _)) => u,
            None => {
                return None;
            },
        };
        unspents.push(u);
        pos = pos + UNSPENT_W;
        proof {
            assert((j as int + 1) * UNSPENT_W == (j as int) * UNSPENT_W + UNSPENT_W)
                by (nonlinear_arith);
            if h {
                assert(unspents@ =~= w.unspents@.take(j as int + 1));
            }
        }
        j += 1;
    }
    // Allocations table.
    if pos >= buf.len() {
        return None;
    }
    let ghost off_l = pos as int;
    proof {
        if h {
            assert(w.unspents@.take(w.unspents@.len() as int) =~= w.unspents@);
            assert(off_l == off_u + 1 + w.unspents@.len() * UNSPENT_W);
            assert(buf@[off_l] == w.allocations@.len() as u64);
        }
    }
    let n_l64 = buf[pos];
    pos = pos + 1;
    if n_l64 > ((buf.len() - pos) / ALLOC_W) as u64 {
        return None;
    }
    let n_l = n_l64 as usize;
    let ghost base_l = pos as int;
    proof {
        lemma_div_cap((buf@.len() - base_l) as int, ALLOC_W as int, n_l as int);
    }
    let mut allocations: Vec<Allocation> = Vec::new();
    let mut k: usize = 0;
    while k < n_l
        invariant
            0 <= k <= n_l,
            n_l * ALLOC_W <= buf@.len() - base_l,
            base_l == off_l + 1,
            pos == base_l + k * ALLOC_W,
            allocations@.len() == k,
            h ==> {
                &&& n_l == w.allocations@.len()
                &&& allocations@ == w.allocations@.take(k as int)
            },
        decreases n_l - k,
    {
        proof {
            assert(pos + ALLOC_W <= buf@.len()) by (nonlinear_arith)
                requires
                    pos == base_l + k * ALLOC_W,
                    k < n_l,
                    n_l * ALLOC_W <= buf@.len() - base_l,
                    ALLOC_W == 4,
            ;
            if h {
                lemma_flat_allocs_seg(w.allocations@, k as int);
                assert((k as int + 1) * ALLOC_W <= w.allocations@.len() * ALLOC_W)
                    by (nonlinear_arith)
                    requires
                        0 <= k < w.allocations@.len(),
                        ALLOC_W == 4,
                ;
                let seg1 = buf@.subrange(pos as int, pos as int + ALLOC_W);
                let seg2 = flat_allocs(w.allocations@).subrange(
                    (k as int) * ALLOC_W,
                    (k as int + 1) * ALLOC_W,
                );
                assert forall|q: int| 0 <= q < ALLOC_W implies #[trigger] seg1[q] == seg2[q] by {
                    assert(seg1[q] == buf@[pos + q]);
                    assert(seg2[q] == flat_allocs(w.allocations@)[(k as int) * ALLOC_W + q]);
                }
                assert(seg1 =~= seg2);
            }
        }
        let ghost gl = if h && k < w.allocations@.len() {
            w.allocations@[k as int]
        } else {
            arbitrary()
        };
        let al = match dec_alloc(buf, pos, Ghost(gl)) {
            Some((al, _)) => al,
            None => {
                return None;
            },
        };
        allocations.push(al);
        pos = pos + ALLOC_W;
        proof {
            assert((k as int + 1) * ALLOC_W == (k as int) * ALLOC_W + ALLOC_W) by (nonlinear_arith);
            if h {
                assert(allocations@ =~= w.allocations@.take(k as int + 1));
            }
        }
        k += 1;
    }
    // Transfers table.
    if pos >= buf.len() {
        return None;
    }
    let ghost off_t = pos as int;
    proof {
        if h {
            assert(w.allocations@.take(w.allocations@.len() as int) =~= w.allocations@);
            assert(off_t == off_l + 1 + w.allocations@.len() * ALLOC_W);
            assert(buf@[off_t] == w.transfers@.len() as u64);
        }
    }
    let n_t64 = buf[pos];
    pos = pos + 1;
    if n_t64 > ((buf.len() - pos) / TRANSFER_W) as u64 {
        return None;
    }
    let n_t = n_t64 as usize;
    let ghost base_t = pos as int;
    proof {
        lemma_div_cap((buf@.len() - base_t) as int, TRANSFER_W as int, n_t as int);
    }
    let mut transfers: Vec<Transfer> = Vec::new();
    let mut m: usize = 0;
    while m < n_t
        invariant
            0 <= m <= n_t,
            n_t * TRANSFER_W <= buf@.len() - base_t,
            base_t == off_t + 1,
            pos == base_t + m * TRANSFER_W,
            transfers@.len() == m,
            h ==> {
                &&& n_t == w.transfers@.len()
                &&& transfers@ == w.transfers@.take(m as int)
            },
        decreases n_t - m,
    {
        proof {
            assert(pos + TRANSFER_W <= buf@.len()) by (nonlinear_arith)
                requires
                    pos == base_t + m * TRANSFER_W,
                    m < n_t,
                    n_t * TRANSFER_W <= buf@.len() - base_t,
                    TRANSFER_W == 21,
            ;
            if h {
                lemma_flat_transfers_seg(w.transfers@, m as int);
                assert((m as int + 1) * TRANSFER_W <= w.transfers@.len() * TRANSFER_W)
                    by (nonlinear_arith)
                    requires
                        0 <= m < w.transfers@.len(),
                        TRANSFER_W == 21,
                ;
                let seg1 = buf@.subrange(pos as int, pos as int + TRANSFER_W);
                let seg2 = flat_transfers(w.transfers@).subrange(
                    (m as int) * TRANSFER_W,
                    (m as int + 1) * TRANSFER_W,
                );
                assert forall|q: int| 0 <= q < TRANSFER_W implies #[trigger] seg1[q] == seg2[q] by {
                    assert(seg1[q] == buf@[pos + q]);
                    assert(seg2[q] == flat_transfers(w.transfers@)[(m as int) * TRANSFER_W + q]);
                }
                assert(seg1 =~= seg2);
            }
        }
        let ghost gt = if h && m < w.transfers@.len() {
            w.transfers@[m as int]
        } else {
            arbitrary()
        };
        let t = match dec_transfer(buf, pos, Ghost(gt)) {
            Some((t, _)) => t,
            None => {
                return None;
            },
        };
        transfers.push(t);
        pos = pos + TRANSFER_W;
        proof {
            assert((m as int + 1) * TRANSFER_W == (m as int) * TRANSFER_W + TRANSFER_W)
                by (nonlinear_arith);
            if h {
                assert(transfers@ =~= w.transfers@.take(m as int + 1));
            }
        }
        m += 1;
    }
    proof {
        if h {
            assert(w.transfers@.take(w.transfers@.len() as int) =~= w.transfers@);
        }
    }
    Some(Wallet {
        wallet_id,
        has_private_keys: keysw == 1,
        online_id: None,
        assets,
        unspents,
        allocations,
        transfers,
        clock,
        last_operation,
        last_backup,
        next_asset_id,
        next_transfer_id,
        next_recipient_id,
        next_txid,
    })
}

} // verus!
