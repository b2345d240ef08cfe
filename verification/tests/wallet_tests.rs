use rgb_wallet::backup::{restore_backup, ScryptParams};
use rgb_wallet::errors::Error;
use rgb_wallet::model::{Balance, BtcBalance, ChainState, ChainTx, ChainUtxo, Consignment, Online};
use rgb_wallet::wallet::Wallet;

const TRANSPORT_FEE_RATE: f32 = 1.0;

fn rate_tenths(rate: f32) -> u64 {
    (rate * 10.0).round() as u64
}

fn test_address(n: u64) -> String {
    format!("bcrt1q{:08x}", n)
}

/// Chain snapshot listing exactly the wallet's own unspents, each with the
/// given confirmation count, plus the given transaction entries.
fn chain_for(w: &Wallet, confirmations: u64, txs: Vec<ChainTx>) -> ChainState {
    let utxos = w
        .unspents
        .iter()
        .map(|u| ChainUtxo { outpoint: u.outpoint, sat: u.sat, confirmations })
        .collect();
    ChainState { height: 100, utxos, txs }
}

fn fund(chain: &mut ChainState, txid: u64, sat: u64) {
    chain.utxos.push(ChainUtxo {
        outpoint: rgb_wallet::model::Outpoint { txid, vout: 0 },
        sat,
        confirmations: 1,
    });
}

fn get_funded_noutxo_wallet(id: u64, sat: u64) -> (Wallet, Online, ChainState) {
    let mut w = Wallet::new(id, true);
    let online = w.go_online(id);
    let mut chain = ChainState { height: 100, utxos: vec![], txs: vec![] };
    fund(&mut chain, 9_000 + id, sat);
    w.sync(&chain);
    (w, online, chain)
}

/// A wallet funded with one coin and split into five allocation-ready
/// outputs plus change, everything confirmed.
fn get_funded_wallet(id: u64) -> (Wallet, Online, ChainState) {
    let (mut w, online, _) = get_funded_noutxo_wallet(id, 100_000_000);
    w.create_utxos(&online, 5, 1000).unwrap();
    let chain = chain_for(&w, 1, vec![]);
    w.sync(&chain);
    (w, online, chain)
}

fn balance(settled: u64, future: u64, spendable: u64) -> Balance {
    Balance { settled, future, spendable }
}

#[test]
fn drain_to_success() {
    // Receiver wallet only provides a destination address.
    let address = test_address(77);

    // Drain a funded wallet that has no allocated outputs.
    let (mut wallet, online, chain) = get_funded_noutxo_wallet(1, 100_000_000);
    let expected = BtcBalance {
        vanilla: balance(100000000, 100000000, 100000000),
        colored: balance(0, 0, 0),
    };
    assert_eq!(wallet.get_btc_balance(&online).unwrap(), expected);
    let bak_info_before = wallet.last_operation;
    wallet
        .drain_to(&online, &chain, &address, false, rate_tenths(TRANSPORT_FEE_RATE))
        .unwrap();
    let bak_info_after = wallet.last_operation;
    assert!(bak_info_after > bak_info_before);
    // After mining, the chain lists nothing for this wallet.
    let chain = chain_for(&wallet, 1, vec![]);
    wallet.sync(&chain);
    assert_eq!(wallet.unspents.len(), 0);

    // Fund again and create allocation-ready outputs, then issue an asset.
    let mut chain = chain_for(&wallet, 1, vec![]);
    fund(&mut chain, 9_500, 100_000_000);
    wallet.sync(&chain);
    wallet.create_utxos(&online, 5, 1000).unwrap();
    let chain = chain_for(&wallet, 1, vec![]);
    wallet.sync(&chain);
    wallet
        .issue_asset_nia(b"Test asset".to_vec(), Some(b"TST".to_vec()), 0, &vec![1000])
        .unwrap();

    // Drain keeping allocations: the five colored outputs survive.
    let expected = BtcBalance {
        vanilla: balance(99994508, 99994508, 99994508),
        colored: balance(5000, 5000, 5000),
    };
    assert_eq!(wallet.get_btc_balance(&online).unwrap(), expected);
    wallet
        .drain_to(&online, &chain, &address, false, rate_tenths(TRANSPORT_FEE_RATE))
        .unwrap();
    let chain = chain_for(&wallet, 1, vec![]);
    wallet.sync(&chain);
    assert_eq!(wallet.unspents.len(), 5);

    // Drain destroying allocations: everything goes.
    wallet
        .drain_to(&online, &chain, &address, true, rate_tenths(TRANSPORT_FEE_RATE))
        .unwrap();
    let chain = chain_for(&wallet, 1, vec![]);
    wallet.sync(&chain);
    assert_eq!(wallet.unspents.len(), 0);
}

#[test]
fn pending_witness_receive() {
    let amount: u64 = 66;

    let (mut wallet, online, _) = get_funded_wallet(1);
    let (mut rcv_wallet, rcv_online, _) = get_funded_wallet(2);
    let (drain_wallet, _drain_online, _) = get_funded_noutxo_wallet(3, 0);
    let _ = drain_wallet;

    // Issue, then send via a witness receive while mining is stopped.
    let asset_id = wallet
        .issue_asset_nia(b"Test asset".to_vec(), Some(b"TST".to_vec()), 0, &vec![1000])
        .unwrap();
    let receive_data = rcv_wallet.witness_receive().unwrap();
    let send_res = wallet
        .send(&online, asset_id, amount, receive_data.recipient_id, Some(1000))
        .unwrap();
    let txid = send_res.txid;

    // Receiver learns of the consignment (transaction not yet confirmed).
    let rcv_chain = chain_for(&rcv_wallet, 1, vec![ChainTx { txid, confirmations: 0 }]);
    rcv_wallet
        .refresh(&rcv_online, &rcv_chain, &vec![send_res.consignment], &vec![], None)
        .unwrap();
    // Sender sees the acknowledgement and broadcasts.
    let chain = chain_for(&wallet, 1, vec![ChainTx { txid, confirmations: 0 }]);
    wallet
        .refresh(&online, &chain, &vec![], &vec![receive_data.recipient_id], Some(asset_id))
        .unwrap();
    // Mine: the transaction confirms; the witness output now exists on
    // chain but the receiver has not synchronized again.
    assert_eq!(rcv_wallet.unspents.len(), 6);

    // Drain the receiver: the drain's own synchronization pass sweeps the
    // freshly arrived witness output too.
    let mut rcv_chain = chain_for(&rcv_wallet, 1, vec![ChainTx { txid, confirmations: 1 }]);
    rcv_chain.utxos.push(ChainUtxo {
        outpoint: rgb_wallet::model::Outpoint { txid, vout: 1 },
        sat: 1000,
        confirmations: 1,
    });
    let address = test_address(3);
    rcv_wallet
        .drain_to(&rcv_online, &rcv_chain, &address, true, rate_tenths(TRANSPORT_FEE_RATE))
        .unwrap();
    assert_eq!(rcv_wallet.unspents.len(), 0);

    // A refresh after the drain finds the expected output spent: nothing
    // reappears.
    let rcv_chain = ChainState {
        height: 101,
        utxos: vec![],
        txs: vec![ChainTx { txid, confirmations: 1 }],
    };
    rcv_wallet
        .refresh(&rcv_online, &rcv_chain, &vec![], &vec![], None)
        .unwrap();
    assert_eq!(rcv_wallet.unspents.len(), 0);
}

#[test]
fn drain_to_fail() {
    // Drain an empty wallet.
    let (mut wallet, online, chain) = get_funded_noutxo_wallet(1, 0);
    let (mut rcv_wallet, rcv_online, _) = get_funded_noutxo_wallet(2, 0);
    let _ = &mut rcv_wallet;
    let address = test_address(2);
    let result = wallet.drain_to(&online, &chain, &address, true, rate_tenths(TRANSPORT_FEE_RATE));
    assert!(matches!(result, Err(Error::InsufficientBitcoins { needed: _, available: _ })));

    // Bad online object.
    let mut chain = chain;
    fund(&mut chain, 9_800, 100_000_000);
    wallet.sync(&chain);
    let result =
        wallet.drain_to(&rcv_online, &chain, &address, false, rate_tenths(TRANSPORT_FEE_RATE));
    assert!(matches!(result, Err(Error::CannotChangeOnline)));

    // Bad address.
    let result = wallet.drain_to(&online, &chain, "invalid address", false, rate_tenths(
        TRANSPORT_FEE_RATE,
    ));
    assert!(matches!(result, Err(Error::InvalidAddress { details: _ })));

    // Fee rate below the minimum and above the maximum.
    let result = wallet.drain_to(&online, &chain, &address, true, rate_tenths(0.9));
    assert!(
        matches!(result, Err(Error::InvalidFeeRate { details: m }) if m == rgb_wallet::errors::fee_msg_low())
    );
    let result = wallet.drain_to(&online, &chain, &address, true, rate_tenths(1000.1));
    assert!(
        matches!(result, Err(Error::InvalidFeeRate { details: m }) if m == rgb_wallet::errors::fee_msg_high())
    );

    // No private keys.
    let mut wo = Wallet::new(9, false);
    let wo_online = wo.go_online(9);
    let mut wo_chain = ChainState { height: 100, utxos: vec![], txs: vec![] };
    fund(&mut wo_chain, 9_900, 100_000_000);
    wo.sync(&wo_chain);
    let result = wo.drain_to(&wo_online, &wo_chain, &address, false, rate_tenths(
        TRANSPORT_FEE_RATE,
    ));
    assert!(matches!(result, Err(Error::WatchOnly)));
}

#[test]
fn backup_info() {
    // Backup is not required for a new wallet.
    let (wallet, _online, _) = get_funded_noutxo_wallet(1, 0);
    let backup_required = wallet.backup_info().unwrap();
    assert!(!backup_required);
}

#[test]
fn fee_bounds_inclusive() {
    // At the bounds themselves a drain goes through; just past them it is
    // rejected with the message naming the violated bound.
    for rate in [10u64, 10000u64] {
        let (mut wallet, online, chain) = get_funded_noutxo_wallet(1, 100_000_000);
        let address = test_address(4);
        assert!(wallet.drain_to(&online, &chain, &address, false, rate).is_ok());
    }
    let (mut wallet, online, chain) = get_funded_noutxo_wallet(1, 100_000_000);
    let address = test_address(4);
    let result = wallet.drain_to(&online, &chain, &address, false, 9);
    assert!(
        matches!(result, Err(Error::InvalidFeeRate { details: m }) if m == rgb_wallet::errors::fee_msg_low())
    );
    let result = wallet.drain_to(&online, &chain, &address, false, 10001);
    assert!(
        matches!(result, Err(Error::InvalidFeeRate { details: m }) if m == rgb_wallet::errors::fee_msg_high())
    );
}

#[test]
fn drain_keep_preserves_allocations() {
    // Draining without destroying never reduces any asset's allocated
    // total; destroying forfeits the allocations on consumed outputs.
    let (mut wallet, online, _) = get_funded_wallet(1);
    wallet
        .issue_asset_nia(b"Kept".to_vec(), None, 0, &vec![500])
        .unwrap();
    let rows_before = wallet.allocations.clone();
    let chain = chain_for(&wallet, 1, vec![]);
    let address = test_address(5);
    wallet
        .drain_to(&online, &chain, &address, false, rate_tenths(TRANSPORT_FEE_RATE))
        .unwrap();
    assert_eq!(wallet.allocations, rows_before);
    let chain = chain_for(&wallet, 1, vec![]);
    wallet
        .drain_to(&online, &chain, &address, true, rate_tenths(TRANSPORT_FEE_RATE))
        .unwrap();
    assert_eq!(wallet.allocations.len(), 0);
}

fn settle_transfer_pair(
    wallet: &mut Wallet,
    online: &Online,
    rcv_wallet: &mut Wallet,
    rcv_online: &Online,
    asset_id: u64,
    amount: u64,
) -> u64 {
    let receive_data = rcv_wallet.blind_receive().unwrap();
    let send_res = wallet
        .send(online, asset_id, amount, receive_data.recipient_id, None)
        .unwrap();
    let txid = send_res.txid;
    // Receiver validates the consignment and acknowledges.
    let rcv_chain = chain_for(rcv_wallet, 1, vec![ChainTx { txid, confirmations: 0 }]);
    rcv_wallet
        .refresh(rcv_online, &rcv_chain, &vec![send_res.consignment], &vec![], None)
        .unwrap();
    // Sender sees the acknowledgement and broadcasts.
    let chain = chain_for(wallet, 1, vec![ChainTx { txid, confirmations: 0 }]);
    wallet
        .refresh(online, &chain, &vec![], &vec![receive_data.recipient_id], Some(asset_id))
        .unwrap();
    // Mine, then both sides settle.
    let rcv_chain = chain_for(rcv_wallet, 1, vec![ChainTx { txid, confirmations: 1 }]);
    rcv_wallet
        .refresh(rcv_online, &rcv_chain, &vec![], &vec![], Some(asset_id))
        .unwrap();
    let chain = chain_for(wallet, 1, vec![ChainTx { txid, confirmations: 1 }]);
    wallet
        .refresh(online, &chain, &vec![], &vec![], Some(asset_id))
        .unwrap();
    txid
}

#[test]
fn send_and_settle_balances() {
    // Issue 100 at precision zero, send 66 via a blinded receive, refresh
    // both sides through settlement, and check both balances.
    let (mut wallet, online, _) = get_funded_wallet(1);
    let (mut rcv_wallet, rcv_online, _) = get_funded_wallet(2);
    let asset_id = wallet
        .issue_asset_nia(b"Test asset".to_vec(), Some(b"TST".to_vec()), 0, &vec![100])
        .unwrap();
    settle_transfer_pair(&mut wallet, &online, &mut rcv_wallet, &rcv_online, asset_id, 66);
    assert_eq!(wallet.get_balance(asset_id).unwrap(), balance(34, 34, 34));
    assert_eq!(rcv_wallet.get_balance(asset_id).unwrap(), balance(66, 66, 66));
    // Both transfers are settled, and a second refresh changes nothing.
    let chain = chain_for(&wallet, 1, vec![]);
    let before = wallet.transfers.clone();
    wallet.refresh(&online, &chain, &vec![], &vec![], None).unwrap();
    assert_eq!(wallet.transfers, before);
}

#[test]
fn backup_restore_round_trip() {
    // Back up a wallet with asset history, restore it, and compare what
    // the restored wallet reports.
    let (mut wallet, online, _) = get_funded_wallet(1);
    let asset_id = wallet
        .issue_asset_nia(b"Test asset".to_vec(), Some(b"TST".to_vec()), 0, &vec![100])
        .unwrap();
    let params = ScryptParams::new(Some(10), Some(8), Some(1));
    let archive = wallet
        .backup_customize("wallet.backup", false, "password", Some(params))
        .unwrap();
    // Backup is not required right after a backup succeeds.
    assert!(!wallet.backup_info().unwrap());

    // Restore and compare.
    let mut restored = restore_backup(&archive, "password").unwrap();
    assert!(!restored.backup_info().unwrap());
    let r_online = restored.go_online(1);
    assert_eq!(
        restored.get_balance(asset_id).unwrap(),
        wallet.get_balance(asset_id).unwrap()
    );
    assert_eq!(
        restored.get_btc_balance(&r_online).unwrap(),
        wallet.get_btc_balance(&online).unwrap()
    );
    assert_eq!(restored.unspents, wallet.unspents);
    assert_eq!(restored.transfers, wallet.transfers);
    assert_eq!(restored.allocations, wallet.allocations);

    // Backup becomes required again after the next mutating operation.
    wallet
        .issue_asset_nia(b"Second".to_vec(), None, 0, &vec![5])
        .unwrap();
    assert!(wallet.backup_info().unwrap());

    // A second backup to the same, now occupied, path is refused and the
    // archive is untouched.
    let result = wallet.backup_customize("wallet.backup", true, "password", Some(params));
    assert!(matches!(result, Err(Error::FileAlreadyExists { path: _ })));

    // Restoring with any other password fails with WrongPassword, never
    // with a different error.
    let result = restore_backup(&archive, "wrong password");
    assert!(matches!(result, Err(Error::WrongPassword)));
    // A truncated archive fails the same way.
    let truncated: Vec<u8> = archive[..archive.len() - 3].to_vec();
    let result = restore_backup(&truncated, "password");
    assert!(matches!(result, Err(Error::WrongPassword)));
    // A corrupted archive fails the same way.
    let mut corrupted = archive.clone();
    let last = corrupted.len() - 1;
    corrupted[last] ^= 0x5a;
    let result = restore_backup(&corrupted, "password");
    assert!(matches!(result, Err(Error::WrongPassword)));
}

#[test]
fn backup_raised_cost_parameters() {
    // Raising cost parameters above the defaults still round-trips, and
    // the archive is self-describing: restore needs only the password.
    let (mut wallet, _online, _) = get_funded_wallet(2);
    wallet
        .issue_asset_nia(b"W2 asset".to_vec(), None, 2, &vec![666])
        .unwrap();
    let params = ScryptParams::new(Some(10), Some(9), Some(2));
    let archive = wallet
        .backup_customize("w2.backup", false, "password2", Some(params))
        .unwrap();
    let restored = restore_backup(&archive, "password2").unwrap();
    assert_eq!(restored.unspents, wallet.unspents);
    assert_eq!(restored.allocations, wallet.allocations);
    assert_eq!(restored.assets.len(), wallet.assets.len());
    assert_eq!(restored.assets[0].name, wallet.assets[0].name);
    assert_eq!(restored.assets[0].issued_supply, wallet.assets[0].issued_supply);
    assert_eq!(restored.assets[0].precision, wallet.assets[0].precision);
    // Archiving the same state twice with the same password and parameters
    // yields the same bytes only when the state is the same: the restored
    // wallet archives to an equivalent archive.
    let err = restore_backup(&archive, "password");
    assert!(matches!(err, Err(Error::WrongPassword)));
}

#[test]
fn fee_model_exact() {
    // One input and six outputs at one satoshi per virtual byte.
    assert_eq!(rgb_wallet::wallet::fee_for(1, 6, 10), 492);
    // One input, one output.
    assert_eq!(rgb_wallet::wallet::fee_for(1, 1, 10), 332);
}

#[test]
fn address_validation() {
    assert!(rgb_wallet::wallet::check_address("bcrt1q00000001"));
    assert!(!rgb_wallet::wallet::check_address("invalid address"));
    assert!(!rgb_wallet::wallet::check_address("bcrt1"));
    assert!(!rgb_wallet::wallet::check_address("tb1q00000001"));
    assert!(!rgb_wallet::wallet::check_address("bcrt1qUPPER"));
}

#[test]
fn issue_validation() {
    let (mut wallet, _online, _) = get_funded_wallet(1);
    let result = wallet.issue_asset_nia(vec![], None, 0, &vec![100]);
    assert!(matches!(result, Err(Error::InvalidName { details: _ })));
    let result = wallet.issue_asset_nia(vec![b'a'; 33], None, 0, &vec![100]);
    assert!(matches!(result, Err(Error::InvalidName { details: _ })));
    let result = wallet.issue_asset_nia(b"ok".to_vec(), None, 19, &vec![100]);
    assert!(matches!(result, Err(Error::InvalidPrecision { details: _ })));
    let result = wallet.get_balance(42);
    assert!(matches!(result, Err(Error::AssetNotFound { asset_id: 42 })));
    // An unfunded wallet has no output to host an issuance.
    let (mut empty, _o2, _) = get_funded_noutxo_wallet(5, 0);
    let result = empty.issue_asset_nia(b"ok".to_vec(), None, 0, &vec![100]);
    assert!(matches!(result, Err(Error::InsufficientAllocationSlots)));
}

#[test]
fn send_validation() {
    let (mut wallet, online, _) = get_funded_wallet(1);
    let asset_id = wallet
        .issue_asset_nia(b"Test asset".to_vec(), None, 0, &vec![100])
        .unwrap();
    let result = wallet.send(&online, asset_id, 101, 1, None);
    assert!(matches!(
        result,
        Err(Error::InsufficientAssets { needed: 101, available: 100 })
    ));
    let result = wallet.send(&online, 42, 1, 1, None);
    assert!(matches!(result, Err(Error::AssetNotFound { asset_id: 42 })));
}

#[test]
fn keep_drain_preserves_witness_received_allocation() {
    // An allocation received through a witness output lands on an output
    // the chain created; a keep-policy drain must preserve it, and the
    // asset's allocated total must not drop.
    let (mut wallet, online, _) = get_funded_wallet(1);
    let (mut rcv_wallet, rcv_online, _) = get_funded_wallet(2);
    let asset_id = wallet
        .issue_asset_nia(b"Witnessed".to_vec(), None, 0, &vec![100])
        .unwrap();
    let receive_data = rcv_wallet.witness_receive().unwrap();
    let send_res = wallet
        .send(&online, asset_id, 66, receive_data.recipient_id, Some(1000))
        .unwrap();
    let txid = send_res.txid;

    // Receiver accepts the consignment, sender broadcasts, the chain mines.
    let rcv_chain = chain_for(&rcv_wallet, 1, vec![ChainTx { txid, confirmations: 0 }]);
    rcv_wallet
        .refresh(&rcv_online, &rcv_chain, &vec![send_res.consignment], &vec![], None)
        .unwrap();
    let chain = chain_for(&wallet, 1, vec![ChainTx { txid, confirmations: 0 }]);
    wallet
        .refresh(&online, &chain, &vec![], &vec![receive_data.recipient_id], Some(asset_id))
        .unwrap();

    // The receiver settles: its refresh synchronizes first, picking up the
    // witness output, then books the allocation.
    let mut rcv_chain = chain_for(&rcv_wallet, 1, vec![ChainTx { txid, confirmations: 1 }]);
    rcv_chain.utxos.push(ChainUtxo {
        outpoint: rgb_wallet::model::Outpoint { txid, vout: 1 },
        sat: 1000,
        confirmations: 1,
    });
    let report = rcv_wallet
        .refresh(&rcv_online, &rcv_chain, &vec![], &vec![], None)
        .unwrap();
    assert!(report.iter().any(|e| e.updated));
    assert_eq!(rcv_wallet.get_balance(asset_id).unwrap(), balance(66, 66, 66));

    // Keep-policy drain: the allocation rows and the asset balance survive.
    let rows_before = rcv_wallet.allocations.clone();
    let rcv_chain = chain_for(&rcv_wallet, 1, vec![]);
    let address = test_address(9);
    rcv_wallet
        .drain_to(&rcv_online, &rcv_chain, &address, false, rate_tenths(TRANSPORT_FEE_RATE))
        .unwrap();
    assert_eq!(rcv_wallet.allocations, rows_before);
    assert_eq!(rcv_wallet.get_balance(asset_id).unwrap(), balance(66, 66, 66));
}
