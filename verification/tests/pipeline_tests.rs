use wallet_operation_test::KeychainKind;
use wallet_operation_test::Network;
use wallet_operation_test::descriptor::Descriptor;
use wallet_operation_test::descriptor::DescriptorKey;
use wallet_operation_test::bip32::account_path;
use wallet_operation_test::signer::SignerEntry;
use wallet_operation_test::signer::SignerRegistry;
use wallet_operation_test::watchonly::FinalTx;
use wallet_operation_test::watchonly::Psbt;
use wallet_operation_test::watchonly::Recipient;
use wallet_operation_test::watchonly::TxError;
use wallet_operation_test::watchonly::Utxo;
use wallet_operation_test::watchonly::WatchOnlyWallet;
use wallet_operation_test::watchonly::finalize;
use wallet_operation_test::wallet_backup::WalletBackupData;
use wallet_operation_test::descriptor::descriptor_string;
use wallet_operation_test::bip32::render_path;

fn dummy_descriptor() -> Descriptor {
    Descriptor::Wpkh(DescriptorKey {
        origin_fingerprint: "f00dbabe".to_owned(),
        origin_path: account_path(&Network::Regtest),
        xkey: "tpubDummyKeyMaterial".to_owned(),
        keychain: KeychainKind::External,
    })
}

fn utxo(txid: &str, value: u64, keychain: KeychainKind, fp: &str, confirmed: bool) -> Utxo {
    Utxo {
        txid: txid.to_owned(),
        vout: 0,
        value,
        keychain,
        confirmed,
        origin_fingerprint: fp.to_owned(),
    }
}

fn wallet_with(utxos: Vec<Utxo>) -> WatchOnlyWallet {
    let mut w = WatchOnlyWallet::new(dummy_descriptor(), None, Network::Regtest);
    w.apply_sync(utxos);
    w
}

#[test]
fn balance_splits_confirmed_and_unconfirmed() {
    let w = wallet_with(vec![
        utxo("a", 3000, KeychainKind::External, "f00dbabe", true),
        utxo("b", 2000, KeychainKind::External, "f00dbabe", false),
        utxo("c", 1500, KeychainKind::Internal, "f00dbabe", true),
    ]);
    let balance = w.get_balance();
    assert_eq!(balance.confirmed, 4500);
    assert_eq!(balance.unconfirmed, 2000);
}

#[test]
fn build_tx_selects_minimal_prefix_and_returns_change() {
    let w = wallet_with(vec![
        utxo("a", 3000, KeychainKind::External, "f00dbabe", true),
        utxo("b", 2000, KeychainKind::External, "f00dbabe", true),
    ]);
    let recipients = vec![Recipient { script: vec![0x51], amount: 1000 }];
    let change_script = vec![0x52];
    let psbt = w.build_tx(&recipients, &change_script, 200).unwrap();
    // 3000 covers 1000 + 200, so only the first output is selected.
    assert_eq!(psbt.inputs.len(), 1);
    assert_eq!(psbt.inputs[0].utxo.txid, "a");
    assert!(psbt.inputs[0].signature.is_none());
    assert_eq!(psbt.outputs.len(), 2);
    assert_eq!(psbt.outputs[0].amount, 1000);
    assert_eq!(psbt.outputs[1].script, vec![0x52]);
    assert_eq!(psbt.outputs[1].amount, 1800);
}

#[test]
fn build_tx_without_cover_is_insufficient_funds() {
    let w = wallet_with(vec![utxo("a", 500, KeychainKind::External, "f00dbabe", true)]);
    let recipients = vec![Recipient { script: vec![0x51], amount: 1000 }];
    let r = w.build_tx(&recipients, &vec![0x52], 0);
    assert_eq!(r.unwrap_err(), TxError::InsufficientFunds);
}

#[test]
fn drain_spends_everything_minus_fee() {
    let w = wallet_with(vec![
        utxo("a", 3000, KeychainKind::External, "f00dbabe", true),
        utxo("b", 2000, KeychainKind::Internal, "f00dbabe", true),
    ]);
    let psbt = w.build_drain_tx(&vec![0x53], 250).unwrap();
    assert_eq!(psbt.inputs.len(), 2);
    assert_eq!(psbt.outputs.len(), 1);
    assert_eq!(psbt.outputs[0].amount, 4750);
    assert_eq!(psbt.outputs[0].script, vec![0x53]);
    assert_eq!(
        w.build_drain_tx(&vec![0x53], 6000).unwrap_err(),
        TxError::InsufficientFunds
    );
}

#[test]
fn two_disjoint_signers_fully_sign_in_one_pass() {
    let mut w = wallet_with(vec![
        utxo("a", 3000, KeychainKind::External, "11111111", true),
        utxo("b", 2000, KeychainKind::External, "22222222", true),
    ]);
    w.add_signer(
        KeychainKind::External,
        SignerEntry { id: 1, fingerprint: "11111111".to_owned(), ordering: 100 },
    );
    w.add_signer(
        KeychainKind::External,
        SignerEntry { id: 2, fingerprint: "22222222".to_owned(), ordering: 100 },
    );
    let mut psbt = w.build_drain_tx(&vec![0x53], 100).unwrap();
    let done = w.sign(&mut psbt);
    assert!(done);
    assert_eq!(psbt.inputs[0].signature, Some(1));
    assert_eq!(psbt.inputs[1].signature, Some(2));
    let tx: FinalTx = finalize(&psbt).unwrap();
    // The extracted transaction spends all selected inputs and pays the one
    // drain output, minus the fee.
    assert_eq!(tx.inputs.len(), 2);
    assert_eq!(tx.inputs[0].0, "a");
    assert_eq!(tx.inputs[1].0, "b");
    assert_eq!(tx.outputs.len(), 1);
    assert_eq!(tx.outputs[0].amount, 4900);
}

#[test]
fn unmatched_inputs_leave_finalization_incomplete() {
    let mut w = wallet_with(vec![utxo("a", 3000, KeychainKind::External, "11111111", true)]);
    w.add_signer(
        KeychainKind::External,
        SignerEntry { id: 9, fingerprint: "99999999".to_owned(), ordering: 100 },
    );
    let mut psbt = w.build_drain_tx(&vec![0x53], 100).unwrap();
    let done = w.sign(&mut psbt);
    assert!(!done);
    assert_eq!(psbt.inputs[0].signature, None);
    assert_eq!(finalize(&psbt).unwrap_err(), TxError::IncompleteSignatures);
}

#[test]
fn signing_twice_finalizes_to_the_same_transaction() {
    let mut w = wallet_with(vec![
        utxo("a", 3000, KeychainKind::External, "11111111", true),
        utxo("b", 2000, KeychainKind::Internal, "11111111", true),
    ]);
    w.add_signer(
        KeychainKind::External,
        SignerEntry { id: 1, fingerprint: "11111111".to_owned(), ordering: 100 },
    );
    w.add_signer(
        KeychainKind::Internal,
        SignerEntry { id: 1, fingerprint: "11111111".to_owned(), ordering: 100 },
    );
    let mut once = w.build_drain_tx(&vec![0x53], 100).unwrap();
    assert!(w.sign(&mut once));
    let mut twice = w.build_drain_tx(&vec![0x53], 100).unwrap();
    assert!(w.sign(&mut twice));
    assert!(w.sign(&mut twice));
    let t1 = finalize(&once).unwrap();
    let t2 = finalize(&twice).unwrap();
    assert_eq!(t1.inputs, t2.inputs);
    assert_eq!(t1.outputs.len(), t2.outputs.len());
    assert_eq!(t1.outputs[0].amount, t2.outputs[0].amount);
    assert_eq!(t1.outputs[0].script, t2.outputs[0].script);
}

#[test]
fn signers_are_invoked_in_descending_priority() {
    let mut reg = SignerRegistry::new();
    reg.register(SignerEntry { id: 1, fingerprint: "aaaaaaaa".to_owned(), ordering: 10 });
    reg.register(SignerEntry { id: 2, fingerprint: "aaaaaaaa".to_owned(), ordering: 200 });
    reg.register(SignerEntry { id: 3, fingerprint: "bbbbbbbb".to_owned(), ordering: 50 });
    // The highest-priority matching capability wins.
    assert_eq!(reg.first_match(&"aaaaaaaa".to_owned()), Some(2));
    assert_eq!(reg.first_match(&"bbbbbbbb".to_owned()), Some(3));
    assert_eq!(reg.first_match(&"cccccccc".to_owned()), None);
    assert_eq!(reg.entries.len(), 3);
    assert_eq!(reg.entries[0].ordering, 200);
    assert_eq!(reg.entries[1].ordering, 50);
    assert_eq!(reg.entries[2].ordering, 10);
}

#[test]
fn full_watchonly_scenario_from_generated_backup() {
    // Generate a backup for the test network and confirm the descriptor's
    // shape: the supported template tag and the fixed hardened account path.
    let rec = WalletBackupData::generate_bip84(&Network::Regtest).unwrap();
    assert!(rec.verify().is_ok());
    let fp = rec.get_fingerprint().unwrap();
    let ext = descriptor_string(&rec.descriptors[0].0);
    assert!(ext.starts_with("wpkh("));
    let origin_path = match &rec.descriptors[0].0 {
        Descriptor::Wpkh(k) => render_path(&k.origin_path),
        Descriptor::Pkh(_) => panic!("unexpected template"),
    };
    assert_eq!(origin_path, render_path(&account_path(&Network::Regtest)));

    // Fund the watch-only wallet, drain everything to a known script, sign
    // with the one registered capability, finalize, and extract.
    let (external, internal) = (
        rec.descriptors[0].0.clone(),
        rec.descriptors[0].1.clone(),
    );
    let mut w = WatchOnlyWallet::new(external, internal, Network::Regtest);
    w.apply_sync(vec![
        utxo("coin0", 50_000, KeychainKind::External, fp.as_str(), true),
        utxo("coin1", 25_000, KeychainKind::External, fp.as_str(), true),
    ]);
    w.add_signer(
        KeychainKind::External,
        SignerEntry { id: 7, fingerprint: fp.clone(), ordering: 100 },
    );
    let mut psbt: Psbt = w.build_drain_tx(&vec![0x00, 0x14], 500).unwrap();
    assert!(w.sign(&mut psbt));
    let tx = finalize(&psbt).unwrap();
    assert_eq!(tx.inputs.len(), 2);
    assert_eq!(tx.outputs.len(), 1);
    assert_eq!(tx.outputs[0].amount, 50_000 + 25_000 - 500);
}
