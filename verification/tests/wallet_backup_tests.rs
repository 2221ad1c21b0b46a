use wallet_operation_test::Network;
use wallet_operation_test::bip32::parse_path;
use wallet_operation_test::bip32::render_path;
use wallet_operation_test::bip32::account_path;
use wallet_operation_test::bip32::derive_priv;
use wallet_operation_test::bip32::derive_pub;
use wallet_operation_test::bip32::ChildStep;
use wallet_operation_test::bip32::DerivationError;
use wallet_operation_test::descriptor::descriptor_string;
use wallet_operation_test::descriptor::descriptor_string_with_checksum;
use wallet_operation_test::descriptor::Descriptor;
use wallet_operation_test::descriptor::DescriptorKey;
use wallet_operation_test::wallet_backup::WalletBackupData;
use wallet_operation_test::wallet_backup::WalletBackupError;
use wallet_operation_test::backup_codec::SerializationError;
use wallet_operation_test::KeychainKind;
use wallet_operation_test::generate_random_ext_privkey;
use wallet_operation_test::get_wallet_name;
use std::str::FromStr;

fn generated() -> WalletBackupData {
    WalletBackupData::generate_bip84(&Network::Regtest).expect("generation should succeed")
}

#[test]
fn generate_produces_verifiable_backup() {
    let rec = generated();
    assert!(rec.verify().is_ok());
}

#[test]
fn generate_produces_exactly_one_full_descriptor_pair() {
    let rec = generated();
    assert_eq!(rec.descriptors.len(), 1);
    assert!(rec.descriptors[0].1.is_some());
}

#[test]
fn swapped_master_key_fails_verification() {
    let rec1 = generated();
    let rec2 = generated();
    assert_ne!(
        rec1.get_fingerprint().unwrap(),
        rec2.get_fingerprint().unwrap(),
        "two fresh keys share a fingerprint"
    );
    let swapped = WalletBackupData {
        wif: rec2.wif,
        descriptors: rec1.descriptors,
        wallet_name: rec1.wallet_name,
    };
    assert_eq!(swapped.verify(), Err(WalletBackupError::NoOriginFingerprint));
}

#[test]
fn serialize_deserialize_round_trip() {
    let rec = generated();
    let wire = rec.serialize();
    let back = WalletBackupData::deserialize(wire.as_str()).expect("round trip should parse");
    assert_eq!(back.wif, rec.wif);
    assert_eq!(back.wallet_name, rec.wallet_name);
    assert_eq!(back.descriptors.len(), rec.descriptors.len());
    assert_eq!(
        descriptor_string(&back.descriptors[0].0),
        descriptor_string(&rec.descriptors[0].0)
    );
    assert_eq!(
        descriptor_string(back.descriptors[0].1.as_ref().unwrap()),
        descriptor_string(rec.descriptors[0].1.as_ref().unwrap())
    );
    assert_eq!(back.serialize(), wire);
}

#[test]
fn absent_name_is_recomputed_to_the_same_value() {
    let rec = generated();
    let original_name = rec.wallet_name.clone().unwrap();
    let stripped = WalletBackupData {
        wif: rec.wif.clone(),
        descriptors: rec.descriptors,
        wallet_name: None,
    };
    let wire = stripped.serialize();
    assert!(!wire.contains("wallet_name"));
    let mut back = WalletBackupData::deserialize(wire.as_str()).unwrap();
    assert_eq!(back.wallet_name, None);
    let recomputed = back.get_wallet_name(&Network::Regtest).unwrap();
    assert_eq!(recomputed, original_name);
    // The name is memoized: asking again returns the cached value.
    assert_eq!(back.get_wallet_name(&Network::Regtest).unwrap(), recomputed);
    assert_eq!(back.wallet_name, Some(original_name));
}

#[test]
fn null_internal_descriptor_round_trips() {
    let rec = generated();
    let lone = WalletBackupData {
        wif: rec.wif,
        descriptors: vec![(rec.descriptors.into_iter().next().unwrap().0, None)],
        wallet_name: None,
    };
    let wire = lone.serialize();
    assert!(wire.contains("null"));
    let back = WalletBackupData::deserialize(wire.as_str()).unwrap();
    assert!(back.descriptors[0].1.is_none());
}

#[test]
fn pkh_descriptor_is_rejected_as_unsupported() {
    let rec = generated();
    let key = match &rec.descriptors[0].0 {
        Descriptor::Wpkh(k) => DescriptorKey {
            origin_fingerprint: k.origin_fingerprint.clone(),
            origin_path: k.origin_path.clone(),
            xkey: k.xkey.clone(),
            keychain: k.keychain,
        },
        Descriptor::Pkh(_) => panic!("generated descriptor should be wpkh"),
    };
    let legacy = WalletBackupData {
        wif: rec.wif,
        descriptors: vec![(Descriptor::Pkh(key), None)],
        wallet_name: None,
    };
    assert_eq!(legacy.verify(), Err(WalletBackupError::UnsupportedDescriptorType));
    // And it survives its own wire format.
    let wire = legacy.serialize();
    assert!(wire.contains("pkh(["));
    let back = WalletBackupData::deserialize(wire.as_str()).unwrap();
    assert_eq!(back.verify(), Err(WalletBackupError::UnsupportedDescriptorType));
}

#[test]
fn malformed_backups_are_rejected() {
    for bad in [
        "",
        "{}",
        "garbage",
        "{\"wif\":\"\",\"descriptors\":[]}",
        "{\"wif\":\"abc\",\"descriptors\":[}",
        "{\"wif\":\"abc\",\"descriptors\":[]",
    ] {
        assert!(
            matches!(
                WalletBackupData::deserialize(bad),
                Err(SerializationError::Malformed)
            ),
            "accepted: {bad}"
        );
    }
}

#[test]
fn derivation_is_deterministic() {
    let wif = generate_random_ext_privkey(&Network::Regtest).unwrap();
    let path = account_path(&Network::Regtest);
    let a = derive_priv(wif.as_str(), &path).unwrap();
    let b = derive_priv(wif.as_str(), &path).unwrap();
    assert_eq!(a, b);
    let rec = WalletBackupData {
        wif: wif.clone(),
        descriptors: vec![],
        wallet_name: None,
    };
    assert_eq!(rec.get_fingerprint().unwrap(), rec.get_fingerprint().unwrap());
}

#[test]
fn hardened_public_derivation_is_refused() {
    let path = account_path(&Network::Regtest);
    let err = derive_pub("tpubDoesNotMatter", &path).unwrap_err();
    assert_eq!(err, DerivationError::PublicDerivationUnsupported);
}

#[test]
fn paths_render_and_parse() {
    let path = account_path(&Network::Bitcoin);
    let text = render_path(&path);
    assert_eq!(text, "m/84'/0'/0'");
    let parsed = parse_path(text.as_str()).unwrap();
    assert_eq!(parsed.len(), 3);
    assert_eq!(parsed[0], ChildStep { index: 84, hardened: true });
    assert_eq!(parsed[1], ChildStep { index: 0, hardened: true });
    assert_eq!(parsed[2], ChildStep { index: 0, hardened: true });
    assert_eq!(parse_path("m").unwrap().len(), 0);
    let mixed = parse_path("m/84'/1/2").unwrap();
    assert_eq!(render_path(&mixed), "m/84'/1/2");
    assert_eq!(parse_path(""), Err(DerivationError::InvalidPath));
    assert_eq!(parse_path("84'/0'"), Err(DerivationError::InvalidPath));
    assert_eq!(parse_path("m/"), Err(DerivationError::InvalidPath));
    assert_eq!(parse_path("m/015"), Err(DerivationError::InvalidPath));
}

#[test]
fn generated_descriptor_has_expected_shape() {
    let rec = generated();
    let ext = descriptor_string(&rec.descriptors[0].0);
    let fp = rec.get_fingerprint().unwrap();
    assert!(ext.starts_with("wpkh(["));
    // Regtest uses coin type 1 in the hardened account path.
    assert!(ext.contains(&format!("[{fp}/84'/1'/0']")));
    assert!(ext.ends_with("/0/*)"));
    let int = descriptor_string(rec.descriptors[0].1.as_ref().unwrap());
    assert!(int.ends_with("/1/*)"));
}

#[test]
fn descriptor_checksum_matches_descriptor_tooling() {
    let rec = generated();
    let with_checksum = descriptor_string_with_checksum(&rec.descriptors[0].0).unwrap();
    let body = descriptor_string(&rec.descriptors[0].0);
    assert!(with_checksum.starts_with(&body));
    assert_eq!(with_checksum.len(), body.len() + 9);
    assert_eq!(with_checksum.as_bytes()[body.len()], b'#');
    // The descriptor library accepts the rendered text and agrees on the
    // checksum, so rendering really is the canonical descriptor form.
    let parsed = bdk::miniscript::Descriptor::<bdk::miniscript::DescriptorPublicKey>::from_str(
        with_checksum.as_str(),
    )
    .expect("descriptor tooling should accept the rendered text");
    assert_eq!(parsed.to_string(), with_checksum);
}

#[test]
fn error_messages_read_as_expected() {
    assert_eq!(
        WalletBackupError::UnsupportedDescriptorType.message(),
        "The wallet only supports wpkh descriptor"
    );
    assert_eq!(
        WalletBackupError::NoOriginFingerprint.message(),
        "origin fingerprint not found on descriptor"
    );
}

#[test]
fn wallet_name_matches_descriptor_tooling() {
    let wif = generate_random_ext_privkey(&Network::Regtest).unwrap();
    let name = get_wallet_name(wif.as_str()).unwrap();
    // bdk derives the name from the descriptor checksums: two checksums of
    // eight characters each.
    assert_eq!(name.len(), 16);
    let again = get_wallet_name(wif.as_str()).unwrap();
    assert_eq!(name, again);
    assert_eq!(KeychainKind::External.child_index(), 0);
    assert_eq!(KeychainKind::Internal.child_index(), 1);
}

#[test]
fn wire_format_is_exactly_the_expected_json() {
    let rec = WalletBackupData {
        wif: "k".to_owned(),
        descriptors: vec![],
        wallet_name: Some("n".to_owned()),
    };
    assert_eq!(
        rec.serialize(),
        "{\"wif\":\"k\",\"descriptors\":[],\"wallet_name\":\"n\"}"
    );
    let back = WalletBackupData::deserialize(rec.serialize().as_str()).unwrap();
    assert_eq!(back.wif, "k");
    assert_eq!(back.descriptors.len(), 0);
    assert_eq!(back.wallet_name, Some("n".to_owned()));

    let nameless = WalletBackupData { wif: "k".to_owned(), descriptors: vec![], wallet_name: None };
    assert_eq!(nameless.serialize(), "{\"wif\":\"k\",\"descriptors\":[]}");
}

#[test]
fn derivation_depth_limit_is_enforced() {
    let wif = generate_random_ext_privkey(&Network::Regtest).unwrap();
    // A fresh master key sits at depth 0: 255 further levels are the most an
    // extended key can encode, and one more is refused rather than derived.
    let mut fit: Vec<ChildStep> = Vec::new();
    for i in 0..255u32 {
        fit.push(ChildStep { index: i % 10, hardened: false });
    }
    assert!(derive_priv(wif.as_str(), &fit).is_ok());
    let mut deep = fit.clone();
    deep.push(ChildStep { index: 0, hardened: false });
    assert_eq!(derive_priv(wif.as_str(), &deep), Err(DerivationError::InvalidKey));
}
