//! The only place where the library touches bdk (and, for two small helpers,
//! parts of std that vstd gives no specification to). Every function here is
//! trusted: Verus believes the stated contract and does not look at the body.
//! Each body only makes the outside call and converts its arguments and result.
use vstd::prelude::*;

use crate::Network;
use crate::descriptor::checksum_safe_char;
use crate::descriptor::fingerprint_wf;
use crate::descriptor::text_is_key;
use std::str::FromStr;

verus! {

/// Whether bdk's `ExtendedPrivKey::from_str` accepts this base58 text.
pub uninterp spec fn spec_xprv_parses(s: Seq<char>) -> bool;

/// The base58 form of the extended private key that bdk's
/// `ExtendedPrivKey::derive_priv` derives from the given key at the given
/// path, or `None` where parsing or derivation fails or where the derivation
/// would pass the 255-level depth limit of extended keys. Derivation is a
/// pure function of the key and the path.
pub uninterp spec fn spec_derived_xprv(s: Seq<char>, path: Seq<char>) -> Option<Seq<char>>;

/// The base58 form of the extended public key that bdk's
/// `ExtendedPubKey::derive_pub` derives from the given key at the given
/// (fully non-hardened) path, or `None` where parsing or derivation fails or
/// where the derivation would pass the 255-level depth limit.
pub uninterp spec fn spec_derived_xpub(s: Seq<char>, path: Seq<char>) -> Option<Seq<char>>;

/// The base58 form of the extended public key corresponding to an extended
/// private key, per bdk's `ExtendedPubKey::from_priv`.
pub uninterp spec fn spec_xpub_of(s: Seq<char>) -> Seq<char>;

/// The fingerprint of an extended private key's public key, as the eight
/// lowercase hex digits that bdk's `Fingerprint` displays as.
pub uninterp spec fn spec_fingerprint_of(s: Seq<char>) -> Seq<char>;

/// The deterministic wallet name that bdk's `wallet_name_from_descriptor`
/// computes for the BIP84 descriptor pair of this key on this network
/// (`None` where the key does not parse or the name computation fails).
pub uninterp spec fn spec_wallet_name_of(s: Seq<char>, network_tag: u32) -> Option<Seq<char>>;

/// The descriptor checksum that miniscript's `desc_checksum` computes.
pub uninterp spec fn spec_checksum_of(s: Seq<char>) -> Seq<char>;

/// Relies on bdk's `Mnemonic::generate` (12 English words), on
/// `DerivableKey::into_extended_key` for a mnemonic plus passphrase, and on
/// `ExtendedKey::into_xprv`: a freshly generated mnemonic converts to a master
/// extended private key whose base58 form parses back (base58 text: letters
/// and digits). The result is random, so nothing more is promised of it.
#[verifier::external_body]
pub(crate) fn bdk_fresh_master_xprv(network: &Network, passphrase: &str) -> (r: Option<String>)
    ensures
        r matches Some(k) ==> spec_xprv_parses(k@) && text_is_key(k@),
{
    let words = (bdk::keys::bip39::WordCount::Words12, bdk::keys::bip39::Language::English);
    let mnemonic: bdk::keys::GeneratedKey<bdk::keys::bip39::Mnemonic, bdk::miniscript::Segwitv0> =
        bdk::keys::GeneratableKey::generate(words).ok()?;
    let seed = (mnemonic, Some(passphrase.to_string()));
    let xkey: bdk::keys::ExtendedKey<bdk::miniscript::Segwitv0> =
        bdk::keys::DerivableKey::into_extended_key(seed).ok()?;
    let net = match network {
        Network::Bitcoin => bdk::bitcoin::Network::Bitcoin,
        Network::Testnet => bdk::bitcoin::Network::Testnet,
        Network::Signet => bdk::bitcoin::Network::Signet,
        Network::Regtest => bdk::bitcoin::Network::Regtest,
    };
    Some(xkey.into_xprv(net)?.to_string())
}

/// Relies on bdk's `ExtendedPrivKey::derive_priv` (and on `from_str` for the
/// key and `DerivationPath::from_str` for the path): hierarchical private
/// derivation, a deterministic function of key and path. The depth guard
/// refuses derivations that would overflow the key's one-byte depth counter,
/// which `derive_priv` increments unchecked. A derived key serializes to a
/// base58 form (letters and digits) that parses back.
#[verifier::external_body]
pub(crate) fn bdk_derive_xprv(xprv: &str, path: &str) -> (r: Option<String>)
    ensures
        r matches Some(k) ==> spec_derived_xprv(xprv@, path@) == Some(k@) && spec_xprv_parses(k@)
            && text_is_key(k@),
        r is None ==> spec_derived_xprv(xprv@, path@) is None,
{
    let secp = bdk::bitcoin::secp256k1::Secp256k1::new();
    let key = bdk::bitcoin::util::bip32::ExtendedPrivKey::from_str(xprv).ok()?;
    let p = bdk::bitcoin::util::bip32::DerivationPath::from_str(path).ok()?;
    if key.depth as usize + p.as_ref().len() > 255 {
        return None;
    }
    let derived = key.derive_priv(&secp, &p).ok()?;
    Some(derived.to_string())
}

/// Relies on bdk's `ExtendedPubKey::derive_pub` (and on `from_str` for key and
/// path): hierarchical public derivation, a deterministic function of key and
/// path. It fails on hardened steps; callers rule those out before calling.
/// The depth guard refuses derivations that would overflow the key's one-byte
/// depth counter, which `derive_pub` increments unchecked.
#[verifier::external_body]
pub(crate) fn bdk_derive_xpub(xpub: &str, path: &str) -> (r: Option<String>)
    ensures
        r matches Some(k) ==> spec_derived_xpub(xpub@, path@) == Some(k@),
        r is None ==> spec_derived_xpub(xpub@, path@) is None,
{
    let secp = bdk::bitcoin::secp256k1::Secp256k1::new();
    let key = bdk::bitcoin::util::bip32::ExtendedPubKey::from_str(xpub).ok()?;
    let p = bdk::bitcoin::util::bip32::DerivationPath::from_str(path).ok()?;
    if key.depth as usize + p.as_ref().len() > 255 {
        return None;
    }
    let derived = key.derive_pub(&secp, &p).ok()?;
    Some(derived.to_string())
}

/// Relies on bdk's `ExtendedPubKey::from_priv`: the public counterpart of an
/// extended private key, total for every key that parses, serialized in
/// base58 (letters and digits).
#[verifier::external_body]
pub(crate) fn bdk_xpub_of_xprv(xprv: &str) -> (r: Option<String>)
    ensures
        r is Some <==> spec_xprv_parses(xprv@),
        r matches Some(p) ==> p@ == spec_xpub_of(xprv@) && text_is_key(p@),
{
    let secp = bdk::bitcoin::secp256k1::Secp256k1::new();
    let key = bdk::bitcoin::util::bip32::ExtendedPrivKey::from_str(xprv).ok()?;
    let xpub = bdk::bitcoin::util::bip32::ExtendedPubKey::from_priv(&secp, &key);
    Some(xpub.to_string())
}

/// Relies on bdk's `ExtendedPrivKey::fingerprint`: the four-byte fingerprint
/// of the key's public key, displayed as eight lowercase hex digits.
#[verifier::external_body]
pub(crate) fn bdk_master_fingerprint(xprv: &str) -> (r: Option<String>)
    ensures
        r is Some <==> spec_xprv_parses(xprv@),
        r matches Some(f) ==> f@ == spec_fingerprint_of(xprv@) && fingerprint_wf(f@),
{
    let secp = bdk::bitcoin::secp256k1::Secp256k1::new();
    let key = bdk::bitcoin::util::bip32::ExtendedPrivKey::from_str(xprv).ok()?;
    Some(key.fingerprint(&secp).to_string())
}

/// Relies on bdk's `wallet_name_from_descriptor` applied to the two `Bip84`
/// templates of the key: a deterministic, checksum-derived name for the
/// wallet that the key and network define, written in the checksum's
/// alphanumeric alphabet. The depth guard refuses keys so deep that deriving
/// the three account levels inside the name computation would overflow the
/// one-byte depth counter.
#[verifier::external_body]
pub(crate) fn bdk_wallet_name(xprv: &str, network: &Network) -> (r: Option<String>)
    ensures
        r matches Some(n) ==> spec_wallet_name_of(xprv@, network.spec_tag()) == Some(n@)
            && text_is_key(n@),
        r is None ==> spec_wallet_name_of(xprv@, network.spec_tag()) is None,
{
    let secp = bdk::bitcoin::secp256k1::Secp256k1::new();
    let key = bdk::bitcoin::util::bip32::ExtendedPrivKey::from_str(xprv).ok()?;
    if key.depth > 251 {
        return None;
    }
    let net = match network {
        Network::Bitcoin => bdk::bitcoin::Network::Bitcoin,
        Network::Testnet => bdk::bitcoin::Network::Testnet,
        Network::Signet => bdk::bitcoin::Network::Signet,
        Network::Regtest => bdk::bitcoin::Network::Regtest,
    };
    let external = bdk::template::Bip84(key, bdk::KeychainKind::External);
    let internal = Some(bdk::template::Bip84(key, bdk::KeychainKind::Internal));
    bdk::wallet::wallet_name_from_descriptor(external, internal, net, &secp).ok()
}

/// Relies on bdk's `calc_checksum`: the eight-character checksum that
/// descriptor text carries after `#`, a deterministic function of the text.
/// It succeeds on any text of printable ASCII that holds no `#` (its input
/// charset is exactly printable ASCII, and a `#` makes it treat the rest as
/// a checksum to check against).
#[verifier::external_body]
pub(crate) fn bdk_descriptor_checksum(s: &str) -> (r: Option<String>)
    ensures
        r matches Some(c) ==> c@ == spec_checksum_of(s@) && c@.len() == 8,
        (forall|i: int| 0 <= i < s@.len() ==> checksum_safe_char(#[trigger] s@[i])) ==> r is Some,
{
    bdk::descriptor::checksum::calc_checksum(s).ok()
}

/// Relies on `str::chars`: the characters of a string slice, in order.
#[verifier::external_body]
pub(crate) fn string_chars(s: &str) -> (r: Vec<char>)
    ensures
        r@ == s@,
{
    s.chars().collect()
}

/// Relies on `FromIterator<char> for String`: the string holding exactly
/// these characters, in order.
#[verifier::external_body]
pub(crate) fn chars_string(v: &Vec<char>) -> (r: String)
    ensures
        r@ == v@,
{
    v.iter().collect()
}

} // verus!
