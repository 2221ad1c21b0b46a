//! The wallet backup record: the master extended private key, the descriptor
//! pairs derived from it, and a cached wallet name. A record can be generated
//! fresh, verified against its own master key, and asked for its name.
use vstd::prelude::*;

use crate::KeychainKind;
use crate::Network;
use crate::bdk_bridge;
use crate::bdk_bridge::spec_derived_xprv;
use crate::bdk_bridge::spec_fingerprint_of;
use crate::bdk_bridge::spec_wallet_name_of;
use crate::bdk_bridge::spec_xprv_parses;
use crate::bdk_bridge::spec_xpub_of;
use crate::bip32::account_path;
use crate::bip32::spec_account_path;
use crate::bip32::spec_render_path;
use crate::descriptor::Bip84Public;
use crate::descriptor::Descriptor;
use crate::descriptor::DescriptorView;
use crate::descriptor::desc_wf;
use crate::descriptor::spec_bip84_descriptor;
use crate::descriptor::text_is_key;

verus! {

/// Why a backup record failed verification.
#[derive(Clone, Copy, Debug, PartialEq, Eq, Structural)]
pub enum WalletBackupError {
    /// No key inside a descriptor carries the master key's fingerprint.
    NoOriginFingerprint,
    /// A descriptor uses a script template other than the supported one.
    UnsupportedDescriptorType,
}

impl WalletBackupError {
    /// A human-readable description of the failure.
    pub fn message(&self) -> (r: String)
        ensures
            *self is UnsupportedDescriptorType ==> r@ == "The wallet only supports wpkh descriptor"@,
            *self is NoOriginFingerprint ==> r@ == "origin fingerprint not found on descriptor"@,
    {
        match self {
            WalletBackupError::UnsupportedDescriptorType => {
                "The wallet only supports wpkh descriptor".to_owned()
            },
            WalletBackupError::NoOriginFingerprint => {
                "origin fingerprint not found on descriptor".to_owned()
            },
        }
    }
}

/// Why generating a fresh backup failed.
#[derive(Clone, Copy, Debug, PartialEq, Eq, Structural)]
pub enum GenerateError {
    /// Fresh seed material could not be produced.
    Entropy,
    /// Deriving the account key from the fresh master key failed.
    Derivation,
    /// The wallet name could not be computed.
    NameUnavailable,
}

pub struct WalletBackupDataView {
    pub wif: Seq<char>,
    pub descriptors: Seq<(DescriptorView, Option<DescriptorView>)>,
    pub wallet_name: Option<Seq<char>>,
}

/// Serializable information for recovering the wallet: the master extended
/// private key in its base58 form, the descriptor pairs (external, and
/// optionally internal), and the lazily cached wallet name.
#[derive(Clone, Debug)]
pub struct WalletBackupData {
    pub wif: String,
    pub descriptors: Vec<(Descriptor, Option<Descriptor>)>,
    pub wallet_name: Option<String>,
}

pub open spec fn pair_view(p: (Descriptor, Option<Descriptor>)) -> (
    DescriptorView,
    Option<DescriptorView>,
) {
    (
        p.0@,
        match p.1 {
            Some(d) => Some(d@),
            None => None,
        },
    )
}

impl View for WalletBackupData {
    type V = WalletBackupDataView;

    open spec fn view(&self) -> WalletBackupDataView {
        WalletBackupDataView {
            wif: self.wif@,
            descriptors: self.descriptors@.map_values(
                |p: (Descriptor, Option<Descriptor>)| pair_view(p),
            ),
            wallet_name: match self.wallet_name {
                Some(n) => Some(n@),
                None => None,
            },
        }
    }
}

/// Well-formedness of a record: text fields hold the character classes their
/// wire format uses, and every descriptor is well formed.
pub open spec fn backup_wf(v: WalletBackupDataView) -> bool {
    &&& text_is_key(v.wif)
    &&& forall|i: int|
        0 <= i < v.descriptors.len() ==> desc_wf((#[trigger] v.descriptors[i]).0) && match v
            .descriptors[i].1 {
            Some(c) => desc_wf(c),
            None => true,
        }
    &&& match v.wallet_name {
        Some(n) => text_is_key(n),
        None => true,
    }
}

// ---------------------------------------------------------------------------
// Verification
// ---------------------------------------------------------------------------

/// One descriptor against the master fingerprint: the template must be the
/// supported one, and the embedded key-origin fingerprint must match.
pub open spec fn spec_verify_descriptor(fp: Seq<char>, d: DescriptorView) -> Result<
    (),
    WalletBackupError,
> {
    match d {
        DescriptorView::Wpkh(k) => if k.origin_fingerprint == fp {
            Ok(())
        } else {
            Err(WalletBackupError::NoOriginFingerprint)
        },
        DescriptorView::Pkh(_) => Err(WalletBackupError::UnsupportedDescriptorType),
    }
}

pub open spec fn spec_verify_pair(
    fp: Seq<char>,
    p: (DescriptorView, Option<DescriptorView>),
) -> Result<(), WalletBackupError> {
    match spec_verify_descriptor(fp, p.0) {
        Ok(()) => match p.1 {
            None => Ok(()),
            Some(c) => spec_verify_descriptor(fp, c),
        },
        Err(e) => Err(e),
    }
}

pub open spec fn spec_verify_pairs(
    fp: Seq<char>,
    ps: Seq<(DescriptorView, Option<DescriptorView>)>,
) -> Result<(), WalletBackupError>
    decreases ps.len(),
{
    if ps.len() == 0 {
        Ok(())
    } else {
        match spec_verify_pair(fp, ps[0]) {
            Ok(()) => spec_verify_pairs(fp, ps.skip(1)),
            Err(e) => Err(e),
        }
    }
}

/// What `verify` decides: a record whose master key does not even parse has
/// no derivable fingerprint, so no origin fingerprint can match; otherwise
/// every descriptor of every pair is checked against the master fingerprint,
/// and the first failure is reported.
pub open spec fn spec_verify(v: WalletBackupDataView) -> Result<(), WalletBackupError> {
    if !spec_xprv_parses(v.wif) {
        Err(WalletBackupError::NoOriginFingerprint)
    } else {
        spec_verify_pairs(spec_fingerprint_of(v.wif), v.descriptors)
    }
}

fn verify_descriptor(fp: &String, d: &Descriptor) -> (r: Result<(), WalletBackupError>)
    ensures
        r == spec_verify_descriptor(fp@, d@),
{
    match d {
        Descriptor::Wpkh(k) => {
            if k.origin_fingerprint.eq(fp) {
                Ok(())
            } else {
                Err(WalletBackupError::NoOriginFingerprint)
            }
        },
        Descriptor::Pkh(_) => Err(WalletBackupError::UnsupportedDescriptorType),
    }
}

// ---------------------------------------------------------------------------
// Generation
// ---------------------------------------------------------------------------

/// The account-level extended public key that a master key yields on a
/// network: derive the hardened account path, then take the public
/// counterpart.
pub open spec fn spec_account_xpub(wif: Seq<char>, network: Network) -> Option<Seq<char>> {
    match spec_derived_xprv(wif, spec_render_path(spec_account_path(network))) {
        Some(acct) => Some(spec_xpub_of(acct)),
        None => None,
    }
}

/// The shape of every record `generate_bip84` returns: the master key parses;
/// there is exactly one descriptor pair, external and internal, both built
/// from the account xpub with the master fingerprint as key origin; and the
/// wallet name is the deterministic name of the master key on the network.
pub open spec fn spec_generated_record(v: WalletBackupDataView, network: Network) -> bool {
    &&& spec_xprv_parses(v.wif)
    &&& spec_account_xpub(v.wif, network) matches Some(xpub) && v.descriptors == seq![
        (
            spec_bip84_descriptor(
                xpub,
                spec_fingerprint_of(v.wif),
                KeychainKind::External,
                network,
            ),
            Some(
                spec_bip84_descriptor(
                    xpub,
                    spec_fingerprint_of(v.wif),
                    KeychainKind::Internal,
                    network,
                ),
            ),
        ),
    ]
    &&& v.wallet_name == spec_wallet_name_of(v.wif, network.spec_tag())
    &&& v.wallet_name is Some
}

/// A generated record always passes verification: its descriptors carry
/// exactly the fingerprint recomputed from its master key.
pub proof fn lemma_generate_verifies(v: WalletBackupDataView, network: Network)
    requires
        spec_generated_record(v, network),
    ensures
        spec_verify(v) == Ok::<(), WalletBackupError>(()),
{
    let fp = spec_fingerprint_of(v.wif);
    let xpub = spec_account_xpub(v.wif, network).unwrap();
    assert(v.descriptors[0] == (
        spec_bip84_descriptor(xpub, fp, KeychainKind::External, network),
        Some(spec_bip84_descriptor(xpub, fp, KeychainKind::Internal, network)),
    ));
    assert(spec_verify_descriptor(fp, v.descriptors[0].0) == Ok::<(), WalletBackupError>(()));
    assert(spec_verify_pair(fp, v.descriptors[0]) == Ok::<(), WalletBackupError>(()));
    assert(v.descriptors.skip(1) =~= Seq::<(DescriptorView, Option<DescriptorView>)>::empty());
    assert(spec_verify_pairs(fp, v.descriptors.skip(1)) == Ok::<(), WalletBackupError>(()));
    assert(spec_verify_pairs(fp, v.descriptors) == Ok::<(), WalletBackupError>(()));
}

/// Swapping the master key for an unrelated key (one with a different
/// fingerprint) while keeping the descriptors makes verification fail with
/// `NoOriginFingerprint`.
pub proof fn lemma_swapped_master_key_fails(
    v: WalletBackupDataView,
    w2: Seq<char>,
    network: Network,
)
    requires
        spec_generated_record(v, network),
        spec_xprv_parses(w2),
        spec_fingerprint_of(w2) != spec_fingerprint_of(v.wif),
    ensures
        spec_verify(WalletBackupDataView { wif: w2, ..v }) == Err::<(), WalletBackupError>(
            WalletBackupError::NoOriginFingerprint,
        ),
{
    let v2 = WalletBackupDataView { wif: w2, ..v };
    let fp2 = spec_fingerprint_of(w2);
    let fp = spec_fingerprint_of(v.wif);
    let xpub = spec_account_xpub(v.wif, network).unwrap();
    assert(v2.descriptors[0] == (
        spec_bip84_descriptor(xpub, fp, KeychainKind::External, network),
        Some(spec_bip84_descriptor(xpub, fp, KeychainKind::Internal, network)),
    ));
    assert(spec_verify_descriptor(fp2, v2.descriptors[0].0) == Err::<(), WalletBackupError>(
        WalletBackupError::NoOriginFingerprint,
    ));
    assert(spec_verify_pair(fp2, v2.descriptors[0]) == Err::<(), WalletBackupError>(
        WalletBackupError::NoOriginFingerprint,
    ));
}

impl WalletBackupData {
    /// Verify that the backup can be handled and actually belongs to its
    /// master key: every descriptor must use the supported template and carry
    /// the master key's fingerprint as its key origin.
    pub fn verify(&self) -> (r: Result<(), WalletBackupError>)
        ensures
            r == spec_verify(self@),
    {
        let fp = match bdk_bridge::bdk_master_fingerprint(self.wif.as_str()) {
            None => {
                return Err(WalletBackupError::NoOriginFingerprint);
            },
            Some(f) => f,
        };
        let ghost fpv = spec_fingerprint_of(self@.wif);
        let ghost all = self@.descriptors;
        assert(all.skip(0) =~= all);
        let mut i: usize = 0;
        while i < self.descriptors.len()
            invariant
                0 <= i <= self.descriptors.len(),
                spec_xprv_parses(self@.wif),
                fpv == spec_fingerprint_of(self@.wif),
                fp@ == fpv,
                all == self@.descriptors,
                all.len() == self.descriptors.len(),
                spec_verify_pairs(fpv, all) == spec_verify_pairs(fpv, all.skip(i as int)),
                forall|m: int| 0 <= m < all.len() ==> all[m] == pair_view(
                    #[trigger] self.descriptors@[m],
                ),
            decreases self.descriptors.len() - i,
        {
            let pair = &self.descriptors[i];
            let ghost pv = all[i as int];
            assert(all.skip(i as int)[0] == pv);
            let head = verify_descriptor(&fp, &pair.0);
            let res = match head {
                Ok(()) => {
                    match &pair.1 {
                        None => Ok(()),
                        Some(c) => verify_descriptor(&fp, c),
                    }
                },
                Err(e) => Err(e),
            };
            assert(res == spec_verify_pair(fpv, pv));
            match res {
                Ok(()) => {
                    proof {
                        assert(all.skip(i as int).skip(1) =~= all.skip((i + 1) as int));
                    }
                },
                Err(e) => {
                    proof {
                        assert(all.skip(i as int).len() > 0);
                        assert(spec_verify_pairs(fpv, all.skip(i as int))
                            == Err::<(), WalletBackupError>(e));
                    }
                    return Err(e);
                },
            }
            i = i + 1;
        }
        assert(all.skip(i as int) =~= Seq::<(DescriptorView, Option<DescriptorView>)>::empty());
        Ok(())
    }

    /// Generate a fresh backup: new seed material, the hardened account path
    /// for the network, the external and internal descriptors built from the
    /// account xpub, and the deterministic wallet name.
    pub fn generate_bip84(network: &Network) -> (r: Result<WalletBackupData, GenerateError>)
        ensures
            r matches Ok(rec) ==> {
                &&& spec_generated_record(rec@, *network)
                &&& backup_wf(rec@)
                &&& spec_verify(rec@) == Ok::<(), WalletBackupError>(())
                &&& rec@.descriptors.len() == 1
                &&& rec@.descriptors[0].1 is Some
            },
    {
        let wif = match bdk_bridge::bdk_fresh_master_xprv(network, "Random password") {
            None => {
                return Err(GenerateError::Entropy);
            },
            Some(k) => k,
        };
        let path = account_path(network);
        let acct = match crate::bip32::derive_priv(wif.as_str(), &path) {
            Err(_) => {
                return Err(GenerateError::Derivation);
            },
            Ok(a) => a,
        };
        let xpub = match bdk_bridge::bdk_xpub_of_xprv(acct.as_str()) {
            None => {
                assert(false);
                return Err(GenerateError::Derivation);
            },
            Some(x) => x,
        };
        let fp = match bdk_bridge::bdk_master_fingerprint(wif.as_str()) {
            None => {
                assert(false);
                return Err(GenerateError::Derivation);
            },
            Some(f) => f,
        };
        let name = match bdk_bridge::bdk_wallet_name(wif.as_str(), network) {
            None => {
                return Err(GenerateError::NameUnavailable);
            },
            Some(n) => n,
        };
        let ext = Bip84Public {
            xpub: xpub.clone(),
            fingerprint: fp.clone(),
            keychain: KeychainKind::External,
        }.build(network);
        let chg = Bip84Public {
            xpub,
            fingerprint: fp,
            keychain: KeychainKind::Internal,
        }.build(network);
        let mut descriptors: Vec<(Descriptor, Option<Descriptor>)> = Vec::new();
        descriptors.push((ext, Some(chg)));
        let rec = WalletBackupData { wif, descriptors, wallet_name: Some(name) };
        proof {
            assert(rec@.descriptors =~= seq![
                (
                    spec_bip84_descriptor(
                        spec_account_xpub(rec@.wif, *network).unwrap(),
                        spec_fingerprint_of(rec@.wif),
                        KeychainKind::External,
                        *network,
                    ),
                    Some(
                        spec_bip84_descriptor(
                            spec_account_xpub(rec@.wif, *network).unwrap(),
                            spec_fingerprint_of(rec@.wif),
                            KeychainKind::Internal,
                            *network,
                        ),
                    ),
                ),
            ]);
            lemma_generate_verifies(rec@, *network);
        }
        Ok(rec)
    }

    /// The cached wallet name, computed and memoized on first use: once the
    /// name is present it is returned unchanged, and the rest of the record
    /// is never touched.
    pub fn get_wallet_name(&mut self, network: &Network) -> (r: Option<String>)
        ensures
            final(self).wif == old(self).wif,
            final(self).descriptors == old(self).descriptors,
            match old(self).wallet_name {
                Some(n) => {
                    &&& r matches Some(rn) && rn@ == n@
                    &&& final(self).wallet_name == old(self).wallet_name
                },
                None => match spec_wallet_name_of(old(self).wif@, network.spec_tag()) {
                    Some(w) => {
                        &&& r matches Some(rn) && rn@ == w
                        &&& final(self).wallet_name matches Some(sn) && sn@ == w
                    },
                    None => r is None && final(self).wallet_name is None,
                },
            },
    {
        if self.wallet_name.is_some() {
            let n = self.wallet_name.as_ref().unwrap();
            return Some(n.clone());
        }
        match bdk_bridge::bdk_wallet_name(self.wif.as_str(), network) {
            None => None,
            Some(n) => {
                let out = n.clone();
                self.wallet_name = Some(n);
                Some(out)
            },
        }
    }

    /// The fingerprint of the master key, as eight lowercase hex digits;
    /// `None` exactly when the master key text does not parse.
    pub fn get_fingerprint(&self) -> (r: Option<String>)
        ensures
            r is Some <==> spec_xprv_parses(self.wif@),
            r matches Some(f) ==> f@ == spec_fingerprint_of(self.wif@),
    {
        bdk_bridge::bdk_master_fingerprint(self.wif.as_str())
    }
}

} // verus!
