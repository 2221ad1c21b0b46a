use vstd::prelude::*;

pub mod bip32;
pub mod descriptor;
pub mod wallet_backup;
pub mod backup_codec;
pub mod signer;
pub mod watchonly;
pub(crate) mod bdk_bridge;

verus! {

/// Which sub-chain of a wallet a descriptor or signer serves: the external
/// (receive) chain or the internal (change) chain.
#[derive(Clone, Copy, Debug, PartialEq, Eq, Structural)]
pub enum KeychainKind {
    External,
    Internal,
}

impl KeychainKind {
    /// The non-hardened child index that selects this sub-chain.
    pub open spec fn spec_child_index(self) -> u32 {
        match self {
            KeychainKind::External => 0,
            KeychainKind::Internal => 1,
        }
    }

    pub fn child_index(&self) -> (r: u32)
        ensures
            r == self.spec_child_index(),
    {
        match self {
            KeychainKind::External => 0,
            KeychainKind::Internal => 1,
        }
    }
}

/// The networks a wallet can operate on.
#[derive(Clone, Copy, Debug, PartialEq, Eq, Structural)]
pub enum Network {
    Bitcoin,
    Testnet,
    Signet,
    Regtest,
}

impl Network {
    /// A small integer tag, used to state that results of outside calls depend
    /// on the chosen network.
    pub open spec fn spec_tag(self) -> u32 {
        match self {
            Network::Bitcoin => 0,
            Network::Testnet => 1,
            Network::Signet => 2,
            Network::Regtest => 3,
        }
    }

    /// The hardened coin-type level of the account derivation path: 0 on the
    /// main network, 1 on every test network.
    pub open spec fn spec_coin_type(self) -> u32 {
        match self {
            Network::Bitcoin => 0,
            _ => 1,
        }
    }

    pub fn coin_type(&self) -> (r: u32)
        ensures
            r == self.spec_coin_type(),
    {
        match self {
            Network::Bitcoin => 0,
            _ => 1,
        }
    }
}

/// Fresh seed material turned into a master extended private key for the
/// network, in base58 form. The result is random: only its well-formedness is
/// promised.
pub fn generate_random_ext_privkey(network: &Network) -> (r: Option<String>)
    ensures
        r matches Some(k) ==> bdk_bridge::spec_xprv_parses(k@) && descriptor::text_is_key(k@),
{
    bdk_bridge::bdk_fresh_master_xprv(network, "Random password")
}

/// The BIP84 template pair of a private derivable key: one template for the
/// external sub-chain and one for the internal.
pub fn get_bip84_templates(xprv: &str) -> (r: (descriptor::Bip84, descriptor::Bip84))
    ensures
        r.0.key@ == xprv@ && r.0.keychain == KeychainKind::External,
        r.1.key@ == xprv@ && r.1.keychain == KeychainKind::Internal,
{
    (
        descriptor::Bip84 { key: xprv.to_owned(), keychain: KeychainKind::External },
        descriptor::Bip84 { key: xprv.to_owned(), keychain: KeychainKind::Internal },
    )
}

/// The BIP84 public template pair of an account extended public key and the
/// master fingerprint: external and internal, sharing key and origin.
pub fn get_bip84_public_descriptor_templates(xpub: &str, master_fingerprint: &str) -> (r: (
    descriptor::Bip84Public,
    descriptor::Bip84Public,
))
    ensures
        r.0.xpub@ == xpub@ && r.0.fingerprint@ == master_fingerprint@ && r.0.keychain
            == KeychainKind::External,
        r.1.xpub@ == xpub@ && r.1.fingerprint@ == master_fingerprint@ && r.1.keychain
            == KeychainKind::Internal,
{
    (
        descriptor::Bip84Public {
            xpub: xpub.to_owned(),
            fingerprint: master_fingerprint.to_owned(),
            keychain: KeychainKind::External,
        },
        descriptor::Bip84Public {
            xpub: xpub.to_owned(),
            fingerprint: master_fingerprint.to_owned(),
            keychain: KeychainKind::Internal,
        },
    )
}

/// The deterministic wallet name of a master key, as bdk's
/// `wallet_name_from_descriptor` computes it. The network is fixed to
/// regression test here; the name depends on the network, and
/// `WalletBackupData::get_wallet_name` takes it as a parameter.
pub fn get_wallet_name(master_xprv: &str) -> (r: Option<String>)
    ensures
        match r {
            Some(n) => bdk_bridge::spec_wallet_name_of(master_xprv@, Network::Regtest.spec_tag())
                == Some(n@),
            None => bdk_bridge::spec_wallet_name_of(master_xprv@, Network::Regtest.spec_tag())
                is None,
        },
{
    bdk_bridge::bdk_wallet_name(master_xprv, &Network::Regtest)
}

} // verus!
