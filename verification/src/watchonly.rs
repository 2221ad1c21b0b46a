//! The watch-only wallet and its transaction pipeline. The wallet holds only
//! public descriptors and the unspent outputs the synchronization
//! collaborator reports; a transaction session walks build, partial sign,
//! finalize, and extract stages, with signatures contributed by the signer
//! registries.
use vstd::prelude::*;

use crate::KeychainKind;
use crate::Network;
use crate::descriptor::Descriptor;
use crate::signer::SignerEntry;
use crate::signer::SignerEntryView;
use crate::signer::SignerRegistry;
use crate::signer::insert_pos;
use crate::signer::registry_ordered;
use crate::signer::spec_first_match;
use crate::signer::lemma_first_match_none;

verus! {

/// Errors of the transaction pipeline.
#[derive(Clone, Copy, Debug, PartialEq, Eq, Structural)]
pub enum TxError {
    /// No selection of unspent outputs covers the outputs plus fee.
    InsufficientFunds,
    /// An input still lacks its required signature at finalization.
    IncompleteSignatures,
}

/// An unspent output the wallet can spend: its outpoint, value, which
/// sub-chain its address belongs to, whether it is confirmed, and the
/// key-origin fingerprint its script is bound to.
#[derive(Debug)]
pub struct Utxo {
    pub txid: String,
    pub vout: u32,
    pub value: u64,
    pub keychain: KeychainKind,
    pub confirmed: bool,
    pub origin_fingerprint: String,
}

pub struct UtxoView {
    pub txid: Seq<char>,
    pub vout: u32,
    pub value: u64,
    pub keychain: KeychainKind,
    pub confirmed: bool,
    pub origin_fingerprint: Seq<char>,
}

impl View for Utxo {
    type V = UtxoView;

    open spec fn view(&self) -> UtxoView {
        UtxoView {
            txid: self.txid@,
            vout: self.vout,
            value: self.value,
            keychain: self.keychain,
            confirmed: self.confirmed,
            origin_fingerprint: self.origin_fingerprint@,
        }
    }
}

/// One transaction output to create: an output script and an amount.
#[derive(Debug)]
pub struct Recipient {
    pub script: Vec<u8>,
    pub amount: u64,
}

pub struct RecipientView {
    pub script: Seq<u8>,
    pub amount: u64,
}

impl View for Recipient {
    type V = RecipientView;

    open spec fn view(&self) -> RecipientView {
        RecipientView { script: self.script@, amount: self.amount }
    }
}

/// One input of a partially-signed transaction: the output it spends and the
/// identifier of the capability that signed it, once one has.
#[derive(Debug)]
pub struct PsbtInput {
    pub utxo: Utxo,
    pub signature: Option<u64>,
}

pub struct PsbtInputView {
    pub utxo: UtxoView,
    pub signature: Option<u64>,
}

impl View for PsbtInput {
    type V = PsbtInputView;

    open spec fn view(&self) -> PsbtInputView {
        PsbtInputView { utxo: self.utxo@, signature: self.signature }
    }
}

/// A partially-signed transaction: selected inputs accumulating signatures,
/// and the outputs to create.
#[derive(Debug)]
pub struct Psbt {
    pub inputs: Vec<PsbtInput>,
    pub outputs: Vec<Recipient>,
}

pub struct PsbtView {
    pub inputs: Seq<PsbtInputView>,
    pub outputs: Seq<RecipientView>,
}

impl View for Psbt {
    type V = PsbtView;

    open spec fn view(&self) -> PsbtView {
        PsbtView {
            inputs: self.inputs@.map_values(|i: PsbtInput| i@),
            outputs: self.outputs@.map_values(|o: Recipient| o@),
        }
    }
}

/// A fully signed, extracted transaction: the outpoints it spends and the
/// outputs it creates.
#[derive(Debug)]
pub struct FinalTx {
    pub inputs: Vec<(String, u32)>,
    pub outputs: Vec<Recipient>,
}

pub struct FinalTxView {
    pub inputs: Seq<(Seq<char>, u32)>,
    pub outputs: Seq<RecipientView>,
}

impl View for FinalTx {
    type V = FinalTxView;

    open spec fn view(&self) -> FinalTxView {
        FinalTxView {
            inputs: self.inputs@.map_values(|p: (String, u32)| (p.0@, p.1)),
            outputs: self.outputs@.map_values(|o: Recipient| o@),
        }
    }
}

// ---------------------------------------------------------------------------
// Sums and selection
// ---------------------------------------------------------------------------

pub open spec fn spec_utxo_sum(s: Seq<UtxoView>) -> int
    decreases s.len(),
{
    if s.len() == 0 {
        0
    } else {
        s[0].value + spec_utxo_sum(s.skip(1))
    }
}

pub open spec fn spec_amount_sum(s: Seq<RecipientView>) -> int
    decreases s.len(),
{
    if s.len() == 0 {
        0
    } else {
        s[0].amount + spec_amount_sum(s.skip(1))
    }
}

proof fn lemma_utxo_sum_nonneg(s: Seq<UtxoView>)
    ensures
        spec_utxo_sum(s) >= 0,
    decreases s.len(),
{
    if s.len() != 0 {
        lemma_utxo_sum_nonneg(s.skip(1));
    }
}

proof fn lemma_amount_sum_nonneg(s: Seq<RecipientView>)
    ensures
        spec_amount_sum(s) >= 0,
    decreases s.len(),
{
    if s.len() != 0 {
        lemma_amount_sum_nonneg(s.skip(1));
    }
}

/// A prefix weighs no more than the whole.
proof fn lemma_utxo_sum_split(s: Seq<UtxoView>, i: int)
    requires
        0 <= i <= s.len(),
    ensures
        spec_utxo_sum(s) == spec_utxo_sum(s.take(i)) + spec_utxo_sum(s.skip(i)),
    decreases i,
{
    if i == 0 {
        assert(s.take(0) =~= Seq::<UtxoView>::empty());
        assert(s.skip(0) =~= s);
    } else {
        let t = s.skip(1);
        lemma_utxo_sum_split(t, i - 1);
        assert(s.take(i).skip(1) =~= t.take(i - 1));
        assert(s.take(i)[0] == s[0]);
        assert(s.take(i).len() == i);
        assert(t.skip(i - 1) =~= s.skip(i));
    }
}

/// How many unspent outputs, taken in order, are needed to reach the target:
/// the smallest such count, or `None` if even all of them fall short.
pub open spec fn spec_select_count(s: Seq<UtxoView>, target: int) -> Option<int>
    decreases s.len(),
{
    if target <= 0 {
        Some(0)
    } else if s.len() == 0 {
        None
    } else {
        match spec_select_count(s.skip(1), target - s[0].value) {
            Some(k) => Some(1 + k),
            None => None,
        }
    }
}

// ---------------------------------------------------------------------------
// Signing
// ---------------------------------------------------------------------------

/// What one signing pass does to one input: an already signed input is left
/// alone; otherwise the highest-priority capability of the input's key-chain
/// role that recognizes the input's key origin contributes its signature, and
/// an input no capability recognizes stays unsigned.
pub open spec fn spec_sign_input(
    ext: Seq<SignerEntryView>,
    int_reg: Seq<SignerEntryView>,
    inp: PsbtInputView,
) -> PsbtInputView {
    if inp.signature is Some {
        inp
    } else {
        let reg = match inp.utxo.keychain {
            KeychainKind::External => ext,
            KeychainKind::Internal => int_reg,
        };
        match spec_first_match(reg, inp.utxo.origin_fingerprint) {
            Some(id) => PsbtInputView { signature: Some(id), ..inp },
            None => inp,
        }
    }
}

pub open spec fn spec_all_signed(inputs: Seq<PsbtInputView>) -> bool {
    forall|i: int| 0 <= i < inputs.len() ==> (#[trigger] inputs[i]).signature is Some
}

// ---------------------------------------------------------------------------
// The wallet
// ---------------------------------------------------------------------------

/// A wallet constructed purely from public descriptors. It tracks the
/// unspent outputs the synchronization collaborator reports and carries one
/// signer registry per key-chain role; it never holds private key material.
pub struct WatchOnlyWallet {
    pub external_descriptor: Descriptor,
    pub internal_descriptor: Option<Descriptor>,
    pub network: Network,
    pub utxos: Vec<Utxo>,
    pub external_signers: SignerRegistry,
    pub internal_signers: SignerRegistry,
}

pub open spec fn wallet_wf(w: WatchOnlyWallet) -> bool {
    registry_ordered(w.external_signers@) && registry_ordered(w.internal_signers@)
}

/// The confirmed and unconfirmed balance of the wallet's unspent outputs.
pub struct Balance {
    pub confirmed: u64,
    pub unconfirmed: u64,
}

pub open spec fn spec_confirmed_sum(s: Seq<UtxoView>) -> int
    decreases s.len(),
{
    if s.len() == 0 {
        0
    } else {
        (if s[0].confirmed {
            s[0].value as int
        } else {
            0
        }) + spec_confirmed_sum(s.skip(1))
    }
}

proof fn lemma_confirmed_sum_bounds(s: Seq<UtxoView>)
    ensures
        0 <= spec_confirmed_sum(s) <= spec_utxo_sum(s),
    decreases s.len(),
{
    if s.len() != 0 {
        lemma_confirmed_sum_bounds(s.skip(1));
    }
}

impl WatchOnlyWallet {
    /// Constructs the wallet from a descriptor pair. The same construction
    /// serves wallets restored from a backup and freshly generated ones: the
    /// caller hands whatever public descriptors it has.
    pub fn new(
        external_descriptor: Descriptor,
        internal_descriptor: Option<Descriptor>,
        network: Network,
    ) -> (r: WatchOnlyWallet)
        ensures
            r.external_descriptor == external_descriptor,
            r.internal_descriptor == internal_descriptor,
            r.network == network,
            r.utxos@ == Seq::<Utxo>::empty(),
            r.external_signers@ == Seq::<SignerEntryView>::empty(),
            r.internal_signers@ == Seq::<SignerEntryView>::empty(),
            wallet_wf(r),
    {
        let r = WatchOnlyWallet {
            external_descriptor,
            internal_descriptor,
            network,
            utxos: Vec::new(),
            external_signers: SignerRegistry::new(),
            internal_signers: SignerRegistry::new(),
        };
        assert(r.utxos@ =~= Seq::<Utxo>::empty());
        r
    }

    /// Registers a signing capability for one key-chain role; the other
    /// role's registry is untouched. The same capability may be registered
    /// under both roles by two calls.
    pub fn add_signer(&mut self, keychain: KeychainKind, entry: SignerEntry)
        requires
            wallet_wf(*old(self)),
        ensures
            wallet_wf(*final(self)),
            final(self).external_descriptor == old(self).external_descriptor,
            final(self).internal_descriptor == old(self).internal_descriptor,
            final(self).network == old(self).network,
            final(self).utxos == old(self).utxos,
            match keychain {
                KeychainKind::External => {
                    &&& final(self).external_signers@ == old(self).external_signers@.insert(
                        insert_pos(old(self).external_signers@, entry.ordering),
                        entry@,
                    )
                    &&& final(self).internal_signers == old(self).internal_signers
                },
                KeychainKind::Internal => {
                    &&& final(self).internal_signers@ == old(self).internal_signers@.insert(
                        insert_pos(old(self).internal_signers@, entry.ordering),
                        entry@,
                    )
                    &&& final(self).external_signers == old(self).external_signers
                },
            },
    {
        match keychain {
            KeychainKind::External => self.external_signers.register(entry),
            KeychainKind::Internal => self.internal_signers.register(entry),
        }
    }

    /// Records the unspent output set that the synchronization collaborator
    /// reported; nothing else of the wallet changes.
    pub fn apply_sync(&mut self, utxos: Vec<Utxo>)
        ensures
            final(self).utxos == utxos,
            final(self).external_descriptor == old(self).external_descriptor,
            final(self).internal_descriptor == old(self).internal_descriptor,
            final(self).network == old(self).network,
            final(self).external_signers == old(self).external_signers,
            final(self).internal_signers == old(self).internal_signers,
    {
        self.utxos = utxos;
    }

    /// The wallet balance, split into confirmed and unconfirmed funds.
    pub fn get_balance(&self) -> (r: Balance)
        requires
            spec_utxo_sum(self.utxos@.map_values(|u: Utxo| u@)) <= u64::MAX,
        ensures
            r.confirmed == spec_confirmed_sum(self.utxos@.map_values(|u: Utxo| u@)),
            r.confirmed + r.unconfirmed == spec_utxo_sum(self.utxos@.map_values(|u: Utxo| u@)),
    {
        let ghost s = self.utxos@.map_values(|u: Utxo| u@);
        let mut confirmed: u64 = 0;
        let mut total: u64 = 0;
        let mut i: usize = 0;
        proof {
            lemma_utxo_sum_nonneg(s);
            lemma_confirmed_sum_bounds(s);
            assert(s.take(0) =~= Seq::<UtxoView>::empty());
        }
        while i < self.utxos.len()
            invariant
                0 <= i <= self.utxos.len(),
                s == self.utxos@.map_values(|u: Utxo| u@),
                s.len() == self.utxos.len(),
                spec_utxo_sum(s) <= u64::MAX,
                total == spec_utxo_sum(s.take(i as int)),
                confirmed == spec_confirmed_sum(s.take(i as int)),
                forall|m: int| 0 <= m < s.len() ==> s[m] == (#[trigger] self.utxos@[m])@,
            decreases self.utxos.len() - i,
        {
            proof {
                lemma_utxo_sum_split(s, (i + 1) as int);
                lemma_utxo_sum_nonneg(s.skip((i + 1) as int));
                lemma_sum_take_snoc(s, i as int);
                lemma_confirmed_sum_bounds(s.take((i + 1) as int));
                lemma_utxo_sum_nonneg(s.take((i + 1) as int));
            }
            let u = &self.utxos[i];
            total = total + u.value;
            if u.confirmed {
                confirmed = confirmed + u.value;
            }
            i = i + 1;
        }
        assert(s.take(s.len() as int) =~= s);
        Balance { confirmed, unconfirmed: total - confirmed }
    }

    /// Builds a draft transaction for explicit recipients: selects unspent
    /// outputs in order until they cover the amounts plus fee, sends any
    /// change above the target back to the change script, and materializes
    /// the unsigned partially-signed structure. Fails with
    /// `InsufficientFunds` exactly when no selection covers the requirement.
    pub fn build_tx(&self, recipients: &Vec<Recipient>, change_script: &Vec<u8>, fee: u64) -> (r:
        Result<Psbt, TxError>)
        requires
            spec_utxo_sum(self.utxos@.map_values(|u: Utxo| u@)) <= u64::MAX,
            spec_amount_sum(recipients@.map_values(|o: Recipient| o@)) + fee <= u64::MAX,
        ensures
            ({
                let uv = self.utxos@.map_values(|u: Utxo| u@);
                let rv = recipients@.map_values(|o: Recipient| o@);
                let target = spec_amount_sum(rv) + fee;
                match r {
                    Ok(psbt) => {
                        &&& spec_select_count(uv, target) matches Some(k)
                        &&& psbt@.inputs == uv.take(k).map_values(
                            |u: UtxoView| PsbtInputView { utxo: u, signature: None },
                        )
                        &&& spec_utxo_sum(uv.take(k)) >= target
                        &&& psbt@.outputs == if spec_utxo_sum(uv.take(k)) > target {
                            rv.push(
                                RecipientView {
                                    script: change_script@,
                                    amount: (spec_utxo_sum(uv.take(k)) - target) as u64,
                                },
                            )
                        } else {
                            rv
                        }
                        &&& spec_utxo_sum(uv.take(k)) == spec_amount_sum(psbt@.outputs) + fee
                    },
                    Err(e) => {
                        &&& e == TxError::InsufficientFunds
                        &&& spec_select_count(uv, target) is None
                    },
                }
            }),
    {
        let ghost uv = self.utxos@.map_values(|u: Utxo| u@);
        let ghost rv = recipients@.map_values(|o: Recipient| o@);
        let amounts = sum_amounts(recipients);
        let target: u64 = amounts + fee;
        let ghost tg = spec_amount_sum(rv) + fee;
        proof {
            lemma_amount_sum_nonneg(rv);
        }
        match self.select_inputs(target) {
            None => Err(TxError::InsufficientFunds),
            Some(inputs) => {
                let ghost k = inputs@.len() as int;
                proof {
                    let f = |p: PsbtInput| p@;
                    let g = |u: UtxoView| PsbtInputView { utxo: u, signature: None };
                    let h = |p: PsbtInput| p@.utxo;
                    assert forall|m: int| 0 <= m < k implies inputs@.map_values(h)[m] == uv.take(
                        k,
                    )[m] by {
                        assert(inputs@.map_values(h)[m] == h(inputs@[m]));
                        assert(inputs@.map_values(f)[m] == f(inputs@[m]));
                        assert(uv.take(k).map_values(g)[m] == g(uv.take(k)[m]));
                    }
                    assert(inputs@.map_values(h) =~= uv.take(k));
                    lemma_utxo_sum_split(uv, k);
                    lemma_utxo_sum_nonneg(uv.skip(k));
                    lemma_utxo_sum_nonneg(uv.take(k));
                }
                let selected = sum_inputs(&inputs);
                assert(selected == spec_utxo_sum(uv.take(k)));
                let mut outputs = clone_recipients(recipients);
                if selected > target {
                    let ghost pre = outputs@;
                    let change = Recipient {
                        script: copy_bytes(change_script),
                        amount: selected - target,
                    };
                    let ghost cv = (RecipientView {
                        script: change_script@,
                        amount: (spec_utxo_sum(uv.take(k)) - tg) as u64,
                    });
                    assert(change@ == cv);
                    outputs.push(change);
                    proof {
                        let f = |o: Recipient| o@;
                        assert(outputs@[pre.len() as int]@ == cv);
                        assert forall|m: int| 0 <= m < pre.len() + 1 implies outputs@.map_values(
                            f,
                        )[m] == rv.push(cv)[m] by {
                            assert(outputs@.map_values(f)[m] == f(outputs@[m]));
                            if m < pre.len() {
                                assert(outputs@[m] == pre[m]);
                                assert(pre.map_values(f)[m] == f(pre[m]));
                            }
                        }
                        assert(outputs@.map_values(f) =~= rv.push(cv));
                        lemma_amount_sum_snoc(rv, cv);
                    }
                }
                let psbt = Psbt { inputs, outputs };
                Ok(psbt)
            },
        }
    }

    /// Builds a draft transaction that drains every unspent output to one
    /// script: all outputs are spent, and a single output carries everything
    /// above the fee. Fails with `InsufficientFunds` exactly when the wallet
    /// holds less than the fee.
    pub fn build_drain_tx(&self, drain_script: &Vec<u8>, fee: u64) -> (r: Result<Psbt, TxError>)
        requires
            spec_utxo_sum(self.utxos@.map_values(|u: Utxo| u@)) <= u64::MAX,
        ensures
            ({
                let uv = self.utxos@.map_values(|u: Utxo| u@);
                match r {
                    Ok(psbt) => {
                        &&& spec_utxo_sum(uv) >= fee
                        &&& psbt@.inputs == uv.map_values(
                            |u: UtxoView| PsbtInputView { utxo: u, signature: None },
                        )
                        &&& psbt@.outputs == seq![
                            RecipientView {
                                script: drain_script@,
                                amount: (spec_utxo_sum(uv) - fee) as u64,
                            },
                        ]
                    },
                    Err(e) => e == TxError::InsufficientFunds && spec_utxo_sum(uv) < fee,
                }
            }),
    {
        let ghost uv = self.utxos@.map_values(|u: Utxo| u@);
        let total = sum_utxos(&self.utxos);
        if total < fee {
            return Err(TxError::InsufficientFunds);
        }
        let mut inputs: Vec<PsbtInput> = Vec::new();
        let mut i: usize = 0;
        while i < self.utxos.len()
            invariant
                0 <= i <= self.utxos.len(),
                uv == self.utxos@.map_values(|u: Utxo| u@),
                uv.len() == self.utxos.len(),
                forall|m: int| 0 <= m < uv.len() ==> uv[m] == (#[trigger] self.utxos@[m])@,
                inputs@.len() == i,
                forall|m: int| 0 <= m < i ==> (#[trigger] inputs@[m])@ == (PsbtInputView {
                    utxo: uv[m],
                    signature: None,
                }),
            decreases self.utxos.len() - i,
        {
            inputs.push(PsbtInput { utxo: clone_utxo(&self.utxos[i]), signature: None });
            i = i + 1;
        }
        proof {
            let f = |p: PsbtInput| p@;
            let g = |u: UtxoView| PsbtInputView { utxo: u, signature: None };
            assert forall|m: int| 0 <= m < uv.len() implies inputs@.map_values(f)[m]
                == uv.map_values(g)[m] by {
                assert(inputs@.map_values(f)[m] == f(inputs@[m]));
                assert(uv.map_values(g)[m] == g(uv[m]));
            }
            assert(inputs@.map_values(f) =~= uv.map_values(g));
        }
        let mut outputs: Vec<Recipient> = Vec::new();
        outputs.push(Recipient { script: copy_bytes(drain_script), amount: total - fee });
        proof {
            let f = |o: Recipient| o@;
            assert(outputs@.map_values(f)[0] == f(outputs@[0]));
            assert(outputs@.map_values(f) =~= seq![
                RecipientView { script: drain_script@, amount: (spec_utxo_sum(uv) - fee) as u64 },
            ]);
        }
        Ok(Psbt { inputs, outputs })
    }

    /// One signing pass: every unsigned input whose key origin a registered
    /// capability of its role recognizes receives that capability's
    /// signature; already signed inputs are untouched, unrecognized inputs
    /// are no-ops, never errors. Returns whether every input is now signed.
    pub fn sign(&self, psbt: &mut Psbt) -> (r: bool)
        ensures
            final(psbt)@.inputs == old(psbt)@.inputs.map_values(
                |i: PsbtInputView|
                    spec_sign_input(self.external_signers@, self.internal_signers@, i),
            ),
            final(psbt)@.outputs == old(psbt)@.outputs,
            r == spec_all_signed(final(psbt)@.inputs),
            final(psbt).outputs == old(psbt).outputs,
    {
        let ghost before = psbt@.inputs;
        let mut new_inputs: Vec<PsbtInput> = Vec::new();
        let mut all_signed = true;
        let mut i: usize = 0;
        while i < psbt.inputs.len()
            invariant
                0 <= i <= psbt.inputs.len(),
                before == psbt@.inputs,
                before.len() == psbt.inputs.len(),
                forall|m: int| 0 <= m < before.len() ==> before[m] == (#[trigger] psbt.inputs@[m])@,
                new_inputs@.len() == i,
                forall|m: int| 0 <= m < i ==> (#[trigger] new_inputs@[m])@ == spec_sign_input(
                    self.external_signers@,
                    self.internal_signers@,
                    before[m],
                ),
                all_signed == (forall|m: int|
                    0 <= m < i ==> (#[trigger] new_inputs@[m])@.signature is Some),
            decreases psbt.inputs.len() - i,
        {
            let ghost entry_inputs = new_inputs@;
            let inp = &psbt.inputs[i];
            let signed: PsbtInput = match &inp.signature {
                Some(id) => PsbtInput { utxo: clone_utxo(&inp.utxo), signature: Some(*id) },
                None => {
                    let reg = match inp.utxo.keychain {
                        KeychainKind::External => &self.external_signers,
                        KeychainKind::Internal => &self.internal_signers,
                    };
                    match reg.first_match(&inp.utxo.origin_fingerprint) {
                        Some(id) => PsbtInput { utxo: clone_utxo(&inp.utxo), signature: Some(id) },
                        None => PsbtInput { utxo: clone_utxo(&inp.utxo), signature: None },
                    }
                },
            };
            assert(signed@ == spec_sign_input(
                self.external_signers@,
                self.internal_signers@,
                before[i as int],
            ));
            let ghost sv = signed@;
            let was_all = all_signed;
            if signed.signature.is_none() {
                all_signed = false;
            }
            new_inputs.push(signed);
            proof {
                assert(new_inputs@[i as int]@ == sv);
                if all_signed {
                    assert forall|m: int|
                        0 <= m < i + 1 implies (#[trigger] new_inputs@[m])@.signature is Some by {
                        if m == i as int {
                            assert(sv.signature is Some);
                        }
                    }
                } else {
                    if was_all {
                        assert(!((new_inputs@[i as int])@.signature is Some));
                    } else {
                        assert(exists|m: int|
                            0 <= m < i && !((#[trigger] entry_inputs[m])@.signature is Some));
                        let w = choose|m: int|
                            0 <= m < i && !((#[trigger] entry_inputs[m])@.signature is Some);
                        assert(new_inputs@[w] == entry_inputs[w]);
                        assert(!((new_inputs@[w])@.signature is Some));
                    }
                }
            }
            i = i + 1;
        }
        let ghost f = |inp: PsbtInputView|
            spec_sign_input(self.external_signers@, self.internal_signers@, inp);
        proof {
            let pv = |p: PsbtInput| p@;
            assert forall|m: int| 0 <= m < before.len() implies new_inputs@.map_values(pv)[m]
                == before.map_values(f)[m] by {
                assert(new_inputs@.map_values(pv)[m] == pv(new_inputs@[m]));
                assert(before.map_values(f)[m] == f(before[m]));
            }
            assert(new_inputs@.map_values(pv) =~= before.map_values(f));
            if all_signed {
                assert forall|m: int|
                    0 <= m < before.len() implies (#[trigger] new_inputs@.map_values(pv)[m])
                        .signature is Some by {
                    assert(new_inputs@.map_values(pv)[m] == pv(new_inputs@[m]));
                }
            } else {
                let w = choose|m: int|
                    0 <= m < new_inputs@.len() && !((#[trigger] new_inputs@[m])@.signature
                        is Some);
                assert(new_inputs@.map_values(pv)[w] == pv(new_inputs@[w]));
                assert(!spec_all_signed(new_inputs@.map_values(pv)));
            }
        }
        psbt.inputs = new_inputs;
        all_signed
    }

    // Private helpers of the builders.

    /// The smallest prefix of the unspent outputs whose value reaches the
    /// target, already materialized as unsigned inputs.
    fn select_inputs(&self, target: u64) -> (r: Option<Vec<PsbtInput>>)
        requires
            spec_utxo_sum(self.utxos@.map_values(|u: Utxo| u@)) <= u64::MAX,
        ensures
            ({
                let uv = self.utxos@.map_values(|u: Utxo| u@);
                match r {
                    Some(inputs) => {
                        &&& inputs@.len() <= uv.len()
                        &&& spec_select_count(uv, target as int) == Some(inputs@.len() as int)
                        &&& inputs@.map_values(|p: PsbtInput| p@) == uv.take(
                            inputs@.len() as int,
                        ).map_values(|u: UtxoView| PsbtInputView { utxo: u, signature: None })
                        &&& spec_utxo_sum(uv.take(inputs@.len() as int)) >= target
                    },
                    None => spec_select_count(uv, target as int) is None,
                }
            }),
    {
        let ghost uv = self.utxos@.map_values(|u: Utxo| u@);
        let mut inputs: Vec<PsbtInput> = Vec::new();
        let mut acc: u64 = 0;
        let mut k: usize = 0;
        proof {
            assert(uv.take(0) =~= Seq::<UtxoView>::empty());
            assert(uv.skip(0) =~= uv);
        }
        while k < self.utxos.len() && acc < target
            invariant
                0 <= k <= self.utxos.len(),
                uv == self.utxos@.map_values(|u: Utxo| u@),
                uv.len() == self.utxos.len(),
                spec_utxo_sum(uv) <= u64::MAX,
                forall|m: int| 0 <= m < uv.len() ==> uv[m] == (#[trigger] self.utxos@[m])@,
                acc == spec_utxo_sum(uv.take(k as int)),
                inputs@.len() == k,
                forall|m: int| 0 <= m < k ==> (#[trigger] inputs@[m])@ == (PsbtInputView {
                    utxo: uv[m],
                    signature: None,
                }),
                spec_select_count(uv, target as int) == (match spec_select_count(
                    uv.skip(k as int),
                    target - acc,
                ) {
                    Some(j) => Some(k + j),
                    None => None::<int>,
                }),
            decreases self.utxos.len() - k,
        {
            proof {
                lemma_utxo_sum_split(uv, (k + 1) as int);
                lemma_utxo_sum_nonneg(uv.skip((k + 1) as int));
                lemma_sum_take_snoc(uv, k as int);
                lemma_utxo_sum_nonneg(uv.take(k as int));
                assert(uv.skip(k as int)[0] == uv[k as int]);
                assert(uv.skip(k as int).skip(1) =~= uv.skip((k + 1) as int));
            }
            inputs.push(PsbtInput { utxo: clone_utxo(&self.utxos[k]), signature: None });
            acc = acc + self.utxos[k].value;
            k = k + 1;
        }
        proof {
            let f = |p: PsbtInput| p@;
            let g = |u: UtxoView| PsbtInputView { utxo: u, signature: None };
            assert forall|m: int| 0 <= m < k implies inputs@.map_values(f)[m] == uv.take(
                k as int,
            ).map_values(g)[m] by {
                assert(inputs@.map_values(f)[m] == f(inputs@[m]));
                assert(uv.take(k as int).map_values(g)[m] == g(uv[m]));
            }
            assert(inputs@.map_values(f) =~= uv.take(k as int).map_values(g));
        }
        if acc >= target {
            proof {
                assert(spec_select_count(uv.skip(k as int), target - acc) == Some(0int));
            }
            Some(inputs)
        } else {
            proof {
                assert(k == self.utxos.len());
                assert(uv.skip(k as int) =~= Seq::<UtxoView>::empty());
                assert(spec_select_count(uv.skip(k as int), target - acc) is None);
            }
            None
        }
    }
}

/// Finalize a partially-signed transaction and extract the final form: it
/// succeeds exactly when every input carries its required signature, and
/// fails with `IncompleteSignatures` otherwise; on success the extracted
/// transaction spends exactly the selected outpoints and creates exactly the
/// drafted outputs.
pub fn finalize(psbt: &Psbt) -> (r: Result<FinalTx, TxError>)
    ensures
        match r {
            Ok(t) => {
                &&& spec_all_signed(psbt@.inputs)
                &&& t@.inputs == psbt@.inputs.map_values(
                    |i: PsbtInputView| (i.utxo.txid, i.utxo.vout),
                )
                &&& t@.outputs == psbt@.outputs
            },
            Err(e) => e == TxError::IncompleteSignatures && !spec_all_signed(psbt@.inputs),
        },
{
    let ghost iv = psbt@.inputs;
    let mut inputs: Vec<(String, u32)> = Vec::new();
    let mut i: usize = 0;
    while i < psbt.inputs.len()
        invariant
            0 <= i <= psbt.inputs.len(),
            iv == psbt@.inputs,
            iv.len() == psbt.inputs.len(),
            forall|m: int| 0 <= m < iv.len() ==> iv[m] == (#[trigger] psbt.inputs@[m])@,
            forall|m: int| 0 <= m < i ==> (#[trigger] iv[m]).signature is Some,
            inputs@.len() == i,
            forall|m: int| 0 <= m < i ==> ((#[trigger] inputs@[m]).0@, inputs@[m].1) == (
                iv[m].utxo.txid,
                iv[m].utxo.vout,
            ),
        decreases psbt.inputs.len() - i,
    {
        let inp = &psbt.inputs[i];
        if inp.signature.is_none() {
            assert(!(iv[i as int].signature is Some));
            return Err(TxError::IncompleteSignatures);
        }
        inputs.push((inp.utxo.txid.clone(), inp.utxo.vout));
        i = i + 1;
    }
    proof {
        let f = |p: (String, u32)| (p.0@, p.1);
        let g = |inp: PsbtInputView| (inp.utxo.txid, inp.utxo.vout);
        assert forall|m: int| 0 <= m < iv.len() implies inputs@.map_values(f)[m]
            == iv.map_values(g)[m] by {
            assert(inputs@.map_values(f)[m] == f(inputs@[m]));
            assert(iv.map_values(g)[m] == g(iv[m]));
        }
        assert(inputs@.map_values(f) =~= iv.map_values(g));
    }
    let outputs = clone_recipients(&psbt.outputs);
    Ok(FinalTx { inputs, outputs })
}

// ---------------------------------------------------------------------------
// Helpers
// ---------------------------------------------------------------------------

fn copy_bytes(v: &Vec<u8>) -> (r: Vec<u8>)
    ensures
        r@ == v@,
{
    let mut out: Vec<u8> = Vec::new();
    let mut i: usize = 0;
    while i < v.len()
        invariant
            0 <= i <= v.len(),
            out@ == v@.take(i as int),
        decreases v.len() - i,
    {
        out.push(v[i]);
        assert(out@ =~= v@.take((i + 1) as int));
        i = i + 1;
    }
    assert(v@.take(v@.len() as int) =~= v@);
    out
}

fn clone_utxo(u: &Utxo) -> (r: Utxo)
    ensures
        r@ == u@,
{
    Utxo {
        txid: u.txid.clone(),
        vout: u.vout,
        value: u.value,
        keychain: u.keychain,
        confirmed: u.confirmed,
        origin_fingerprint: u.origin_fingerprint.clone(),
    }
}

fn clone_recipients(rs: &Vec<Recipient>) -> (r: Vec<Recipient>)
    ensures
        r@.map_values(|o: Recipient| o@) == rs@.map_values(|o: Recipient| o@),
{
    let ghost rv = rs@.map_values(|o: Recipient| o@);
    let mut out: Vec<Recipient> = Vec::new();
    let mut i: usize = 0;
    while i < rs.len()
        invariant
            0 <= i <= rs.len(),
            rv == rs@.map_values(|o: Recipient| o@),
            rv.len() == rs.len(),
            forall|m: int| 0 <= m < rv.len() ==> rv[m] == (#[trigger] rs@[m])@,
            out@.len() == i,
            forall|m: int| 0 <= m < i ==> (#[trigger] out@[m])@ == rv[m],
        decreases rs.len() - i,
    {
        out.push(Recipient { script: copy_bytes(&rs[i].script), amount: rs[i].amount });
        i = i + 1;
    }
    proof {
        let f = |o: Recipient| o@;
        assert forall|m: int| 0 <= m < rv.len() implies out@.map_values(f)[m] == rv[m] by {
            assert(out@.map_values(f)[m] == f(out@[m]));
        }
        assert(out@.map_values(f) =~= rv);
    }
    out
}

/// Appending one utxo to a prefix adds its value to the prefix sum.
proof fn lemma_sum_take_snoc(s: Seq<UtxoView>, i: int)
    requires
        0 <= i < s.len(),
    ensures
        spec_utxo_sum(s.take(i + 1)) == spec_utxo_sum(s.take(i)) + s[i].value,
        spec_confirmed_sum(s.take(i + 1)) == spec_confirmed_sum(s.take(i)) + (if s[i].confirmed {
            s[i].value as int
        } else {
            0
        }),
    decreases i,
{
    if i == 0 {
        assert(s.take(1) =~= seq![s[0]]);
        assert(seq![s[0]].skip(1) =~= Seq::<UtxoView>::empty());
        assert(s.take(0) =~= Seq::<UtxoView>::empty());
    } else {
        let t = s.skip(1);
        lemma_sum_take_snoc(t, i - 1);
        assert(s.take(i + 1)[0] == s[0]);
        assert(s.take(i + 1).skip(1) =~= t.take(i));
        assert(s.take(i)[0] == s[0]);
        assert(s.take(i).skip(1) =~= t.take(i - 1));
        assert(t[i - 1] == s[i]);
    }
}

proof fn lemma_amount_sum_snoc(s: Seq<RecipientView>, x: RecipientView)
    ensures
        spec_amount_sum(s.push(x)) == spec_amount_sum(s) + x.amount,
    decreases s.len(),
{
    if s.len() == 0 {
        assert(s.push(x)[0] == x);
        assert(s.push(x).skip(1) =~= Seq::<RecipientView>::empty());
        assert(spec_amount_sum(Seq::<RecipientView>::empty()) == 0);
        assert(spec_amount_sum(s.push(x)) == x.amount + spec_amount_sum(s.push(x).skip(1)));
    } else {
        assert(s.push(x)[0] == s[0]);
        assert(s.push(x).skip(1) =~= s.skip(1).push(x));
        lemma_amount_sum_snoc(s.skip(1), x);
        assert(spec_amount_sum(s.push(x)) == s[0].amount + spec_amount_sum(s.push(x).skip(1)));
        assert(spec_amount_sum(s) == s[0].amount + spec_amount_sum(s.skip(1)));
    }
}

fn sum_utxos(utxos: &Vec<Utxo>) -> (r: u64)
    requires
        spec_utxo_sum(utxos@.map_values(|u: Utxo| u@)) <= u64::MAX,
    ensures
        r == spec_utxo_sum(utxos@.map_values(|u: Utxo| u@)),
{
    let ghost s = utxos@.map_values(|u: Utxo| u@);
    let mut acc: u64 = 0;
    let mut i: usize = 0;
    proof {
        assert(s.take(0) =~= Seq::<UtxoView>::empty());
    }
    while i < utxos.len()
        invariant
            0 <= i <= utxos.len(),
            s == utxos@.map_values(|u: Utxo| u@),
            s.len() == utxos.len(),
            spec_utxo_sum(s) <= u64::MAX,
            forall|m: int| 0 <= m < s.len() ==> s[m] == (#[trigger] utxos@[m])@,
            acc == spec_utxo_sum(s.take(i as int)),
        decreases utxos.len() - i,
    {
        proof {
            lemma_utxo_sum_split(s, (i + 1) as int);
            lemma_utxo_sum_nonneg(s.skip((i + 1) as int));
            lemma_sum_take_snoc(s, i as int);
            lemma_utxo_sum_nonneg(s.take(i as int));
        }
        acc = acc + utxos[i].value;
        i = i + 1;
    }
    assert(s.take(s.len() as int) =~= s);
    acc
}

fn sum_inputs(inputs: &Vec<PsbtInput>) -> (r: u64)
    requires
        spec_utxo_sum(inputs@.map_values(|p: PsbtInput| p@.utxo)) <= u64::MAX,
    ensures
        r == spec_utxo_sum(inputs@.map_values(|p: PsbtInput| p@.utxo)),
{
    let ghost s = inputs@.map_values(|p: PsbtInput| p@.utxo);
    let mut acc: u64 = 0;
    let mut i: usize = 0;
    proof {
        assert(s.take(0) =~= Seq::<UtxoView>::empty());
    }
    while i < inputs.len()
        invariant
            0 <= i <= inputs.len(),
            s == inputs@.map_values(|p: PsbtInput| p@.utxo),
            s.len() == inputs.len(),
            spec_utxo_sum(s) <= u64::MAX,
            forall|m: int| 0 <= m < s.len() ==> s[m] == (#[trigger] inputs@[m])@.utxo,
            acc == spec_utxo_sum(s.take(i as int)),
        decreases inputs.len() - i,
    {
        proof {
            lemma_utxo_sum_split(s, (i + 1) as int);
            lemma_utxo_sum_nonneg(s.skip((i + 1) as int));
            lemma_sum_take_snoc(s, i as int);
            lemma_utxo_sum_nonneg(s.take(i as int));
        }
        acc = acc + inputs[i].utxo.value;
        i = i + 1;
    }
    assert(s.take(s.len() as int) =~= s);
    acc
}

fn sum_amounts(rs: &Vec<Recipient>) -> (r: u64)
    requires
        spec_amount_sum(rs@.map_values(|o: Recipient| o@)) <= u64::MAX,
    ensures
        r == spec_amount_sum(rs@.map_values(|o: Recipient| o@)),
{
    let ghost s = rs@.map_values(|o: Recipient| o@);
    let mut acc: u64 = 0;
    let mut i: usize = 0;
    proof {
        assert(s.take(0) =~= Seq::<RecipientView>::empty());
    }
    while i < rs.len()
        invariant
            0 <= i <= rs.len(),
            s == rs@.map_values(|o: Recipient| o@),
            s.len() == rs.len(),
            spec_amount_sum(s) <= u64::MAX,
            forall|m: int| 0 <= m < s.len() ==> s[m] == (#[trigger] rs@[m])@,
            acc == spec_amount_sum(s.take(i as int)),
        decreases rs.len() - i,
    {
        proof {
            lemma_amount_sum_split(s, (i + 1) as int);
            lemma_amount_sum_nonneg(s.skip((i + 1) as int));
            lemma_amount_take_snoc(s, i as int);
            lemma_amount_sum_nonneg(s.take(i as int));
        }
        acc = acc + rs[i].amount;
        i = i + 1;
    }
    assert(s.take(s.len() as int) =~= s);
    acc
}

proof fn lemma_amount_sum_split(s: Seq<RecipientView>, i: int)
    requires
        0 <= i <= s.len(),
    ensures
        spec_amount_sum(s) == spec_amount_sum(s.take(i)) + spec_amount_sum(s.skip(i)),
    decreases i,
{
    if i == 0 {
        assert(s.take(0) =~= Seq::<RecipientView>::empty());
        assert(s.skip(0) =~= s);
    } else {
        let t = s.skip(1);
        lemma_amount_sum_split(t, i - 1);
        assert(s.take(i).skip(1) =~= t.take(i - 1));
        assert(s.take(i)[0] == s[0]);
        assert(t.skip(i - 1) =~= s.skip(i));
    }
}

proof fn lemma_amount_take_snoc(s: Seq<RecipientView>, i: int)
    requires
        0 <= i < s.len(),
    ensures
        spec_amount_sum(s.take(i + 1)) == spec_amount_sum(s.take(i)) + s[i].amount,
    decreases i,
{
    if i == 0 {
        assert(s.take(1) =~= seq![s[0]]);
        assert(seq![s[0]].skip(1) =~= Seq::<RecipientView>::empty());
        assert(s.take(0) =~= Seq::<RecipientView>::empty());
    } else {
        let t = s.skip(1);
        lemma_amount_take_snoc(t, i - 1);
        assert(s.take(i + 1)[0] == s[0]);
        assert(s.take(i + 1).skip(1) =~= t.take(i));
        assert(s.take(i)[0] == s[0]);
        assert(s.take(i).skip(1) =~= t.take(i - 1));
        assert(t[i - 1] == s[i]);
    }
}

// ---------------------------------------------------------------------------
// Laws of the signing pass
// ---------------------------------------------------------------------------

/// Two capabilities with different key origins registered for one role sign
/// every input that matches either of them: one pass fully signs a draft
/// whose inputs all carry one of the two origins.
pub proof fn lemma_signer_composition(
    s1: SignerEntryView,
    s2: SignerEntryView,
    int_reg: Seq<SignerEntryView>,
    inputs: Seq<PsbtInputView>,
)
    requires
        s1.fingerprint != s2.fingerprint,
        forall|i: int| 0 <= i < inputs.len() ==> (#[trigger] inputs[i]).utxo.keychain
            == KeychainKind::External,
        forall|i: int| 0 <= i < inputs.len() ==> (#[trigger] inputs[i]).utxo.origin_fingerprint
            == s1.fingerprint || inputs[i].utxo.origin_fingerprint == s2.fingerprint,
    ensures
        spec_all_signed(
            inputs.map_values(|i: PsbtInputView| spec_sign_input(seq![s1, s2], int_reg, i)),
        ),
{
    let ext = seq![s1, s2];
    let out = inputs.map_values(|i: PsbtInputView| spec_sign_input(ext, int_reg, i));
    assert forall|i: int| 0 <= i < out.len() implies (#[trigger] out[i]).signature is Some by {
        let inp = inputs[i];
        assert(out[i] == spec_sign_input(ext, int_reg, inp));
        if inp.signature is None {
            let fp = inp.utxo.origin_fingerprint;
            assert(ext[0] == s1);
            assert(ext.skip(1) =~= seq![s2]);
            assert(seq![s2][0] == s2);
            assert(seq![s2].skip(1) =~= Seq::<SignerEntryView>::empty());
            if fp == s1.fingerprint {
                assert(spec_first_match(ext, fp) == Some(s1.id));
            } else {
                assert(spec_first_match(ext, fp) == spec_first_match(seq![s2], fp));
                assert(spec_first_match(seq![s2], fp) == Some(s2.id));
            }
        }
    }
}

/// With no capability matching any input, a signing pass changes nothing and
/// finalization must fail with `IncompleteSignatures`.
pub proof fn lemma_unmatched_inputs_stay_unsigned(
    ext: Seq<SignerEntryView>,
    int_reg: Seq<SignerEntryView>,
    inputs: Seq<PsbtInputView>,
)
    requires
        inputs.len() > 0,
        forall|i: int| 0 <= i < inputs.len() ==> (#[trigger] inputs[i]).signature is None,
        forall|i: int, j: int|
            0 <= i < inputs.len() && 0 <= j < ext.len() ==> (#[trigger] ext[j]).fingerprint != (
            #[trigger] inputs[i]).utxo.origin_fingerprint,
        forall|i: int, j: int|
            0 <= i < inputs.len() && 0 <= j < int_reg.len() ==> (#[trigger] int_reg[j]).fingerprint
                != (#[trigger] inputs[i]).utxo.origin_fingerprint,
    ensures
        inputs.map_values(|i: PsbtInputView| spec_sign_input(ext, int_reg, i)) == inputs,
        !spec_all_signed(inputs.map_values(|i: PsbtInputView| spec_sign_input(ext, int_reg, i))),
{
    let out = inputs.map_values(|i: PsbtInputView| spec_sign_input(ext, int_reg, i));
    assert forall|i: int| 0 <= i < out.len() implies out[i] == inputs[i] by {
        let inp = inputs[i];
        let fp = inp.utxo.origin_fingerprint;
        match inp.utxo.keychain {
            KeychainKind::External => {
                assert(forall|j: int| 0 <= j < ext.len() ==> (#[trigger] ext[j]).fingerprint != fp);
                lemma_first_match_none(ext, fp);
            },
            KeychainKind::Internal => {
                assert(forall|j: int|
                    0 <= j < int_reg.len() ==> (#[trigger] int_reg[j]).fingerprint != fp);
                lemma_first_match_none(int_reg, fp);
            },
        }
    }
    assert(out =~= inputs);
    assert(out[0].signature is None);
}

/// Signing is idempotent: a second pass over an already-passed structure
/// changes nothing, so it finalizes to the same transaction.
pub proof fn lemma_sign_idempotent(
    ext: Seq<SignerEntryView>,
    int_reg: Seq<SignerEntryView>,
    inputs: Seq<PsbtInputView>,
)
    ensures
        inputs.map_values(|i: PsbtInputView| spec_sign_input(ext, int_reg, i)).map_values(
            |i: PsbtInputView| spec_sign_input(ext, int_reg, i),
        ) == inputs.map_values(|i: PsbtInputView| spec_sign_input(ext, int_reg, i)),
{
    let once = inputs.map_values(|i: PsbtInputView| spec_sign_input(ext, int_reg, i));
    let twice = once.map_values(|i: PsbtInputView| spec_sign_input(ext, int_reg, i));
    assert forall|i: int| 0 <= i < twice.len() implies twice[i] == once[i] by {
        let inp = inputs[i];
        let s1 = spec_sign_input(ext, int_reg, inp);
        assert(once[i] == s1);
        if s1.signature is Some {
        } else {
            assert(spec_sign_input(ext, int_reg, s1) == s1);
        }
    }
    assert(twice =~= once);
}

} // verus!
