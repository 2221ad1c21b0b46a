//! Output-script descriptors: a single-key template bound to an extended
//! public key, its key origin (fingerprint and hardened account path), and
//! the sub-chain selector, with a wildcard address index. The canonical text
//! form is rendered and parsed here, and parsing inverts rendering.
use vstd::prelude::*;

use crate::KeychainKind;
use crate::Network;
use crate::bdk_bridge;
use crate::bip32::ChildStep;
use crate::bip32::account_path;
use crate::bip32::digit_char;
use crate::bip32::is_digit_char;
use crate::bip32::lemma_spec_decimal_shape;
use crate::bip32::path_wf;
use crate::bip32::spec_decimal;
use crate::bip32::spec_render_step;
use crate::bip32::spec_account_path;
use crate::bip32::spec_render_steps;
use crate::bip32::spec_parse_steps;
use crate::bip32::stops_steps;

verus! {

/// A key found in text form inside descriptors: base58 and similar material,
/// all ASCII letters and digits.
pub open spec fn is_key_char(c: char) -> bool {
    (48 <= c as u32 <= 57) || (65 <= c as u32 <= 90) || (97 <= c as u32 <= 122)
}

/// A lowercase hex digit, as fingerprints are written.
pub open spec fn is_hex_lower_char(c: char) -> bool {
    (48 <= c as u32 <= 57) || (97 <= c as u32 <= 102)
}

/// Non-empty text of key characters only.
pub open spec fn text_is_key(s: Seq<char>) -> bool {
    s.len() > 0 && forall|i: int| 0 <= i < s.len() ==> is_key_char(#[trigger] s[i])
}

/// A fingerprint in text form: exactly eight lowercase hex digits.
pub open spec fn fingerprint_wf(s: Seq<char>) -> bool {
    s.len() == 8 && forall|i: int| 0 <= i < s.len() ==> is_hex_lower_char(#[trigger] s[i])
}

/// A character the descriptor checksum accepts without reservation:
/// printable ASCII that is not the checksum separator `#`.
pub open spec fn checksum_safe_char(c: char) -> bool {
    32 <= c as u32 <= 126 && c != '#'
}

pub open spec fn text_checksum_safe(s: Seq<char>) -> bool {
    forall|i: int| 0 <= i < s.len() ==> checksum_safe_char(#[trigger] s[i])
}

/// The public key of a descriptor: the key-origin fingerprint, the hardened
/// origin path, the extended key text, and which sub-chain the descriptor's
/// wildcard child index walks.
#[derive(Clone, Debug)]
pub struct DescriptorKey {
    pub origin_fingerprint: String,
    pub origin_path: Vec<ChildStep>,
    pub xkey: String,
    pub keychain: KeychainKind,
}

/// A descriptor: a script template applied to one key. `Wpkh` is the one
/// template this wallet supports; `Pkh` is representable so that a backup can
/// carry a template the wallet must refuse.
#[derive(Clone, Debug)]
pub enum Descriptor {
    Wpkh(DescriptorKey),
    Pkh(DescriptorKey),
}

pub struct DescriptorKeyView {
    pub origin_fingerprint: Seq<char>,
    pub origin_path: Seq<ChildStep>,
    pub xkey: Seq<char>,
    pub keychain: KeychainKind,
}

pub enum DescriptorView {
    Wpkh(DescriptorKeyView),
    Pkh(DescriptorKeyView),
}

impl View for DescriptorKey {
    type V = DescriptorKeyView;

    open spec fn view(&self) -> DescriptorKeyView {
        DescriptorKeyView {
            origin_fingerprint: self.origin_fingerprint@,
            origin_path: self.origin_path@,
            xkey: self.xkey@,
            keychain: self.keychain,
        }
    }
}

impl View for Descriptor {
    type V = DescriptorView;

    open spec fn view(&self) -> DescriptorView {
        match self {
            Descriptor::Wpkh(k) => DescriptorView::Wpkh(k@),
            Descriptor::Pkh(k) => DescriptorView::Pkh(k@),
        }
    }
}

impl DescriptorView {
    pub open spec fn key(self) -> DescriptorKeyView {
        match self {
            DescriptorView::Wpkh(k) => k,
            DescriptorView::Pkh(k) => k,
        }
    }

    pub open spec fn is_wpkh(self) -> bool {
        self is Wpkh
    }
}

pub open spec fn desc_key_wf(k: DescriptorKeyView) -> bool {
    &&& fingerprint_wf(k.origin_fingerprint)
    &&& path_wf(k.origin_path)
    &&& text_is_key(k.xkey)
}

pub open spec fn desc_wf(d: DescriptorView) -> bool {
    desc_key_wf(d.key())
}

// ---------------------------------------------------------------------------
// Rendering
// ---------------------------------------------------------------------------

pub open spec fn spec_tag(d: DescriptorView) -> Seq<char> {
    match d {
        DescriptorView::Wpkh(_) => seq!['w', 'p', 'k', 'h'],
        DescriptorView::Pkh(_) => seq!['p', 'k', 'h'],
    }
}

/// The canonical text of everything after the template tag.
#[verifier::opaque]
pub open spec fn spec_render_descriptor_body(k: DescriptorKeyView) -> Seq<char> {
    seq!['(', '['] + k.origin_fingerprint + spec_render_steps(k.origin_path) + seq![']'] + k.xkey
        + seq!['/', digit_char(k.keychain.spec_child_index() as nat), '/', '*', ')']
}

/// The canonical text of a descriptor, for example
/// `wpkh([f00dbabe/84'/1'/0']xpub.../0/*)`.
pub open spec fn spec_render_descriptor(d: DescriptorView) -> Seq<char> {
    spec_tag(d) + spec_render_descriptor_body(d.key())
}

pub(crate) fn copy_range(v: &Vec<char>, a: usize, b: usize) -> (r: Vec<char>)
    requires
        a <= b <= v.len(),
    ensures
        r@ == v@.subrange(a as int, b as int),
{
    let mut out: Vec<char> = Vec::new();
    let mut i: usize = a;
    while i < b
        invariant
            a <= i <= b <= v.len(),
            out@ == v@.subrange(a as int, i as int),
        decreases b - i,
    {
        out.push(v[i]);
        assert(out@ =~= v@.subrange(a as int, (i + 1) as int));
        i = i + 1;
    }
    out
}

pub(crate) fn push_str_chars(out: &mut Vec<char>, s: &str)
    ensures
        final(out)@ == old(out)@ + s@,
{
    let mut cs = bdk_bridge::string_chars(s);
    out.append(&mut cs);
}

/// Appends the canonical descriptor text.
pub(crate) fn push_descriptor(out: &mut Vec<char>, d: &Descriptor)
    ensures
        final(out)@ == old(out)@ + spec_render_descriptor(d@),
{
    let k = match d {
        Descriptor::Wpkh(k) => {
            out.push('w');
            out.push('p');
            out.push('k');
            out.push('h');
            k
        },
        Descriptor::Pkh(k) => {
            out.push('p');
            out.push('k');
            out.push('h');
            k
        },
    };
    out.push('(');
    out.push('[');
    push_str_chars(out, k.origin_fingerprint.as_str());
    crate::bip32::push_steps(out, &k.origin_path);
    out.push(']');
    push_str_chars(out, k.xkey.as_str());
    out.push('/');
    match k.keychain {
        KeychainKind::External => out.push('0'),
        KeychainKind::Internal => out.push('1'),
    }
    out.push('/');
    out.push('*');
    out.push(')');
    proof {
        reveal(spec_render_descriptor_body);
    }
    assert(final(out)@ =~= old(out)@ + spec_render_descriptor(d@));
}

/// The canonical text of a descriptor.
pub fn descriptor_string(d: &Descriptor) -> (r: String)
    ensures
        r@ == spec_render_descriptor(d@),
{
    let mut out: Vec<char> = Vec::new();
    push_descriptor(&mut out, d);
    bdk_bridge::chars_string(&out)
}

proof fn lemma_checksum_safe_concat(a: Seq<char>, b: Seq<char>)
    requires
        text_checksum_safe(a),
        text_checksum_safe(b),
    ensures
        text_checksum_safe(a + b),
{
    assert forall|i: int| 0 <= i < (a + b).len() implies checksum_safe_char(
        #[trigger] (a + b)[i],
    ) by {
        if i < a.len() {
            assert((a + b)[i] == a[i]);
        } else {
            assert((a + b)[i] == b[i - a.len()]);
        }
    }
}

proof fn lemma_render_steps_checksum_safe(p: Seq<ChildStep>)
    ensures
        text_checksum_safe(spec_render_steps(p)),
    decreases p.len(),
{
    if p.len() != 0 {
        let ds = spec_decimal(p[0].index as nat);
        let mark: Seq<char> = if p[0].hardened {
            seq!['\'']
        } else {
            Seq::<char>::empty()
        };
        assert(text_checksum_safe(ds)) by {
            lemma_spec_decimal_shape(p[0].index as nat);
            assert forall|i: int| 0 <= i < ds.len() implies checksum_safe_char(
                #[trigger] ds[i],
            ) by {
                assert(is_digit_char(ds[i]));
            }
        }
        assert(text_checksum_safe(mark));
        assert(text_checksum_safe(seq!['/']));
        assert(spec_render_step(p[0]) == ds + mark);
        lemma_checksum_safe_concat(ds, mark);
        lemma_checksum_safe_concat(seq!['/'], spec_render_step(p[0]));
        lemma_render_steps_checksum_safe(p.skip(1));
        lemma_checksum_safe_concat(
            seq!['/'] + spec_render_step(p[0]),
            spec_render_steps(p.skip(1)),
        );
    }
}

/// The canonical text of a well-formed descriptor is made of characters the
/// checksum accepts without reservation.
pub(crate) proof fn lemma_render_descriptor_checksum_safe(d: DescriptorView)
    requires
        desc_wf(d),
    ensures
        text_checksum_safe(spec_render_descriptor(d)),
{
    reveal(spec_render_descriptor_body);
    let k = d.key();
    let cc = digit_char(k.keychain.spec_child_index() as nat);
    assert(text_checksum_safe(spec_tag(d))) by {
        match d {
            DescriptorView::Wpkh(_) => {
                assert(spec_tag(d) == seq!['w', 'p', 'k', 'h']);
            },
            DescriptorView::Pkh(_) => {
                assert(spec_tag(d) == seq!['p', 'k', 'h']);
            },
        }
    }
    assert(text_checksum_safe(k.origin_fingerprint)) by {
        assert forall|i: int| 0 <= i < k.origin_fingerprint.len() implies checksum_safe_char(
            #[trigger] k.origin_fingerprint[i],
        ) by {
            assert(is_hex_lower_char(k.origin_fingerprint[i]));
        }
    }
    assert(text_checksum_safe(k.xkey)) by {
        assert forall|i: int| 0 <= i < k.xkey.len() implies checksum_safe_char(
            #[trigger] k.xkey[i],
        ) by {
            assert(is_key_char(k.xkey[i]));
        }
    }
    let suffix = seq!['/', cc, '/', '*', ')'];
    assert(text_checksum_safe(suffix)) by {
        match k.keychain {
            KeychainKind::External => {
                assert(cc == '0');
            },
            KeychainKind::Internal => {
                assert(cc == '1');
            },
        }
    }
    lemma_render_steps_checksum_safe(k.origin_path);
    assert(text_checksum_safe(seq!['(', '[']));
    assert(text_checksum_safe(seq![']']));
    lemma_checksum_safe_concat(seq!['(', '['], k.origin_fingerprint);
    lemma_checksum_safe_concat(
        seq!['(', '['] + k.origin_fingerprint,
        spec_render_steps(k.origin_path),
    );
    lemma_checksum_safe_concat(
        seq!['(', '['] + k.origin_fingerprint + spec_render_steps(k.origin_path),
        seq![']'],
    );
    lemma_checksum_safe_concat(
        seq!['(', '['] + k.origin_fingerprint + spec_render_steps(k.origin_path) + seq![']'],
        k.xkey,
    );
    lemma_checksum_safe_concat(
        seq!['(', '['] + k.origin_fingerprint + spec_render_steps(k.origin_path) + seq![']']
            + k.xkey,
        suffix,
    );
    assert(spec_render_descriptor_body(k) == seq!['(', '['] + k.origin_fingerprint
        + spec_render_steps(k.origin_path) + seq![']'] + k.xkey + suffix);
    lemma_checksum_safe_concat(spec_tag(d), spec_render_descriptor_body(k));
}

/// The canonical text of a descriptor with its checksum appended after `#`,
/// as descriptor tooling expects it. For every well-formed descriptor the
/// checksum exists, so the call succeeds.
pub fn descriptor_string_with_checksum(d: &Descriptor) -> (r: Option<String>)
    ensures
        r matches Some(s) ==> s@ == spec_render_descriptor(d@) + seq!['#']
            + bdk_bridge::spec_checksum_of(spec_render_descriptor(d@)),
        desc_wf(d@) ==> r is Some,
{
    let body = descriptor_string(d);
    proof {
        if desc_wf(d@) {
            lemma_render_descriptor_checksum_safe(d@);
        }
    }
    match bdk_bridge::bdk_descriptor_checksum(body.as_str()) {
        None => None,
        Some(c) => {
            let mut out = bdk_bridge::string_chars(body.as_str());
            out.push('#');
            let mut cs = bdk_bridge::string_chars(c.as_str());
            out.append(&mut cs);
            assert(out@ =~= spec_render_descriptor(d@) + seq!['#']
                + bdk_bridge::spec_checksum_of(spec_render_descriptor(d@)));
            Some(bdk_bridge::chars_string(&out))
        },
    }
}

// ---------------------------------------------------------------------------
// The BIP84 template
// ---------------------------------------------------------------------------

/// The template for a wallet that holds its own private key material: the
/// derivable key in text form and the sub-chain the descriptor serves. The
/// key engine and its trusted callers expand it; the watch-only flow never
/// uses it.
pub struct Bip84 {
    pub key: String,
    pub keychain: KeychainKind,
}

/// The template a watch-only descriptor pair is built from: an account-level
/// extended public key, the master key's fingerprint, and the sub-chain the
/// descriptor serves. Building it never serializes private material.
pub struct Bip84Public {
    pub xpub: String,
    pub fingerprint: String,
    pub keychain: KeychainKind,
}

/// The descriptor the template expands to: the supported template applied to
/// the key, with the origin path fixed to the network's hardened account path.
pub open spec fn spec_bip84_descriptor(
    xpub: Seq<char>,
    fingerprint: Seq<char>,
    keychain: KeychainKind,
    network: Network,
) -> DescriptorView {
    DescriptorView::Wpkh(
        DescriptorKeyView {
            origin_fingerprint: fingerprint,
            origin_path: spec_account_path(network),
            xkey: xpub,
            keychain,
        },
    )
}

impl Bip84Public {
    /// Materializes the descriptor for a network. All networks the library
    /// models are supported, so building cannot fail.
    pub fn build(&self, network: &Network) -> (r: Descriptor)
        ensures
            r@ == spec_bip84_descriptor(self.xpub@, self.fingerprint@, self.keychain, *network),
    {
        Descriptor::Wpkh(
            DescriptorKey {
                origin_fingerprint: self.fingerprint.clone(),
                origin_path: account_path(network),
                xkey: self.xpub.clone(),
                keychain: self.keychain,
            },
        )
    }
}

// ---------------------------------------------------------------------------
// Parsing
// ---------------------------------------------------------------------------

/// How many leading characters of the text are key characters.
pub open spec fn keychars_prefix_len(s: Seq<char>) -> nat
    decreases s.len(),
{
    if s.len() == 0 || !is_key_char(s[0]) {
        0
    } else {
        1 + keychars_prefix_len(s.skip(1))
    }
}

pub(crate) proof fn lemma_keychars_prefix_chars(s: Seq<char>)
    ensures
        keychars_prefix_len(s) <= s.len(),
        forall|i: int| 0 <= i < keychars_prefix_len(s) ==> is_key_char(#[trigger] s[i]),
        keychars_prefix_len(s) < s.len() ==> !is_key_char(s[keychars_prefix_len(s) as int]),
    decreases s.len(),
{
    if s.len() != 0 && is_key_char(s[0]) {
        lemma_keychars_prefix_chars(s.skip(1));
        let t = s.skip(1);
        assert(keychars_prefix_len(s) == 1 + keychars_prefix_len(t));
        assert forall|i: int| 0 <= i < keychars_prefix_len(s) implies is_key_char(s[i]) by {
            if i > 0 {
                assert(t[i - 1] == s[i]);
                assert(is_key_char(t[i - 1]));
            }
        }
        if keychars_prefix_len(s) < s.len() {
            assert(t[keychars_prefix_len(t) as int] == s[keychars_prefix_len(s) as int]);
        }
    }
}

/// The key-character run of key text followed by a non-key character is the
/// key text itself.
pub(crate) proof fn lemma_keychars_prefix_concat(a: Seq<char>, b: Seq<char>)
    requires
        forall|i: int| 0 <= i < a.len() ==> is_key_char(#[trigger] a[i]),
        b.len() == 0 || !is_key_char(b[0]),
    ensures
        keychars_prefix_len(a + b) == a.len(),
    decreases a.len(),
{
    if a.len() == 0 {
        assert(a + b =~= b);
    } else {
        assert((a + b)[0] == a[0]);
        assert((a + b).skip(1) =~= a.skip(1) + b);
        assert(forall|i: int| 0 <= i < a.skip(1).len() ==> #[trigger] a.skip(1)[i] == a[i + 1]);
        lemma_keychars_prefix_concat(a.skip(1), b);
    }
}

/// Parses everything of a descriptor after its template tag; returns the key
/// and the remaining text.
#[verifier::opaque]
pub open spec fn spec_parse_descriptor_body(s: Seq<char>) -> Option<
    (DescriptorKeyView, Seq<char>),
> {
    if s.len() < 2 || s[0] != '(' || s[1] != '[' {
        None
    } else {
        let t = s.skip(2);
        if t.len() < 8 || !(forall|i: int| 0 <= i < 8 ==> is_hex_lower_char(#[trigger] t[i])) {
            None
        } else {
            let fp = t.take(8);
            match spec_parse_steps(t.skip(8)) {
                None => None,
                Some((path, r1)) => if r1.len() == 0 || r1[0] != ']' {
                    None
                } else {
                    let r2 = r1.skip(1);
                    let k = keychars_prefix_len(r2);
                    if k == 0 {
                        None
                    } else {
                        let xkey = r2.take(k as int);
                        let r3 = r2.skip(k as int);
                        if r3.len() < 5 || r3[0] != '/' || r3[2] != '/' || r3[3] != '*' || r3[4]
                            != ')' {
                            None
                        } else if r3[1] == '0' {
                            Some(
                                (
                                    DescriptorKeyView {
                                        origin_fingerprint: fp,
                                        origin_path: path,
                                        xkey,
                                        keychain: KeychainKind::External,
                                    },
                                    r3.skip(5),
                                ),
                            )
                        } else if r3[1] == '1' {
                            Some(
                                (
                                    DescriptorKeyView {
                                        origin_fingerprint: fp,
                                        origin_path: path,
                                        xkey,
                                        keychain: KeychainKind::Internal,
                                    },
                                    r3.skip(5),
                                ),
                            )
                        } else {
                            None
                        }
                    }
                },
            }
        }
    }
}

/// Parses a descriptor: a `wpkh` or `pkh` template tag and its body; returns
/// the descriptor and the remaining text.
#[verifier::opaque]
pub open spec fn spec_parse_descriptor(s: Seq<char>) -> Option<(DescriptorView, Seq<char>)> {
    if s.len() >= 4 && s[0] == 'w' && s[1] == 'p' && s[2] == 'k' && s[3] == 'h' {
        match spec_parse_descriptor_body(s.skip(4)) {
            None => None,
            Some((k, r)) => Some((DescriptorView::Wpkh(k), r)),
        }
    } else if s.len() >= 3 && s[0] == 'p' && s[1] == 'k' && s[2] == 'h' {
        match spec_parse_descriptor_body(s.skip(3)) {
            None => None,
            Some((k, r)) => Some((DescriptorView::Pkh(k), r)),
        }
    } else {
        None
    }
}

/// The body of a rendered well-formed descriptor key, followed by anything,
/// parses back to the same key.
#[verifier::rlimit(60)]
proof fn lemma_parse_descriptor_body_roundtrip(k: DescriptorKeyView, rest: Seq<char>)
    requires
        desc_key_wf(k),
    ensures
        spec_parse_descriptor_body(spec_render_descriptor_body(k) + rest) == Some((k, rest)),
{
    reveal(spec_render_descriptor_body);
    reveal(spec_parse_descriptor_body);
    let cc = digit_char(k.keychain.spec_child_index() as nat);
    let suffix = seq!['/', cc, '/', '*', ')'];
    let sb = spec_render_descriptor_body(k) + rest;
    assert(sb =~= seq!['(', '['] + k.origin_fingerprint + spec_render_steps(k.origin_path)
        + seq![']'] + k.xkey + suffix + rest);
    assert(sb[0] == '(' && sb[1] == '[');
    let t = sb.skip(2);
    assert(t =~= k.origin_fingerprint + (spec_render_steps(k.origin_path) + seq![']'] + k.xkey
        + suffix + rest));
    assert(forall|i: int| 0 <= i < 8 ==> #[trigger] t[i] == k.origin_fingerprint[i]);
    assert(t.len() >= 8);
    assert(t.take(8) =~= k.origin_fingerprint);
    let after_fp = spec_render_steps(k.origin_path) + (seq![']'] + k.xkey + suffix + rest);
    assert(t.skip(8) =~= after_fp);
    let steps_rest = seq![']'] + k.xkey + suffix + rest;
    assert(after_fp =~= spec_render_steps(k.origin_path) + steps_rest);
    assert(stops_steps(']'));
    crate::bip32::lemma_parse_steps_roundtrip(k.origin_path, steps_rest);
    assert(spec_parse_steps(t.skip(8)) == Some((k.origin_path, steps_rest)));
    assert(steps_rest[0] == ']');
    let r2 = steps_rest.skip(1);
    assert(r2 =~= k.xkey + (suffix + rest));
    assert(!is_key_char('/'));
    assert((suffix + rest)[0] == '/');
    lemma_keychars_prefix_concat(k.xkey, suffix + rest);
    assert(keychars_prefix_len(r2) == k.xkey.len());
    assert(k.xkey.len() > 0);
    assert(r2.take(k.xkey.len() as int) =~= k.xkey);
    let r3 = r2.skip(k.xkey.len() as int);
    assert(r3 =~= suffix + rest);
    assert(r3[0] == '/' && r3[1] == cc && r3[2] == '/' && r3[3] == '*' && r3[4] == ')');
    assert(r3.skip(5) =~= rest);
    match k.keychain {
        KeychainKind::External => {
            assert(cc == '0');
        },
        KeychainKind::Internal => {
            assert(cc == '1');
            assert(cc != '0');
        },
    }
    assert(spec_parse_descriptor_body(sb) == Some((k, rest)));
}

/// A rendered well-formed descriptor followed by anything parses back to the
/// same descriptor.
#[verifier::rlimit(100)]
pub proof fn lemma_parse_descriptor_roundtrip(d: DescriptorView, rest: Seq<char>)
    requires
        desc_wf(d),
    ensures
        spec_parse_descriptor(spec_render_descriptor(d) + rest) == Some((d, rest)),
{
    reveal(spec_parse_descriptor);
    let k = d.key();
    let s = spec_render_descriptor(d) + rest;
    let sb = spec_render_descriptor_body(k) + rest;
    assert(s =~= spec_tag(d) + sb);
    lemma_parse_descriptor_body_roundtrip(k, rest);
    assert(spec_parse_descriptor_body(sb) == Some((k, rest)));
    match d {
        DescriptorView::Wpkh(_) => {
            assert(s[0] == 'w' && s[1] == 'p' && s[2] == 'k' && s[3] == 'h');
            assert(s.skip(4) =~= sb);
        },
        DescriptorView::Pkh(_) => {
            assert(s[0] == 'p' && s[1] == 'k' && s[2] == 'h');
            assert(s.skip(3) =~= sb);
        },
    }
}

fn char_is_hex_lower(c: char) -> (r: bool)
    ensures
        r == is_hex_lower_char(c),
{
    let u = c as u32;
    (48 <= u && u <= 57) || (97 <= u && u <= 102)
}

fn char_is_key(c: char) -> (r: bool)
    ensures
        r == is_key_char(c),
{
    let u = c as u32;
    (48 <= u && u <= 57) || (65 <= u && u <= 90) || (97 <= u && u <= 122)
}

/// The length of the key-character run starting at `i`.
pub(crate) fn keychars_run(v: &Vec<char>, i: usize) -> (r: usize)
    requires
        i <= v.len(),
    ensures
        r == keychars_prefix_len(v@.skip(i as int)),
        i + r <= v.len(),
    decreases v.len() - i,
{
    if i == v.len() || !char_is_key(v[i]) {
        assert(keychars_prefix_len(v@.skip(i as int)) == 0);
        0
    } else {
        let r = keychars_run(v, i + 1);
        assert(v@.skip(i as int).skip(1) =~= v@.skip((i + 1) as int));
        assert(v@.skip(i as int)[0] == v@[i as int]);
        1 + r
    }
}

/// Parses the body of a descriptor at position `i` (right after the template
/// tag); on success returns the key and the position after the body.
fn parse_descriptor_body(v: &Vec<char>, i: usize) -> (r: Option<(DescriptorKey, usize)>)
    requires
        i <= v.len(),
    ensures
        match r {
            Some((k, j)) => {
                &&& spec_parse_descriptor_body(v@.skip(i as int)) == Some((k@, v@.skip(j as int)))
                &&& i <= j <= v.len()
            },
            None => spec_parse_descriptor_body(v@.skip(i as int)) is None,
        },
{
    proof {
        reveal(spec_parse_descriptor_body);
    }
    let s = Ghost(v@.skip(i as int));
    proof {
        assert(forall|m: int| 0 <= m < s@.len() ==> #[trigger] s@[m] == v@[i + m]);
    }
    if v.len() - i < 2 || v[i] != '(' || v[i + 1] != '[' {
        return None;
    }
    let t0 = i + 2;
    assert(v@.skip(t0 as int) =~= s@.skip(2));
    let t = Ghost(v@.skip(t0 as int));
    assert(t@ == s@.skip(2));
    if v.len() - t0 < 8 {
        return None;
    }
    let mut m: usize = 0;
    while m < 8
        invariant
            0 <= m <= 8,
            i + 2 == t0,
            t0 + 8 <= v.len(),
            s@ == v@.skip(i as int),
            t@ == v@.skip(t0 as int),
            t@ == s@.skip(2),
            forall|q: int| 0 <= q < m ==> is_hex_lower_char(#[trigger] t@[q]),
        decreases 8 - m,
    {
        if !char_is_hex_lower(v[t0 + m]) {
            proof {
                reveal(spec_parse_descriptor_body);
            }
            assert(t@[m as int] == v@[(t0 + m) as int]);
            assert(!is_hex_lower_char(t@[m as int]));
            assert(!(forall|q: int| 0 <= q < 8 ==> is_hex_lower_char(#[trigger] t@[q])));
            return None;
        }
        assert(t@[m as int] == v@[(t0 + m) as int]);
        m = m + 1;
    }
    assert(forall|q: int| 0 <= q < 8 ==> is_hex_lower_char(#[trigger] t@[q]));
    let fp_chars = copy_range(v, t0, t0 + 8);
    assert(fp_chars@ =~= t@.take(8));
    let fp = bdk_bridge::chars_string(&fp_chars);
    assert(v@.skip((t0 + 8) as int) =~= t@.skip(8));
    match crate::bip32::parse_steps(v, t0 + 8) {
        None => None,
        Some((path, j1)) => {
            if j1 == v.len() || v[j1] != ']' {
                proof {
                    let r1 = v@.skip(j1 as int);
                    if j1 < v.len() {
                        assert(r1[0] == v@[j1 as int]);
                    }
                }
                return None;
            }
            assert(v@.skip(j1 as int)[0] == ']');
            let j2 = j1 + 1;
            assert(v@.skip(j2 as int) =~= v@.skip(j1 as int).skip(1));
            let klen = keychars_run(v, j2);
            if klen == 0 {
                return None;
            }
            let key_chars = copy_range(v, j2, j2 + klen);
            assert(key_chars@ =~= v@.skip(j2 as int).take(klen as int));
            let xkey = bdk_bridge::chars_string(&key_chars);
            let j3 = j2 + klen;
            let r3 = Ghost(v@.skip(j3 as int));
            assert(r3@ =~= v@.skip(j2 as int).skip(klen as int));
            proof {
                assert(forall|q: int| 0 <= q < r3@.len() ==> #[trigger] r3@[q] == v@[j3 + q]);
            }
            if v.len() - j3 < 5 || v[j3] != '/' || v[j3 + 2] != '/' || v[j3 + 3] != '*' || v[j3
                + 4] != ')' {
                return None;
            }
            let keychain = if v[j3 + 1] == '0' {
                KeychainKind::External
            } else if v[j3 + 1] == '1' {
                KeychainKind::Internal
            } else {
                return None;
            };
            let j4 = j3 + 5;
            assert(v@.skip(j4 as int) =~= r3@.skip(5));
            Some(
                (
                    DescriptorKey { origin_fingerprint: fp, origin_path: path, xkey, keychain },
                    j4,
                ),
            )
        },
    }
}

/// Parses a descriptor at position `i`; on success returns the descriptor and
/// the position after it.
pub(crate) fn parse_descriptor(v: &Vec<char>, i: usize) -> (r: Option<(Descriptor, usize)>)
    requires
        i <= v.len(),
    ensures
        match r {
            Some((d, j)) => {
                &&& spec_parse_descriptor(v@.skip(i as int)) == Some((d@, v@.skip(j as int)))
                &&& i <= j <= v.len()
            },
            None => spec_parse_descriptor(v@.skip(i as int)) is None,
        },
{
    proof {
        reveal(spec_parse_descriptor);
    }
    let s = Ghost(v@.skip(i as int));
    proof {
        assert(forall|m: int| 0 <= m < s@.len() ==> #[trigger] s@[m] == v@[i + m]);
    }
    if v.len() - i >= 4 && v[i] == 'w' && v[i + 1] == 'p' && v[i + 2] == 'k' && v[i + 3] == 'h' {
        assert(v@.skip((i + 4) as int) =~= s@.skip(4));
        match parse_descriptor_body(v, i + 4) {
            None => None,
            Some((k, j)) => Some((Descriptor::Wpkh(k), j)),
        }
    } else if v.len() - i >= 3 && v[i] == 'p' && v[i + 1] == 'k' && v[i + 2] == 'h' {
        assert(v@.skip((i + 3) as int) =~= s@.skip(3));
        match parse_descriptor_body(v, i + 3) {
            None => None,
            Some((k, j)) => Some((Descriptor::Pkh(k), j)),
        }
    } else {
        None
    }
}

} // verus!
