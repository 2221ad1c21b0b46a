//! The wire format of a wallet backup record: a single JSON object holding
//! the master key, the descriptor pairs, and optionally the cached wallet
//! name, exactly as
//! `{"wif":"...","descriptors":[["...","..."]],"wallet_name":"..."}`.
//! This canonical compact rendering — these keys, in this order, with no
//! insignificant whitespace — is the one wire form the library defines;
//! parsing inverts it, and the round trip is proved lossless. Text in any
//! other formatting is refused as malformed.
use vstd::prelude::*;

use crate::bdk_bridge;
use crate::descriptor::Descriptor;
use crate::descriptor::DescriptorView;
use crate::descriptor::desc_wf;
use crate::descriptor::keychars_prefix_len;
use crate::descriptor::is_key_char;
use crate::descriptor::keychars_run;
use crate::descriptor::lemma_keychars_prefix_chars;
use crate::descriptor::lemma_keychars_prefix_concat;
use crate::descriptor::parse_descriptor;
use crate::descriptor::push_descriptor;
use crate::descriptor::push_str_chars;
use crate::descriptor::copy_range;
use crate::descriptor::spec_parse_descriptor;
use crate::descriptor::spec_render_descriptor;
use crate::descriptor::lemma_parse_descriptor_roundtrip;
use crate::descriptor::text_is_key;
use crate::wallet_backup::WalletBackupData;
use crate::wallet_backup::WalletBackupDataView;
use crate::wallet_backup::backup_wf;
use crate::wallet_backup::pair_view;

verus! {

/// Why a backup file could not be read back.
#[derive(Clone, Copy, Debug, PartialEq, Eq, Structural)]
pub enum SerializationError {
    /// The text is not the wire form of any well-formed record.
    Malformed,
}

pub open spec fn lit_head() -> Seq<char> {
    seq!['{', '"', 'w', 'i', 'f', '"', ':', '"']
}

pub open spec fn lit_desc() -> Seq<char> {
    seq!['"', ',', '"', 'd', 'e', 's', 'c', 'r', 'i', 'p', 't', 'o', 'r', 's', '"', ':', '[']
}

pub open spec fn lit_name() -> Seq<char> {
    seq![',', '"', 'w', 'a', 'l', 'l', 'e', 't', '_', 'n', 'a', 'm', 'e', '"', ':', '"']
}

pub open spec fn lit_null() -> Seq<char> {
    seq!['n', 'u', 'l', 'l']
}

// ---------------------------------------------------------------------------
// Serialization
// ---------------------------------------------------------------------------

/// One descriptor pair on the wire: a two-element array of the external
/// descriptor text and the internal descriptor text or `null`.
pub open spec fn spec_serialize_pair(p: (DescriptorView, Option<DescriptorView>)) -> Seq<char> {
    seq!['[', '"'] + spec_render_descriptor(p.0) + seq!['"', ','] + (match p.1 {
        Some(c) => seq!['"'] + spec_render_descriptor(c) + seq!['"'],
        None => lit_null(),
    }) + seq![']']
}

/// The pair list on the wire, comma separated, without the brackets.
pub open spec fn spec_serialize_pairs(ps: Seq<(DescriptorView, Option<DescriptorView>)>) -> Seq<
    char,
>
    decreases ps.len(),
{
    if ps.len() == 0 {
        Seq::<char>::empty()
    } else if ps.len() == 1 {
        spec_serialize_pair(ps[0])
    } else {
        spec_serialize_pair(ps[0]) + seq![','] + spec_serialize_pairs(ps.skip(1))
    }
}

/// The whole record on the wire. The wallet name is optional there: a record
/// without a cached name omits the field.
pub open spec fn spec_serialize(v: WalletBackupDataView) -> Seq<char> {
    lit_head() + v.wif + lit_desc() + spec_serialize_pairs(v.descriptors) + seq![']'] + (match v
        .wallet_name {
        Some(n) => lit_name() + n + seq!['"'],
        None => Seq::<char>::empty(),
    }) + seq!['}']
}

proof fn lemma_serialize_pairs_concat(
    a: Seq<(DescriptorView, Option<DescriptorView>)>,
    b: Seq<(DescriptorView, Option<DescriptorView>)>,
)
    requires
        a.len() > 0,
        b.len() > 0,
    ensures
        spec_serialize_pairs(a + b) == spec_serialize_pairs(a) + seq![',']
            + spec_serialize_pairs(b),
    decreases a.len(),
{
    let s = a + b;
    assert(s.len() >= 2);
    assert(s[0] == a[0]);
    if a.len() == 1 {
        assert(s.skip(1) =~= b);
        assert(spec_serialize_pairs(a) == spec_serialize_pair(a[0]));
        assert(spec_serialize_pairs(s) =~= spec_serialize_pairs(a) + seq![',']
            + spec_serialize_pairs(b));
    } else {
        assert(s.skip(1) =~= a.skip(1) + b);
        lemma_serialize_pairs_concat(a.skip(1), b);
        assert(spec_serialize_pairs(s) =~= spec_serialize_pairs(a) + seq![',']
            + spec_serialize_pairs(b));
    }
}

impl WalletBackupData {
    /// The wire text of this record.
    #[verifier::rlimit(100)]
    pub fn serialize(&self) -> (r: String)
        ensures
            r@ == spec_serialize(self@),
    {
        let mut out: Vec<char> = Vec::new();
        push_str_chars(&mut out, "{\"wif\":\"");
        proof {
            reveal_strlit("{\"wif\":\"");
            assert(out@ =~= lit_head());
        }
        push_str_chars(&mut out, self.wif.as_str());
        push_str_chars(&mut out, "\",\"descriptors\":[");
        proof {
            reveal_strlit("\",\"descriptors\":[");
            assert(out@ =~= lit_head() + self@.wif + lit_desc());
        }
        let ghost ps = self@.descriptors;
        let ghost prefix = lit_head() + self@.wif + lit_desc();
        let mut i: usize = 0;
        while i < self.descriptors.len()
            invariant
                0 <= i <= self.descriptors.len(),
                ps == self@.descriptors,
                ps.len() == self.descriptors.len(),
                forall|m: int| 0 <= m < ps.len() ==> ps[m] == pair_view(
                    #[trigger] self.descriptors@[m],
                ),
                out@ == prefix + spec_serialize_pairs(ps.take(i as int)),
            decreases self.descriptors.len() - i,
        {
            if i > 0 {
                out.push(',');
            }
            let ghost mid = out@;
            let pair = &self.descriptors[i];
            out.push('[');
            out.push('"');
            push_descriptor(&mut out, &pair.0);
            out.push('"');
            out.push(',');
            match &pair.1 {
                Some(c) => {
                    out.push('"');
                    push_descriptor(&mut out, c);
                    out.push('"');
                },
                None => {
                    out.push('n');
                    out.push('u');
                    out.push('l');
                    out.push('l');
                },
            }
            out.push(']');
            proof {
                assert(ps[i as int] == pair_view(self.descriptors@[i as int]));
                assert(out@ =~= mid + spec_serialize_pair(ps[i as int]));
                let t1 = ps.take(i as int);
                let t2 = ps.take((i + 1) as int);
                assert(t2 =~= t1 + seq![ps[i as int]]);
                if i == 0 {
                    assert(t2 =~= seq![ps[0int]]);
                    assert(spec_serialize_pairs(t2) == spec_serialize_pair(ps[0int]));
                    assert(out@ =~= prefix + spec_serialize_pairs(t2));
                } else {
                    lemma_serialize_pairs_concat(t1, seq![ps[i as int]]);
                    assert(spec_serialize_pairs(seq![ps[i as int]]) == spec_serialize_pair(
                        ps[i as int],
                    ));
                    assert(out@ =~= prefix + spec_serialize_pairs(t2));
                }
            }
            i = i + 1;
        }
        assert(ps.take(ps.len() as int) =~= ps);
        out.push(']');
        match &self.wallet_name {
            None => {},
            Some(n) => {
                push_str_chars(&mut out, ",\"wallet_name\":\"");
                proof {
                    reveal_strlit(",\"wallet_name\":\"");
                }
                push_str_chars(&mut out, n.as_str());
                out.push('"');
            },
        }
        out.push('}');
        assert(out@ =~= spec_serialize(self@));
        bdk_bridge::chars_string(&out)
    }
}

// ---------------------------------------------------------------------------
// Parsing
// ---------------------------------------------------------------------------

pub open spec fn starts_with(s: Seq<char>, l: Seq<char>) -> bool {
    s.len() >= l.len() && forall|i: int| 0 <= i < l.len() ==> s[i] == l[i]
}

/// Parses one descriptor pair, `["...",...]`, and returns it with the
/// remaining text.
pub open spec fn spec_parse_pair(s: Seq<char>) -> Option<
    ((DescriptorView, Option<DescriptorView>), Seq<char>),
> {
    if s.len() < 2 || s[0] != '[' || s[1] != '"' {
        None
    } else {
        match spec_parse_descriptor(s.skip(2)) {
            None => None,
            Some((d, r1)) => if r1.len() < 2 || r1[0] != '"' || r1[1] != ',' {
                None
            } else {
                let r2 = r1.skip(2);
                if r2.len() >= 1 && r2[0] == '"' {
                    match spec_parse_descriptor(r2.skip(1)) {
                        None => None,
                        Some((c, r3)) => if r3.len() >= 2 && r3[0] == '"' && r3[1] == ']' {
                            Some(((d, Some(c)), r3.skip(2)))
                        } else {
                            None
                        },
                    }
                } else if starts_with(r2, lit_null() + seq![']']) {
                    Some(((d, None), r2.skip(5)))
                } else {
                    None
                }
            },
        }
    }
}

proof fn lemma_parse_descriptor_rest_len(s: Seq<char>)
    ensures
        spec_parse_descriptor(s) matches Some((d, r)) ==> r.len() < s.len(),
{
    reveal(crate::descriptor::spec_parse_descriptor);
    if s.len() >= 4 && s[0] == 'w' && s[1] == 'p' && s[2] == 'k' && s[3] == 'h' {
        lemma_parse_descriptor_body_rest_len(s.skip(4));
    } else if s.len() >= 3 && s[0] == 'p' && s[1] == 'k' && s[2] == 'h' {
        lemma_parse_descriptor_body_rest_len(s.skip(3));
    }
}

proof fn lemma_parse_descriptor_body_rest_len(s: Seq<char>)
    ensures
        crate::descriptor::spec_parse_descriptor_body(s) matches Some((k, r)) ==> r.len()
            < s.len(),
{
    reveal(crate::descriptor::spec_parse_descriptor_body);
    if s.len() >= 2 && s[0] == '(' && s[1] == '[' {
        let t = s.skip(2);
        if t.len() >= 8 && (forall|i: int|
            0 <= i < 8 ==> crate::descriptor::is_hex_lower_char(#[trigger] t[i])) {
            match crate::bip32::spec_parse_steps(t.skip(8)) {
                None => {},
                Some((path, r1)) => {
                    crate::bip32::lemma_parse_steps_rest_len(t.skip(8));
                    if r1.len() > 0 && r1[0] == ']' {
                        let r2 = r1.skip(1);
                        let kl = keychars_prefix_len(r2);
                        lemma_keychars_prefix_chars(r2);
                    }
                },
            }
        }
    }
}

proof fn lemma_parse_pair_rest_len(s: Seq<char>)
    ensures
        spec_parse_pair(s) matches Some((p, r)) ==> r.len() < s.len(),
{
    if s.len() >= 2 && s[0] == '[' && s[1] == '"' {
        match spec_parse_descriptor(s.skip(2)) {
            None => {},
            Some((d, r1)) => {
                lemma_parse_descriptor_rest_len(s.skip(2));
                if r1.len() >= 2 && r1[0] == '"' && r1[1] == ',' {
                    let r2 = r1.skip(2);
                    if r2.len() >= 1 && r2[0] == '"' {
                        match spec_parse_descriptor(r2.skip(1)) {
                            None => {},
                            Some((c, r3)) => {
                                lemma_parse_descriptor_rest_len(r2.skip(1));
                            },
                        }
                    }
                }
            },
        }
    }
}

/// Parses the pair list including its closing bracket; returns the pairs and
/// the remaining text.
pub open spec fn spec_parse_pairs(s: Seq<char>) -> Option<
    (Seq<(DescriptorView, Option<DescriptorView>)>, Seq<char>),
>
    decreases s.len(),
    via spec_parse_pairs_decreases
{
    if s.len() == 0 {
        None
    } else if s[0] == ']' {
        Some((Seq::<(DescriptorView, Option<DescriptorView>)>::empty(), s.skip(1)))
    } else {
        match spec_parse_pair(s) {
            None => None,
            Some((p, r)) => if r.len() == 0 {
                None
            } else if r[0] == ',' {
                match spec_parse_pairs(r.skip(1)) {
                    None => None,
                    Some((t, r2)) => Some((seq![p] + t, r2)),
                }
            } else if r[0] == ']' {
                Some((seq![p], r.skip(1)))
            } else {
                None
            },
        }
    }
}

#[via_fn]
proof fn spec_parse_pairs_decreases(s: Seq<char>) {
    if s.len() != 0 && s[0] != ']' {
        lemma_parse_pair_rest_len(s);
    }
}

/// Parses the whole record; the text must be consumed exactly.
pub open spec fn spec_parse_record(s: Seq<char>) -> Option<WalletBackupDataView> {
    if !starts_with(s, lit_head()) {
        None
    } else {
        let r0 = s.skip(8);
        let k = keychars_prefix_len(r0);
        if k == 0 {
            None
        } else {
            let wif = r0.take(k as int);
            let r1 = r0.skip(k as int);
            if !starts_with(r1, lit_desc()) {
                None
            } else {
                match spec_parse_pairs(r1.skip(17)) {
                    None => None,
                    Some((ps, r2)) => if r2.len() == 1 && r2[0] == '}' {
                        Some(WalletBackupDataView { wif, descriptors: ps, wallet_name: None })
                    } else if starts_with(r2, lit_name()) {
                        let r3 = r2.skip(16);
                        let k2 = keychars_prefix_len(r3);
                        if k2 == 0 {
                            None
                        } else {
                            let name = r3.take(k2 as int);
                            let r4 = r3.skip(k2 as int);
                            if r4.len() == 2 && r4[0] == '"' && r4[1] == '}' {
                                Some(
                                    WalletBackupDataView {
                                        wif,
                                        descriptors: ps,
                                        wallet_name: Some(name),
                                    },
                                )
                            } else {
                                None
                            }
                        }
                    } else {
                        None
                    },
                }
            }
        }
    }
}

// ---------------------------------------------------------------------------
// The round trip
// ---------------------------------------------------------------------------

#[verifier::rlimit(100)]
#[verifier::spinoff_prover]
proof fn lemma_parse_pair_some_roundtrip(d: DescriptorView, c: DescriptorView, rest: Seq<char>)
    requires
        desc_wf(d),
        desc_wf(c),
    ensures
        spec_parse_pair(spec_serialize_pair((d, Some(c))) + rest) == Some(((d, Some(c)), rest)),
{
    let p = (d, Some(c));
    let s = spec_serialize_pair(p) + rest;
    let tail1 = seq!['"', ','] + (seq!['"'] + spec_render_descriptor(c) + seq!['"']) + seq![']']
        + rest;
    assert(s =~= seq!['[', '"'] + (spec_render_descriptor(d) + tail1));
    assert(s[0] == '[' && s[1] == '"');
    assert(s.skip(2) =~= spec_render_descriptor(d) + tail1);
    lemma_parse_descriptor_roundtrip(d, tail1);
    assert(tail1[0] == '"' && tail1[1] == ',');
    let r2 = tail1.skip(2);
    assert(r2 =~= seq!['"'] + (spec_render_descriptor(c) + (seq!['"', ']'] + rest)));
    assert(r2[0] == '"');
    assert(r2.skip(1) =~= spec_render_descriptor(c) + (seq!['"', ']'] + rest));
    lemma_parse_descriptor_roundtrip(c, seq!['"', ']'] + rest);
    let r3 = seq!['"', ']'] + rest;
    assert(r3[0] == '"' && r3[1] == ']');
    assert(r3.skip(2) =~= rest);
}

#[verifier::rlimit(100)]
#[verifier::spinoff_prover]
proof fn lemma_parse_pair_none_roundtrip(d: DescriptorView, rest: Seq<char>)
    requires
        desc_wf(d),
    ensures
        spec_parse_pair(spec_serialize_pair((d, None::<DescriptorView>)) + rest) == Some((
            (d, None::<DescriptorView>),
            rest,
        )),
{
    let p = (d, None::<DescriptorView>);
    let s = spec_serialize_pair(p) + rest;
    let tail1 = seq!['"', ','] + lit_null() + seq![']'] + rest;
    assert(s =~= seq!['[', '"'] + (spec_render_descriptor(d) + tail1));
    assert(s[0] == '[' && s[1] == '"');
    assert(s.skip(2) =~= spec_render_descriptor(d) + tail1);
    lemma_parse_descriptor_roundtrip(d, tail1);
    assert(tail1[0] == '"' && tail1[1] == ',');
    let r2 = tail1.skip(2);
    assert(r2 =~= lit_null() + seq![']'] + rest);
    assert(r2[0] == 'n');
    assert(starts_with(r2, lit_null() + seq![']']));
    assert(r2.skip(5) =~= rest);
}

proof fn lemma_parse_pair_roundtrip(p: (DescriptorView, Option<DescriptorView>), rest: Seq<char>)
    requires
        desc_wf(p.0),
        p.1 matches Some(c) ==> desc_wf(c),
    ensures
        spec_parse_pair(spec_serialize_pair(p) + rest) == Some((p, rest)),
{
    match p.1 {
        Some(c) => {
            lemma_parse_pair_some_roundtrip(p.0, c, rest);
            assert((p.0, Some(c)) == p);
        },
        None => {
            lemma_parse_pair_none_roundtrip(p.0, rest);
            assert((p.0, None::<DescriptorView>) == p);
        },
    }
}

proof fn lemma_parse_pairs_roundtrip(
    ps: Seq<(DescriptorView, Option<DescriptorView>)>,
    rest: Seq<char>,
)
    requires
        forall|i: int|
            0 <= i < ps.len() ==> desc_wf((#[trigger] ps[i]).0) && match ps[i].1 {
                Some(c) => desc_wf(c),
                None => true,
            },
    ensures
        spec_parse_pairs(spec_serialize_pairs(ps) + seq![']'] + rest) == Some((ps, rest)),
    decreases ps.len(),
{
    let s = spec_serialize_pairs(ps) + seq![']'] + rest;
    if ps.len() == 0 {
        assert(s =~= seq![']'] + rest);
        assert(s[0] == ']');
        assert(s.skip(1) =~= rest);
        assert(Seq::<(DescriptorView, Option<DescriptorView>)>::empty() =~= ps);
    } else if ps.len() == 1 {
        let after = seq![']'] + rest;
        assert(s =~= spec_serialize_pair(ps[0]) + after);
        lemma_parse_pair_roundtrip(ps[0], after);
        assert(s[0] == '[');
        assert(after[0] == ']');
        assert(after.skip(1) =~= rest);
        assert(seq![ps[0]] =~= ps);
    } else {
        let tail = ps.skip(1);
        assert(forall|i: int|
            0 <= i < tail.len() ==> (#[trigger] tail[i]) == ps[i + 1]);
        lemma_serialize_pairs_concat(seq![ps[0]], tail);
        assert(seq![ps[0]] + tail =~= ps);
        let after = seq![','] + (spec_serialize_pairs(tail) + seq![']'] + rest);
        assert(s =~= spec_serialize_pair(ps[0]) + after);
        lemma_parse_pair_roundtrip(ps[0], after);
        assert(s[0] == '[');
        assert(after[0] == ',');
        assert(after.skip(1) =~= spec_serialize_pairs(tail) + seq![']'] + rest);
        lemma_parse_pairs_roundtrip(tail, rest);
        assert(seq![ps[0]] + tail =~= ps);
    }
}

proof fn lemma_name_tail_some(n: Seq<char>)
    requires
        text_is_key(n),
    ensures
        ({
            let r2 = lit_name() + n + seq!['"', '}'];
            &&& r2.len() != 1
            &&& r2[0] == ','
            &&& starts_with(r2, lit_name())
            &&& keychars_prefix_len(r2.skip(16)) == n.len()
            &&& r2.skip(16).take(n.len() as int) == n
            &&& r2.skip(16).skip(n.len() as int) == seq!['"', '}']
        }),
{
    let r2 = lit_name() + n + seq!['"', '}'];
    assert(r2 =~= lit_name() + (n + seq!['"', '}']));
    assert(starts_with(r2, lit_name()));
    let r3 = r2.skip(16);
    assert(r3 =~= n + seq!['"', '}']);
    assert(!is_key_char('"'));
    lemma_keychars_prefix_concat(n, seq!['"', '}']);
    assert(r3.take(n.len() as int) =~= n);
    assert(r3.skip(n.len() as int) =~= seq!['"', '}']);
}

/// Serialization round trip: parsing the wire text of a well-formed record
/// yields the record again — the master key, the descriptor pairs, and the
/// cached name, exactly.
#[verifier::rlimit(100)]
#[verifier::spinoff_prover]
pub proof fn lemma_backup_round_trip(v: WalletBackupDataView)
    requires
        backup_wf(v),
    ensures
        spec_parse_record(spec_serialize(v)) == Some(v),
{
    let s = spec_serialize(v);
    let name_part: Seq<char> = match v.wallet_name {
        Some(n) => lit_name() + n + seq!['"'],
        None => Seq::<char>::empty(),
    };
    let after_wif = lit_desc() + spec_serialize_pairs(v.descriptors) + seq![']'] + name_part
        + seq!['}'];
    assert(s =~= lit_head() + (v.wif + after_wif));
    assert(starts_with(s, lit_head()));
    let r0 = s.skip(8);
    assert(r0 =~= v.wif + after_wif);
    assert(!is_key_char('"'));
    assert(after_wif[0] == '"');
    lemma_keychars_prefix_concat(v.wif, after_wif);
    assert(keychars_prefix_len(r0) == v.wif.len());
    assert(v.wif.len() > 0);
    assert(r0.take(v.wif.len() as int) =~= v.wif);
    let r1 = r0.skip(v.wif.len() as int);
    assert(r1 =~= after_wif);
    assert(starts_with(r1, lit_desc()));
    let rp = r1.skip(17);
    assert(rp =~= spec_serialize_pairs(v.descriptors) + seq![']'] + (name_part + seq!['}']));
    lemma_parse_pairs_roundtrip(v.descriptors, name_part + seq!['}']);
    assert(spec_parse_pairs(rp) == Some((v.descriptors, name_part + seq!['}'])));
    let r2 = name_part + seq!['}'];
    match v.wallet_name {
        None => {
            assert(r2 =~= seq!['}']);
            assert(r2.len() == 1 && r2[0] == '}');
            assert(WalletBackupDataView {
                wif: v.wif,
                descriptors: v.descriptors,
                wallet_name: None,
            } == v);
        },
        Some(n) => {
            assert(text_is_key(n));
            lemma_name_tail_some(n);
            assert(r2 =~= lit_name() + n + seq!['"', '}']);
            assert(WalletBackupDataView {
                wif: v.wif,
                descriptors: v.descriptors,
                wallet_name: Some(n),
            } == v);
        },
    }
}

// ---------------------------------------------------------------------------
// The executable parser
// ---------------------------------------------------------------------------

fn match_lit(v: &Vec<char>, i: usize, lit: &Vec<char>) -> (r: bool)
    requires
        i <= v.len(),
    ensures
        r == starts_with(v@.skip(i as int), lit@),
{
    if v.len() - i < lit.len() {
        return false;
    }
    let mut j: usize = 0;
    while j < lit.len()
        invariant
            0 <= j <= lit.len(),
            i <= v.len(),
            i + lit.len() <= v.len(),
            forall|m: int| 0 <= m < j ==> v@.skip(i as int)[m] == lit@[m],
        decreases lit.len() - j,
    {
        if v[i + j] != lit[j] {
            assert(v@.skip(i as int)[j as int] == v@[(i + j) as int]);
            return false;
        }
        assert(v@.skip(i as int)[j as int] == v@[(i + j) as int]);
        j = j + 1;
    }
    true
}

#[verifier::rlimit(100)]
fn parse_pair_at(v: &Vec<char>, i: usize) -> (r: Option<((Descriptor, Option<Descriptor>), usize)>)
    requires
        i <= v.len(),
    ensures
        match r {
            Some((p, j)) => {
                &&& spec_parse_pair(v@.skip(i as int)) == Some((pair_view(p), v@.skip(j as int)))
                &&& i < j <= v.len()
            },
            None => spec_parse_pair(v@.skip(i as int)) is None,
        },
{
    let s = Ghost(v@.skip(i as int));
    proof {
        assert(forall|m: int| 0 <= m < s@.len() ==> #[trigger] s@[m] == v@[i + m]);
    }
    if v.len() - i < 2 || v[i] != '[' || v[i + 1] != '"' {
        return None;
    }
    assert(v@.skip((i + 2) as int) =~= s@.skip(2));
    match parse_descriptor(v, i + 2) {
        None => None,
        Some((d, j1)) => {
            let r1 = Ghost(v@.skip(j1 as int));
            proof {
                assert(forall|m: int| 0 <= m < r1@.len() ==> #[trigger] r1@[m] == v@[j1 + m]);
            }
            if v.len() - j1 < 2 || v[j1] != '"' || v[j1 + 1] != ',' {
                return None;
            }
            let j2 = j1 + 2;
            assert(v@.skip(j2 as int) =~= r1@.skip(2));
            let r2 = Ghost(v@.skip(j2 as int));
            proof {
                assert(forall|m: int| 0 <= m < r2@.len() ==> #[trigger] r2@[m] == v@[j2 + m]);
            }
            if j2 < v.len() && v[j2] == '"' {
                assert(v@.skip((j2 + 1) as int) =~= r2@.skip(1));
                match parse_descriptor(v, j2 + 1) {
                    None => None,
                    Some((c, j3)) => {
                        let r3 = Ghost(v@.skip(j3 as int));
                        proof {
                            assert(forall|m: int|
                                0 <= m < r3@.len() ==> #[trigger] r3@[m] == v@[j3 + m]);
                        }
                        if v.len() - j3 < 2 || v[j3] != '"' || v[j3 + 1] != ']' {
                            return None;
                        }
                        assert(v@.skip((j3 + 2) as int) =~= r3@.skip(2));
                        Some(((d, Some(c)), j3 + 2))
                    },
                }
            } else {
                if v.len() - j2 < 5 || v[j2] != 'n' || v[j2 + 1] != 'u' || v[j2 + 2] != 'l' || v[j2
                    + 3] != 'l' || v[j2 + 4] != ']' {
                    proof {
                        if !(j2 < v.len() && v@[j2 as int] == '"') {
                            let ln = lit_null() + seq![']'];
                            if starts_with(r2@, ln) {
                                assert(r2@[0] == 'n');
                                assert(r2@[1] == 'u');
                                assert(r2@[2] == 'l');
                                assert(r2@[3] == 'l');
                                assert(r2@[4] == ']');
                                assert(r2@.len() >= 5);
                            }
                        }
                    }
                    return None;
                }
                proof {
                    let ln = lit_null() + seq![']'];
                    assert(starts_with(r2@, ln));
                }
                assert(v@.skip((j2 + 5) as int) =~= r2@.skip(5));
                Some(((d, None), j2 + 5))
            }
        },
    }
}

fn parse_pairs_at(v: &Vec<char>, i: usize) -> (r: Option<
    (Vec<(Descriptor, Option<Descriptor>)>, usize),
>)
    requires
        i <= v.len(),
    ensures
        match r {
            Some((ps, j)) => {
                &&& spec_parse_pairs(v@.skip(i as int)) == Some(
                    (ps@.map_values(|p: (Descriptor, Option<Descriptor>)| pair_view(p)), v@.skip(
                        j as int,
                    )),
                )
                &&& i < j <= v.len()
            },
            None => spec_parse_pairs(v@.skip(i as int)) is None,
        },
    decreases v.len() - i,
{
    let s = Ghost(v@.skip(i as int));
    proof {
        assert(forall|m: int| 0 <= m < s@.len() ==> #[trigger] s@[m] == v@[i + m]);
    }
    if i == v.len() {
        return None;
    }
    if v[i] == ']' {
        let empty: Vec<(Descriptor, Option<Descriptor>)> = Vec::new();
        assert(v@.skip((i + 1) as int) =~= s@.skip(1));
        assert(empty@.map_values(|p: (Descriptor, Option<Descriptor>)| pair_view(p)) =~= Seq::<
            (DescriptorView, Option<DescriptorView>),
        >::empty());
        return Some((empty, i + 1));
    }
    match parse_pair_at(v, i) {
        None => None,
        Some((p, j1)) => {
            let r = Ghost(v@.skip(j1 as int));
            proof {
                assert(forall|m: int| 0 <= m < r@.len() ==> #[trigger] r@[m] == v@[j1 + m]);
            }
            if j1 == v.len() {
                return None;
            }
            if v[j1] == ',' {
                assert(v@.skip((j1 + 1) as int) =~= r@.skip(1));
                match parse_pairs_at(v, j1 + 1) {
                    None => None,
                    Some((tail, j2)) => {
                        let mut ps: Vec<(Descriptor, Option<Descriptor>)> = Vec::new();
                        ps.push(p);
                        let mut t = tail;
                        ps.append(&mut t);
                        proof {
                            assert(ps@ =~= seq![p] + tail@);
                            assert(ps@.map_values(
                                |q: (Descriptor, Option<Descriptor>)| pair_view(q),
                            ) =~= seq![pair_view(p)] + tail@.map_values(
                                |q: (Descriptor, Option<Descriptor>)| pair_view(q),
                            ));
                        }
                        Some((ps, j2))
                    },
                }
            } else if v[j1] == ']' {
                let mut ps: Vec<(Descriptor, Option<Descriptor>)> = Vec::new();
                ps.push(p);
                assert(v@.skip((j1 + 1) as int) =~= r@.skip(1));
                proof {
                    assert(ps@.map_values(|q: (Descriptor, Option<Descriptor>)| pair_view(q))
                        =~= seq![pair_view(p)]);
                }
                Some((ps, j1 + 1))
            } else {
                None
            }
        },
    }
}

impl WalletBackupData {
    /// Reads a record back from its wire text. Exactly the texts that
    /// `spec_parse_record` accepts are accepted: the canonical compact
    /// rendering that `serialize` writes, with its fixed key order and no
    /// insignificant whitespace. Everything else is a malformed backup.
    #[verifier::rlimit(100)]
    pub fn deserialize(s: &str) -> (r: Result<WalletBackupData, SerializationError>)
        ensures
            match r {
                Ok(rec) => spec_parse_record(s@) == Some(rec@),
                Err(e) => spec_parse_record(s@) is None && e == SerializationError::Malformed,
            },
    {
        let v = bdk_bridge::string_chars(s);
        let head = bdk_bridge::string_chars("{\"wif\":\"");
        proof {
            reveal_strlit("{\"wif\":\"");
            assert(head@ =~= lit_head());
            assert(v@.skip(0) =~= v@);
        }
        if !match_lit(&v, 0, &head) {
            return Err(SerializationError::Malformed);
        }
        let r0 = Ghost(v@.skip(8));
        proof {
            assert(forall|m: int| 0 <= m < r0@.len() ==> #[trigger] r0@[m] == v@[8 + m]);
        }
        let k = keychars_run(&v, 8);
        if k == 0 {
            return Err(SerializationError::Malformed);
        }
        let wif_chars = copy_range(&v, 8, 8 + k);
        assert(wif_chars@ =~= r0@.take(k as int));
        let wif = bdk_bridge::chars_string(&wif_chars);
        let i1 = 8 + k;
        assert(v@.skip(i1 as int) =~= r0@.skip(k as int));
        let descs = bdk_bridge::string_chars("\",\"descriptors\":[");
        proof {
            reveal_strlit("\",\"descriptors\":[");
            assert(descs@ =~= lit_desc());
        }
        if !match_lit(&v, i1, &descs) {
            return Err(SerializationError::Malformed);
        }
        let i2 = i1 + 17;
        assert(v@.skip(i2 as int) =~= v@.skip(i1 as int).skip(17));
        match parse_pairs_at(&v, i2) {
            None => Err(SerializationError::Malformed),
            Some((descriptors, j)) => {
                let r2 = Ghost(v@.skip(j as int));
                proof {
                    assert(forall|m: int| 0 <= m < r2@.len() ==> #[trigger] r2@[m] == v@[j + m]);
                }
                if v.len() - j == 1 && v[j] == '}' {
                    let rec = WalletBackupData { wif, descriptors, wallet_name: None };
                    return Ok(rec);
                }
                let namelit = bdk_bridge::string_chars(",\"wallet_name\":\"");
                proof {
                    reveal_strlit(",\"wallet_name\":\"");
                    assert(namelit@ =~= lit_name());
                }
                if !match_lit(&v, j, &namelit) {
                    proof {
                        if r2@.len() == 1 && r2@[0] == '}' {
                            assert(false);
                        }
                    }
                    return Err(SerializationError::Malformed);
                }
                let j3 = j + 16;
                assert(v@.skip(j3 as int) =~= r2@.skip(16));
                let r3 = Ghost(v@.skip(j3 as int));
                proof {
                    assert(forall|m: int| 0 <= m < r3@.len() ==> #[trigger] r3@[m] == v@[j3 + m]);
                }
                let k2 = keychars_run(&v, j3);
                if k2 == 0 {
                    return Err(SerializationError::Malformed);
                }
                let name_chars = copy_range(&v, j3, j3 + k2);
                assert(name_chars@ =~= r3@.take(k2 as int));
                let name = bdk_bridge::chars_string(&name_chars);
                let j4 = j3 + k2;
                let r4 = Ghost(v@.skip(j4 as int));
                proof {
                    assert(r4@ =~= r3@.skip(k2 as int));
                    assert(forall|m: int| 0 <= m < r4@.len() ==> #[trigger] r4@[m] == v@[j4 + m]);
                }
                if v.len() - j4 == 2 && v[j4] == '"' && v[j4 + 1] == '}' {
                    let rec = WalletBackupData { wif, descriptors, wallet_name: Some(name) };
                    Ok(rec)
                } else {
                    Err(SerializationError::Malformed)
                }
            },
        }
    }
}

} // verus!
