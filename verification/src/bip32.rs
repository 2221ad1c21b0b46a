//! Hierarchical key derivation: derivation paths with hardened and
//! non-hardened steps, their canonical text form, and derivation of extended
//! keys along a path.
use vstd::prelude::*;

use crate::Network;
use crate::bdk_bridge;

verus! {

/// One level of a derivation path: a child index below 2^31, hardened or not.
#[derive(Clone, Copy, Debug, PartialEq, Eq, Structural)]
pub struct ChildStep {
    pub index: u32,
    pub hardened: bool,
}

/// Errors of the derivation engine.
#[derive(Clone, Copy, Debug, PartialEq, Eq, Structural)]
pub enum DerivationError {
    /// The path text is not a well-formed derivation path.
    InvalidPath,
    /// A hardened step was requested from a public-only key.
    PublicDerivationUnsupported,
    /// The extended key text does not parse, or derivation failed inside the
    /// key engine.
    InvalidKey,
}

pub open spec fn step_wf(s: ChildStep) -> bool {
    s.index < 0x8000_0000
}

pub open spec fn path_wf(p: Seq<ChildStep>) -> bool {
    forall|i: int| 0 <= i < p.len() ==> step_wf(#[trigger] p[i])
}

/// Whether any level of the path is hardened.
pub open spec fn spec_any_hardened(p: Seq<ChildStep>) -> bool {
    exists|i: int| 0 <= i < p.len() && (#[trigger] p[i]).hardened
}

// ---------------------------------------------------------------------------
// Decimal digits
// ---------------------------------------------------------------------------

pub open spec fn is_digit_char(c: char) -> bool {
    48 <= c as u32 <= 57
}

pub open spec fn digit_char(d: nat) -> char {
    if d == 0 { '0' }
    else if d == 1 { '1' }
    else if d == 2 { '2' }
    else if d == 3 { '3' }
    else if d == 4 { '4' }
    else if d == 5 { '5' }
    else if d == 6 { '6' }
    else if d == 7 { '7' }
    else if d == 8 { '8' }
    else { '9' }
}

pub open spec fn char_digit(c: char) -> nat {
    (c as u32 - 48) as nat
}

/// The canonical decimal form of a number, most significant digit first.
pub open spec fn spec_decimal(n: nat) -> Seq<char>
    decreases n,
{
    if n < 10 {
        seq![digit_char(n)]
    } else {
        spec_decimal(n / 10).push(digit_char(n % 10))
    }
}

/// The value of a digit string, read most significant digit first.
pub open spec fn decimal_value(ds: Seq<char>) -> nat
    decreases ds.len(),
{
    if ds.len() == 0 {
        0
    } else {
        decimal_value(ds.drop_last()) * 10 + char_digit(ds.last())
    }
}

pub open spec fn pow10(k: nat) -> nat
    decreases k,
{
    if k == 0 { 1 } else { 10 * pow10((k - 1) as nat) }
}

proof fn lemma_digit_char_inverse(d: nat)
    requires
        d < 10,
    ensures
        is_digit_char(digit_char(d)),
        char_digit(digit_char(d)) == d,
{
}

/// Every character of a canonical decimal is a digit, the first one is not a
/// superfluous zero, and the length is at least one.
pub(crate) proof fn lemma_spec_decimal_shape(n: nat)
    ensures
        spec_decimal(n).len() >= 1,
        forall|i: int| 0 <= i < spec_decimal(n).len() ==> is_digit_char(#[trigger] spec_decimal(n)[i]),
        spec_decimal(n).len() > 1 ==> spec_decimal(n)[0] != '0',
        n < pow10(spec_decimal(n).len()),
        spec_decimal(n).len() > 1 ==> n >= pow10((spec_decimal(n).len() - 1) as nat),
    decreases n,
{
    if n < 10 {
        lemma_digit_char_inverse(n);
        assert(spec_decimal(n) == seq![digit_char(n)]);
        assert(pow10(1) == 10 * pow10(0));
    } else {
        lemma_spec_decimal_shape(n / 10);
        let p = spec_decimal(n / 10);
        lemma_digit_char_inverse(n % 10);
        assert(spec_decimal(n) == p.push(digit_char(n % 10)));
        assert(forall|i: int| 0 <= i < p.len() ==> p.push(digit_char(n % 10))[i] == p[i]);
        assert(p[0] != '0') by {
            assert(n / 10 >= 1);
            if p.len() == 1 {
                assert(pow10(1) == 10 * pow10(0));
                assert(n / 10 < 10);
                assert(p == seq![digit_char(n / 10)]);
                lemma_digit_char_inverse(n / 10);
                assert(char_digit(p[0]) == n / 10);
                assert(char_digit('0') == 0);
            }
        }
        assert(n / 10 < pow10(p.len()));
        assert(pow10(p.len() + 1) == 10 * pow10(p.len()));
        assert(n < 10 * pow10(p.len())) by {
            assert(n == (n / 10) * 10 + n % 10);
            assert(n / 10 <= pow10(p.len()) - 1);
            assert((n / 10) * 10 <= (pow10(p.len()) - 1) * 10) by (nonlinear_arith)
                requires n / 10 <= pow10(p.len()) - 1;
        }
        assert(n >= pow10(p.len())) by {
            if p.len() == 1 {
                assert(pow10(1) == 10 * pow10(0));
            } else {
                assert(n / 10 >= pow10((p.len() - 1) as nat));
                assert(pow10(p.len()) == 10 * pow10((p.len() - 1) as nat));
                assert((n / 10) * 10 >= pow10((p.len() - 1) as nat) * 10) by (nonlinear_arith)
                    requires n / 10 >= pow10((p.len() - 1) as nat);
                assert(n >= (n / 10) * 10);
            }
        }
    }
}

/// Reading the canonical decimal of a number back gives the number.
proof fn lemma_decimal_value_roundtrip(n: nat)
    ensures
        decimal_value(spec_decimal(n)) == n,
    decreases n,
{
    if n < 10 {
        lemma_digit_char_inverse(n);
        let ds = spec_decimal(n);
        assert(ds == seq![digit_char(n)]);
        assert(ds.drop_last() =~= Seq::<char>::empty());
        assert(decimal_value(Seq::<char>::empty()) == 0);
        assert(ds.last() == digit_char(n));
        assert(decimal_value(ds) == 0 * 10 + char_digit(digit_char(n)));
    } else {
        lemma_decimal_value_roundtrip(n / 10);
        lemma_digit_char_inverse(n % 10);
        let ds = spec_decimal(n);
        assert(ds == spec_decimal(n / 10).push(digit_char(n % 10)));
        assert(ds.drop_last() =~= spec_decimal(n / 10));
        assert(ds.last() == digit_char(n % 10));
        assert(decimal_value(ds) == (n / 10) * 10 + n % 10);
    }
}

/// How many leading characters of the text are digits.
pub open spec fn digits_prefix_len(s: Seq<char>) -> nat
    decreases s.len(),
{
    if s.len() == 0 || !is_digit_char(s[0]) {
        0
    } else {
        1 + digits_prefix_len(s.skip(1))
    }
}

proof fn lemma_digits_prefix_le(s: Seq<char>)
    ensures
        digits_prefix_len(s) <= s.len(),
    decreases s.len(),
{
    if s.len() != 0 && is_digit_char(s[0]) {
        lemma_digits_prefix_le(s.skip(1));
    }
}

proof fn lemma_digits_prefix_chars(s: Seq<char>)
    ensures
        digits_prefix_len(s) <= s.len(),
        forall|i: int| 0 <= i < digits_prefix_len(s) ==> is_digit_char(#[trigger] s[i]),
        digits_prefix_len(s) < s.len() ==> !is_digit_char(s[digits_prefix_len(s) as int]),
    decreases s.len(),
{
    if s.len() != 0 && is_digit_char(s[0]) {
        lemma_digits_prefix_chars(s.skip(1));
        let t = s.skip(1);
        assert(digits_prefix_len(s) == 1 + digits_prefix_len(t));
        assert forall|i: int| 0 <= i < digits_prefix_len(s) implies is_digit_char(s[i]) by {
            if i > 0 {
                assert(t[i - 1] == s[i]);
                assert(is_digit_char(t[i - 1]));
            }
        }
        if digits_prefix_len(s) < s.len() {
            assert(t[digits_prefix_len(t) as int] == s[digits_prefix_len(s) as int]);
        }
    }
}

/// The digit run of a digit string followed by a non-digit is the digit
/// string itself.
proof fn lemma_digits_prefix_concat(a: Seq<char>, b: Seq<char>)
    requires
        forall|i: int| 0 <= i < a.len() ==> is_digit_char(#[trigger] a[i]),
        b.len() == 0 || !is_digit_char(b[0]),
    ensures
        digits_prefix_len(a + b) == a.len(),
    decreases a.len(),
{
    if a.len() == 0 {
        assert(a + b =~= b);
    } else {
        assert((a + b)[0] == a[0]);
        assert((a + b).skip(1) =~= a.skip(1) + b);
        assert(forall|i: int| 0 <= i < a.skip(1).len() ==> #[trigger] a.skip(1)[i] == a[i + 1]);
        lemma_digits_prefix_concat(a.skip(1), b);
    }
}

/// Parses a child index: a run of decimal digits without a superfluous
/// leading zero, valued below 2^31. Returns the index and the remaining text.
pub open spec fn spec_parse_index(s: Seq<char>) -> Option<(u32, Seq<char>)> {
    let k = digits_prefix_len(s);
    if k == 0 || k > 10 {
        None
    } else if k > 1 && s[0] == '0' {
        None
    } else if decimal_value(s.take(k as int)) < 0x8000_0000 {
        Some((decimal_value(s.take(k as int)) as u32, s.skip(k as int)))
    } else {
        None
    }
}

/// The canonical decimal of an index, followed by anything that does not
/// extend the digit run, parses back to the index.
proof fn lemma_parse_index_roundtrip(n: u32, rest: Seq<char>)
    requires
        n < 0x8000_0000,
        rest.len() == 0 || !is_digit_char(rest[0]),
    ensures
        spec_parse_index(spec_decimal(n as nat) + rest) == Some((n, rest)),
{
    let ds = spec_decimal(n as nat);
    let s = ds + rest;
    lemma_spec_decimal_shape(n as nat);
    lemma_decimal_value_roundtrip(n as nat);
    lemma_digits_prefix_concat(ds, rest);
    assert(digits_prefix_len(s) == ds.len());
    assert(ds.len() <= 10) by {
        if ds.len() > 10 {
            assert(n as nat >= pow10((ds.len() - 1) as nat));
            assert(pow10(10) <= pow10((ds.len() - 1) as nat)) by {
                lemma_pow10_le(10, (ds.len() - 1) as nat);
            }
            assert(pow10(10) == 10_000_000_000) by {
                reveal_with_fuel(pow10, 11);
            }
        }
    }
    assert(s.take(ds.len() as int) =~= ds);
    assert(s.skip(ds.len() as int) =~= rest);
    assert(s[0] == ds[0]);
    if ds.len() > 1 {
        assert(ds[0] != '0');
    }
}

proof fn lemma_pow10_le(a: nat, b: nat)
    requires
        a <= b,
    ensures
        pow10(a) <= pow10(b),
    decreases b,
{
    if a < b {
        lemma_pow10_le(a, (b - 1) as nat);
        assert(pow10(b) == 10 * pow10((b - 1) as nat));
    }
}

// ---------------------------------------------------------------------------
// Rendering paths
// ---------------------------------------------------------------------------

/// The canonical text of one step: the index in decimal, with a trailing
/// apostrophe when the step is hardened.
pub open spec fn spec_render_step(s: ChildStep) -> Seq<char> {
    spec_decimal(s.index as nat) + (if s.hardened { seq!['\''] } else { Seq::<char>::empty() })
}

/// The canonical text of the steps of a path: each step after a slash.
pub open spec fn spec_render_steps(p: Seq<ChildStep>) -> Seq<char>
    decreases p.len(),
{
    if p.len() == 0 {
        Seq::<char>::empty()
    } else {
        seq!['/'] + spec_render_step(p[0]) + spec_render_steps(p.skip(1))
    }
}

/// The canonical text of a whole path: `m`, then the steps.
pub open spec fn spec_render_path(p: Seq<ChildStep>) -> Seq<char> {
    seq!['m'] + spec_render_steps(p)
}

proof fn lemma_render_steps_concat(a: Seq<ChildStep>, b: Seq<ChildStep>)
    ensures
        spec_render_steps(a + b) == spec_render_steps(a) + spec_render_steps(b),
    decreases a.len(),
{
    if a.len() == 0 {
        assert(a + b =~= b);
        assert(spec_render_steps(a) + spec_render_steps(b) =~= spec_render_steps(b));
    } else {
        assert((a + b)[0] == a[0]);
        assert((a + b).skip(1) =~= a.skip(1) + b);
        lemma_render_steps_concat(a.skip(1), b);
        assert(spec_render_steps(a + b) =~= spec_render_steps(a) + spec_render_steps(b));
    }
}

fn digit_to_char(d: u32) -> (r: char)
    requires
        d < 10,
    ensures
        r == digit_char(d as nat),
{
    if d == 0 { '0' }
    else if d == 1 { '1' }
    else if d == 2 { '2' }
    else if d == 3 { '3' }
    else if d == 4 { '4' }
    else if d == 5 { '5' }
    else if d == 6 { '6' }
    else if d == 7 { '7' }
    else if d == 8 { '8' }
    else { '9' }
}

/// Appends the canonical decimal of `n`.
fn push_decimal(out: &mut Vec<char>, n: u32)
    ensures
        final(out)@ == old(out)@ + spec_decimal(n as nat),
    decreases n,
{
    if n < 10 {
        out.push(digit_to_char(n));
        assert(out@ =~= old(out)@ + spec_decimal(n as nat));
    } else {
        push_decimal(out, n / 10);
        out.push(digit_to_char(n % 10));
        assert(out@ =~= old(out)@ + spec_decimal(n as nat));
    }
}

fn push_step(out: &mut Vec<char>, s: &ChildStep)
    ensures
        final(out)@ == old(out)@ + seq!['/'] + spec_render_step(*s),
{
    out.push('/');
    push_decimal(out, s.index);
    if s.hardened {
        out.push('\'');
    }
    assert(out@ =~= old(out)@ + seq!['/'] + spec_render_step(*s));
}

pub(crate) fn push_steps(out: &mut Vec<char>, p: &Vec<ChildStep>)
    ensures
        final(out)@ == old(out)@ + spec_render_steps(p@),
{
    let mut i: usize = 0;
    while i < p.len()
        invariant
            i <= p.len(),
            out@ == old(out)@ + spec_render_steps(p@.take(i as int)),
        decreases p.len() - i,
    {
        push_step(out, &p[i]);
        proof {
            let single = seq![p@[i as int]];
            assert(p@.take((i + 1) as int) =~= p@.take(i as int) + single);
            lemma_render_steps_concat(p@.take(i as int), single);
            assert(single.skip(1) =~= Seq::<ChildStep>::empty());
            assert(spec_render_steps(Seq::<ChildStep>::empty()) == Seq::<char>::empty());
            assert(single[0] == p@[i as int]);
            assert(spec_render_steps(single) =~= seq!['/'] + spec_render_step(p@[i as int]));
            assert(out@ =~= old(out)@ + spec_render_steps(p@.take((i + 1) as int)));
        }
        i = i + 1;
    }
    assert(p@.take(p@.len() as int) =~= p@);
}

/// Appends the canonical path text, `m` first.
pub(crate) fn push_path(out: &mut Vec<char>, p: &Vec<ChildStep>)
    ensures
        final(out)@ == old(out)@ + spec_render_path(p@),
{
    out.push('m');
    push_steps(out, p);
    assert(out@ =~= old(out)@ + spec_render_path(p@));
}

/// The canonical text of a derivation path, such as `m/84'/0'/0'`.
pub fn render_path(p: &Vec<ChildStep>) -> (r: String)
    ensures
        r@ == spec_render_path(p@),
{
    let mut out: Vec<char> = Vec::new();
    push_path(&mut out, p);
    bdk_bridge::chars_string(&out)
}

// ---------------------------------------------------------------------------
// Parsing paths
// ---------------------------------------------------------------------------

/// Parses `/index['] ...` step groups until the text stops starting with a
/// slash; returns the steps and the remaining text.
pub open spec fn spec_parse_steps(s: Seq<char>) -> Option<(Seq<ChildStep>, Seq<char>)>
    decreases s.len(),
    via spec_parse_steps_decreases
{
    if s.len() == 0 || s[0] != '/' {
        Some((Seq::<ChildStep>::empty(), s))
    } else {
        match spec_parse_index(s.skip(1)) {
            None => None,
            Some((idx, r1)) => {
                let hardened = r1.len() > 0 && r1[0] == '\'';
                let r2 = if hardened { r1.skip(1) } else { r1 };
                match spec_parse_steps(r2) {
                    None => None,
                    Some((tail, r3)) => Some(
                        (seq![ChildStep { index: idx, hardened }] + tail, r3),
                    ),
                }
            },
        }
    }
}

#[via_fn]
proof fn spec_parse_steps_decreases(s: Seq<char>) {
    if !(s.len() == 0 || s[0] != '/') {
        lemma_digits_prefix_le(s.skip(1));
        match spec_parse_index(s.skip(1)) {
            Some((idx, r1)) => {
                let k = digits_prefix_len(s.skip(1));
                assert(k >= 1);
                assert(r1 == s.skip(1).skip(k as int));
                assert(r1.len() <= s.len() - 2);
            },
            None => {},
        }
    }
}

/// Whatever the step parser leaves over is no longer than its input.
pub(crate) proof fn lemma_parse_steps_rest_len(s: Seq<char>)
    ensures
        spec_parse_steps(s) matches Some((p, r)) ==> r.len() <= s.len(),
    decreases s.len(),
{
    if s.len() == 0 || s[0] != '/' {
    } else {
        match spec_parse_index(s.skip(1)) {
            None => {},
            Some((idx, r1)) => {
                lemma_digits_prefix_le(s.skip(1));
                let hardened = r1.len() > 0 && r1[0] == '\'';
                let r2 = if hardened { r1.skip(1) } else { r1 };
                lemma_parse_steps_rest_len(r2);
            },
        }
    }
}

/// Parses a whole path: `m`, the steps, and nothing after them.
pub open spec fn spec_parse_path(s: Seq<char>) -> Option<Seq<ChildStep>> {
    if s.len() == 0 || s[0] != 'm' {
        None
    } else {
        match spec_parse_steps(s.skip(1)) {
            None => None,
            Some((p, rest)) => if rest.len() == 0 {
                Some(p)
            } else {
                None
            },
        }
    }
}

/// A character that can legitimately follow rendered steps without being
/// mistaken for more of them.
pub open spec fn stops_steps(c: char) -> bool {
    c != '/' && !is_digit_char(c) && c != '\''
}

/// Rendered steps followed by a stopper parse back to the same steps.
pub(crate) proof fn lemma_parse_steps_roundtrip(p: Seq<ChildStep>, rest: Seq<char>)
    requires
        path_wf(p),
        rest.len() == 0 || stops_steps(rest[0]),
    ensures
        spec_parse_steps(spec_render_steps(p) + rest) == Some((p, rest)),
    decreases p.len(),
{
    if p.len() == 0 {
        assert(spec_render_steps(p) + rest =~= rest);
    } else {
        let h = p[0];
        let t = p.skip(1);
        let s = spec_render_steps(p) + rest;
        let mark: Seq<char> = if h.hardened { seq!['\''] } else { Seq::<char>::empty() };
        let tail_rest = spec_render_steps(t) + rest;
        assert(s =~= seq!['/'] + spec_decimal(h.index as nat) + mark + tail_rest);
        assert(s[0] == '/');
        assert(s.skip(1) =~= spec_decimal(h.index as nat) + (mark + tail_rest));
        // The character after the digits never extends the digit run.
        assert(mark + tail_rest =~= if h.hardened { seq!['\''] + tail_rest } else { tail_rest });
        lemma_spec_decimal_shape(h.index as nat);
        if h.hardened {
            assert((mark + tail_rest)[0] == '\'');
            assert(!is_digit_char('\''));
        } else if t.len() > 0 {
            assert(tail_rest[0] == '/');
            assert(!is_digit_char('/'));
        } else {
            assert(tail_rest =~= rest);
        }
        assert(step_wf(h));
        lemma_parse_index_roundtrip(h.index, mark + tail_rest);
        assert(spec_parse_index(s.skip(1)) == Some((h.index, mark + tail_rest)));
        // The hardened mark is read back exactly when the step is hardened.
        let r1 = mark + tail_rest;
        if h.hardened {
            assert(r1[0] == '\'');
            assert(r1.skip(1) =~= tail_rest);
        } else {
            if t.len() > 0 {
                assert(r1[0] == '/');
            } else {
                assert(r1 =~= rest);
            }
            assert(!(r1.len() > 0 && r1[0] == '\''));
        }
        lemma_parse_steps_roundtrip(t, rest);
        assert(spec_parse_steps(tail_rest) == Some((t, rest)));
        assert(seq![ChildStep { index: h.index, hardened: h.hardened }] + t =~= p);
        assert(ChildStep { index: h.index, hardened: h.hardened } == h);
    }
}

/// A rendered well-formed path parses back to itself.
pub proof fn lemma_parse_render_path(p: Seq<ChildStep>)
    requires
        path_wf(p),
    ensures
        spec_parse_path(spec_render_path(p)) == Some(p),
{
    let s = spec_render_path(p);
    assert(s[0] == 'm');
    assert(s.skip(1) =~= spec_render_steps(p) + Seq::<char>::empty());
    lemma_parse_steps_roundtrip(p, Seq::<char>::empty());
}

fn char_is_digit(c: char) -> (r: bool)
    ensures
        r == is_digit_char(c),
{
    let u = c as u32;
    48 <= u && u <= 57
}

/// The length of the digit run starting at `i`.
fn digits_run(v: &Vec<char>, i: usize) -> (r: usize)
    requires
        i <= v.len(),
    ensures
        r == digits_prefix_len(v@.skip(i as int)),
        i + r <= v.len(),
    decreases v.len() - i,
{
    if i == v.len() || !char_is_digit(v[i]) {
        assert(digits_prefix_len(v@.skip(i as int)) == 0);
        0
    } else {
        let r = digits_run(v, i + 1);
        assert(v@.skip(i as int).skip(1) =~= v@.skip(i + 1 as int));
        assert(v@.skip(i as int)[0] == v@[i as int]);
        1 + r
    }
}

/// The value of the digit text `v[i..j]`, which fits easily in u64 for runs
/// of at most ten digits.
fn digits_value(v: &Vec<char>, i: usize, j: usize) -> (r: u64)
    requires
        i <= j <= v.len(),
        j - i <= 10,
        forall|m: int| i <= m < j ==> is_digit_char(#[trigger] v@[m]),
    ensures
        r == decimal_value(v@.subrange(i as int, j as int)),
        r < pow10((j - i) as nat),
    decreases j - i,
{
    if j == i {
        assert(v@.subrange(i as int, j as int) =~= Seq::<char>::empty());
        assert(pow10(0) == 1);
        0
    } else {
        let prefix = digits_value(v, i, j - 1);
        let c = v[j - 1];
        let d: u32 = (c as u32) - 48;
        proof {
            let ds = v@.subrange(i as int, j as int);
            assert(ds.drop_last() =~= v@.subrange(i as int, j - 1 as int));
            assert(ds.last() == v@[j - 1 as int]);
            assert(is_digit_char(c));
            assert(char_digit(c) == (c as u32 - 48) as nat);
            assert(pow10((j - i) as nat) == 10 * pow10((j - 1 - i) as nat));
            assert(prefix * 10 + d < 10 * pow10((j - 1 - i) as nat)) by (nonlinear_arith)
                requires
                    prefix < pow10((j - 1 - i) as nat),
                    d < 10,
            ;
            assert(pow10(10) == 10_000_000_000) by {
                reveal_with_fuel(pow10, 11);
            }
            lemma_pow10_le((j - i) as nat, 10);
        }
        prefix * 10 + (d as u64)
    }
}

/// Parses a child index at position `i`; on success returns the index and the
/// position after it.
fn parse_index(v: &Vec<char>, i: usize) -> (r: Option<(u32, usize)>)
    requires
        i <= v.len(),
    ensures
        match r {
            Some((idx, j)) => {
                &&& spec_parse_index(v@.skip(i as int)) == Some((idx, v@.skip(j as int)))
                &&& i < j <= v.len()
            },
            None => spec_parse_index(v@.skip(i as int)) is None,
        },
{
    let s = Ghost(v@.skip(i as int));
    proof {
        lemma_digits_prefix_chars(s@);
        assert(forall|m: int| 0 <= m < s@.len() ==> #[trigger] s@[m] == v@[i + m]);
    }
    let k = digits_run(v, i);
    if k == 0 || k > 10 {
        return None;
    }
    if k > 1 && v[i] == '0' {
        assert(s@[0] == '0');
        return None;
    }
    assert forall|m: int| i <= m < i + k implies is_digit_char(#[trigger] v@[m]) by {
        assert(s@[m - i] == v@[m]);
        assert(is_digit_char(s@[m - i]));
    }
    let value = digits_value(v, i, i + k);
    proof {
        assert(v@.subrange(i as int, (i + k) as int) =~= s@.take(k as int));
    }
    if value < 0x8000_0000 {
        proof {
            assert(s@.skip(k as int) =~= v@.skip((i + k) as int));
        }
        Some((value as u32, i + k))
    } else {
        None
    }
}

/// Parses step groups at position `i` until the text stops starting with a
/// slash; on success returns the steps and the position after them.
pub(crate) fn parse_steps(v: &Vec<char>, i: usize) -> (r: Option<(Vec<ChildStep>, usize)>)
    requires
        i <= v.len(),
    ensures
        match r {
            Some((p, j)) => {
                &&& spec_parse_steps(v@.skip(i as int)) == Some((p@, v@.skip(j as int)))
                &&& i <= j <= v.len()
            },
            None => spec_parse_steps(v@.skip(i as int)) is None,
        },
    decreases v.len() - i,
{
    let s = Ghost(v@.skip(i as int));
    proof {
        assert(forall|m: int| 0 <= m < s@.len() ==> #[trigger] s@[m] == v@[i + m]);
    }
    if i == v.len() || v[i] != '/' {
        return Some((Vec::new(), i));
    }
    assert(s@[0] == '/');
    assert(s@.skip(1) =~= v@.skip((i + 1) as int));
    match parse_index(v, i + 1) {
        None => None,
        Some((idx, j1)) => {
            let hardened = j1 < v.len() && v[j1] == '\'';
            proof {
                let r1 = v@.skip(j1 as int);
                assert(hardened == (r1.len() > 0 && r1[0] == '\''));
            }
            let j2 = if hardened { j1 + 1 } else { j1 };
            proof {
                if hardened {
                    assert(v@.skip(j1 as int).skip(1) =~= v@.skip((j1 + 1) as int));
                }
            }
            match parse_steps(v, j2) {
                None => None,
                Some((tail, j3)) => {
                    let mut p: Vec<ChildStep> = Vec::new();
                    p.push(ChildStep { index: idx, hardened });
                    let mut t = tail;
                    p.append(&mut t);
                    assert(p@ =~= seq![ChildStep { index: idx, hardened }] + tail@);
                    Some((p, j3))
                },
            }
        },
    }
}

/// Parses the canonical text of a derivation path, such as `m/84'/0'/0'`.
/// Exactly the texts that `spec_parse_path` accepts are accepted; everything
/// else is an invalid path.
pub fn parse_path(s: &str) -> (r: Result<Vec<ChildStep>, DerivationError>)
    ensures
        match r {
            Ok(p) => spec_parse_path(s@) == Some(p@),
            Err(e) => spec_parse_path(s@) is None && e == DerivationError::InvalidPath,
        },
{
    let v = bdk_bridge::string_chars(s);
    if v.len() == 0 || v[0] != 'm' {
        return Err(DerivationError::InvalidPath);
    }
    assert(v@.skip(1) =~= s@.skip(1));
    match parse_steps(&v, 1) {
        None => Err(DerivationError::InvalidPath),
        Some((p, j)) => {
            if j == v.len() {
                assert(v@.skip(j as int) =~= Seq::<char>::empty());
                Ok(p)
            } else {
                assert(v@.skip(j as int).len() > 0);
                Err(DerivationError::InvalidPath)
            }
        },
    }
}

// ---------------------------------------------------------------------------
// Derivation
// ---------------------------------------------------------------------------

/// The hardened account path of this wallet: purpose 84, the network's coin
/// type, account 0.
pub open spec fn spec_account_path(network: Network) -> Seq<ChildStep> {
    seq![
        ChildStep { index: 84, hardened: true },
        ChildStep { index: network.spec_coin_type(), hardened: true },
        ChildStep { index: 0, hardened: true },
    ]
}

pub fn account_path(network: &Network) -> (r: Vec<ChildStep>)
    ensures
        r@ == spec_account_path(*network),
        path_wf(r@),
{
    let mut p: Vec<ChildStep> = Vec::new();
    p.push(ChildStep { index: 84, hardened: true });
    p.push(ChildStep { index: network.coin_type(), hardened: true });
    p.push(ChildStep { index: 0, hardened: true });
    assert(p@ =~= spec_account_path(*network));
    p
}

/// Derives an extended private key along a path. Deterministic: the result is
/// a function of the key text and the canonical path text alone.
pub fn derive_priv(xprv: &str, path: &Vec<ChildStep>) -> (r: Result<String, DerivationError>)
    ensures
        match r {
            Ok(k) => bdk_bridge::spec_derived_xprv(xprv@, spec_render_path(path@)) == Some(k@)
                && bdk_bridge::spec_xprv_parses(k@),
            Err(e) => bdk_bridge::spec_derived_xprv(xprv@, spec_render_path(path@)) is None
                && e == DerivationError::InvalidKey,
        },
{
    let rendered = render_path(path);
    match bdk_bridge::bdk_derive_xprv(xprv, rendered.as_str()) {
        Some(k) => Ok(k),
        None => Err(DerivationError::InvalidKey),
    }
}

/// Derives an extended public key along a path. A hardened step cannot be
/// taken from a public-only key and is rejected up front; otherwise the
/// result is a function of the key text and the canonical path text alone.
pub fn derive_pub(xpub: &str, path: &Vec<ChildStep>) -> (r: Result<String, DerivationError>)
    ensures
        match r {
            Ok(k) => !spec_any_hardened(path@) && bdk_bridge::spec_derived_xpub(
                xpub@,
                spec_render_path(path@),
            ) == Some(k@),
            Err(e) => if spec_any_hardened(path@) {
                e == DerivationError::PublicDerivationUnsupported
            } else {
                bdk_bridge::spec_derived_xpub(xpub@, spec_render_path(path@)) is None
                    && e == DerivationError::InvalidKey
            },
        },
{
    let mut i: usize = 0;
    while i < path.len()
        invariant
            i <= path.len(),
            forall|m: int| 0 <= m < i ==> !(#[trigger] path@[m]).hardened,
        decreases path.len() - i,
    {
        if path[i].hardened {
            return Err(DerivationError::PublicDerivationUnsupported);
        }
        i = i + 1;
    }
    assert(!spec_any_hardened(path@));
    let rendered = render_path(path);
    match bdk_bridge::bdk_derive_xpub(xpub, rendered.as_str()) {
        Some(k) => Ok(k),
        None => Err(DerivationError::InvalidKey),
    }
}

/// Derivation is deterministic: two results of deriving from the same key
/// along the same path are the same key, with the same fingerprint.
pub proof fn lemma_derivation_deterministic(
    k: Seq<char>,
    p: Seq<char>,
    r1: Option<Seq<char>>,
    r2: Option<Seq<char>>,
)
    requires
        r1 == bdk_bridge::spec_derived_xprv(k, p),
        r2 == bdk_bridge::spec_derived_xprv(k, p),
    ensures
        r1 == r2,
        r1 matches Some(d1) ==> (r2 matches Some(d2) && bdk_bridge::spec_fingerprint_of(d1)
            == bdk_bridge::spec_fingerprint_of(d2)),
{
}

} // verus!
