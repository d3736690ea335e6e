//! The stdout envelope: how targets report probes and assertions, and how
//! the fuzzer reads them back.
//!
//! Each report is one line holding a small JSON object with a single
//! variant key — a probe text or a base64-wrapped assertion. The assertion
//! payload decodes to a JSON-encoded [`AssertionScope`]. Lines are
//! null-trimmed and whitespace-trimmed before parsing, and anything that
//! does not parse as the envelope is silently skipped.

use vstd::prelude::*;

use crate::assertions::{spec_scope_message, Assertion, AssertionScope};

verus! {

/// A target-emitted stdout line: free-form probe text, or a base64 blob
/// carrying an assertion scope.
#[derive(Clone, Debug)]
pub enum StdoutMessage {
    Probe(Vec<u8>),
    Assertion(Vec<u8>),
}

/// The decimal digits of a 64-bit number, most significant first.
pub open spec fn dec_digits(n: u64) -> Seq<u8>
    decreases n,
{
    if n < 10 {
        seq![(48 + n) as u8]
    } else {
        dec_digits((n / 10) as u64) + seq![(48 + n % 10) as u8]
    }
}


/// A decimal digit byte.
pub open spec fn is_digit(b: u8) -> bool {
    48 <= b <= 57
}

/// The number a digit string denotes.
pub open spec fn digits_val(s: Seq<u8>) -> int
    decreases s.len(),
{
    if s.len() == 0 {
        0
    } else {
        digits_val(s.drop_last()) * 10 + (s.last() - 48)
    }
}

/// The greedy decimal scan from position `i` with accumulator `v`: stop at
/// the first non-digit, reject 64-bit overflow.
pub open spec fn scan_dec(s: Seq<u8>, i: int, v: u64) -> Option<(u64, int)>
    decreases s.len() - i,
{
    if i < 0 || i >= s.len() || !is_digit(s[i]) {
        Some((v, i))
    } else {
        let d = (s[i] - 48) as u64;
        if v > (u64::MAX - d) / 10 {
            None
        } else {
            scan_dec(s, i + 1, (v * 10 + d) as u64)
        }
    }
}

/// A decimal number read greedily from the front of `s`: at least one
/// digit, no 64-bit overflow.
pub open spec fn spec_parse_dec(s: Seq<u8>) -> Option<(u64, int)> {
    if s.len() == 0 || !is_digit(s[0]) {
        None
    } else {
        scan_dec(s, 0, 0)
    }
}

/// Every byte of a number's decimal form is a digit.
proof fn lemma_dec_digits_are_digits(n: u64)
    ensures
        dec_digits(n).len() > 0,
        forall|i: int| 0 <= i < dec_digits(n).len() ==> is_digit(#[trigger] dec_digits(n)[i]),
    decreases n,
{
    if n >= 10 {
        lemma_dec_digits_are_digits(n / 10);
    }
}

/// The decimal form denotes the number itself.
proof fn lemma_dec_digits_value(n: u64)
    ensures
        digits_val(dec_digits(n)) == n,
    decreases n,
{
    if n < 10 {
        assert(dec_digits(n).drop_last() =~= Seq::<u8>::empty());
        assert(digits_val(Seq::<u8>::empty()) == 0);
        assert(dec_digits(n).last() == (48 + n) as u8);
    } else {
        lemma_dec_digits_value(n / 10);
        assert(dec_digits(n).drop_last() =~= dec_digits(n / 10));
        assert(dec_digits(n).last() == (48 + n % 10) as u8);
        assert(digits_val(dec_digits(n)) == digits_val(dec_digits(n / 10)) * 10 + (n % 10));
        assert((n / 10) * 10 + n % 10 == n) by (nonlinear_arith);
    }
}

/// A digit string denotes a number at least zero.
proof fn lemma_digits_val_nonneg(s: Seq<u8>)
    requires
        forall|i: int| 0 <= i < s.len() ==> is_digit(#[trigger] s[i]),
    ensures
        digits_val(s) >= 0,
    decreases s.len(),
{
    if s.len() > 0 {
        lemma_digits_val_nonneg(s.drop_last());
    }
}

/// Every prefix of a digit string denotes at most what the whole string
/// does.
proof fn lemma_digits_val_prefix_le(s: Seq<u8>, j: int, k: int)
    requires
        forall|i: int| 0 <= i < s.len() ==> is_digit(#[trigger] s[i]),
        0 <= j <= k <= s.len(),
    ensures
        digits_val(s.take(j)) <= digits_val(s.take(k)),
    decreases k - j,
{
    if j < k {
        lemma_digits_val_prefix_le(s, j + 1, k);
        assert(s.take(j + 1).drop_last() =~= s.take(j));
        assert(forall|i: int| 0 <= i < s.take(j).len() ==> is_digit(#[trigger] s.take(j)[i]));
        lemma_digits_val_nonneg(s.take(j));
    }
}

/// The greedy scan over a number's decimal form followed by a non-digit
/// recovers the number, from any split of the digits between what was
/// already folded into the accumulator and what remains.
proof fn lemma_scan_dec_digits(n: u64, rest: Seq<u8>, j: int)
    requires
        0 <= j <= dec_digits(n).len(),
        rest.len() == 0 || !is_digit(rest[0]),
    ensures
        scan_dec(
            dec_digits(n) + rest,
            j,
            digits_val(dec_digits(n).take(j)) as u64,
        ) == Some((n, dec_digits(n).len() as int)),
    decreases dec_digits(n).len() - j,
{
    let dd = dec_digits(n);
    let s = dd + rest;
    lemma_dec_digits_are_digits(n);
    lemma_dec_digits_value(n);
    lemma_digits_val_nonneg(dd);
    if j == dd.len() {
        assert(dd.take(j) =~= dd);
        if rest.len() > 0 {
            assert(s[j] == rest[0]);
        }
    } else {
        assert(s[j] == dd[j]);
        let v = digits_val(dd.take(j));
        lemma_digits_val_prefix_le(dd, j, dd.len() as int);
        lemma_digits_val_prefix_le(dd, j + 1, dd.len() as int);
        assert(dd.take(dd.len() as int) =~= dd);
        lemma_digits_val_nonneg(dd.take(j));
        assert(dd.take(j + 1).drop_last() =~= dd.take(j));
        assert(digits_val(dd.take(j + 1)) == v * 10 + (dd[j] - 48));
        let d = (s[j] - 48) as u64;
        // No overflow: the value extended by this digit is still at most n.
        assert(v * 10 + d <= n);
        assert(!((v as u64) > (u64::MAX - d) / 10)) by {
            assert(v * 10 + d <= u64::MAX);
        }
        lemma_scan_dec_digits(n, rest, j + 1);
    }
}

/// Reading back a printed number: the greedy decimal parse of a number's
/// decimal form, followed by anything that is not a digit, yields exactly
/// that number. This is the numeric half of the stdout envelope round
/// trip.
pub proof fn lemma_parse_dec_digits(n: u64, rest: Seq<u8>)
    requires
        rest.len() == 0 || !is_digit(rest[0]),
    ensures
        spec_parse_dec(dec_digits(n) + rest) == Some((n, dec_digits(n).len() as int)),
{
    lemma_dec_digits_are_digits(n);
    assert((dec_digits(n) + rest)[0] == dec_digits(n)[0]);
    assert(dec_digits(n).take(0) =~= Seq::<u8>::empty());
    lemma_scan_dec_digits(n, rest, 0);
}

/// One byte of message text in its JSON form: quotes and backslashes are
/// escaped, control bytes become a four-digit unicode escape, everything
/// else stands for itself.
pub open spec fn esc_byte(b: u8) -> Seq<u8> {
    if b == 34 {
        seq![92u8, 34u8]
    } else if b == 92 {
        seq![92u8, 92u8]
    } else if b < 32 {
        seq![92u8, 117u8, 48u8, 48u8, hex_digit((b / 16) as u8), hex_digit((b % 16) as u8)]
    } else {
        seq![b]
    }
}

/// The lower-case hex digit of a value below 16.
pub open spec fn hex_digit(v: u8) -> u8 {
    if v < 10 {
        (48 + v) as u8
    } else {
        (87 + v) as u8
    }
}

/// The JSON string-escaped form of message bytes.
pub open spec fn esc_bytes(m: Seq<u8>, n: int) -> Seq<u8>
    decreases n,
{
    if n <= 0 {
        Seq::empty()
    } else {
        esc_bytes(m, n - 1) + esc_byte(m[n - 1])
    }
}


/// The JSON string-escaped form of a whole message, peeling from the
/// front; equal to [`esc_bytes`] over the full length, in the form the
/// unescaping proof recurses on.
pub open spec fn esc_seq(m: Seq<u8>) -> Seq<u8>
    decreases m.len(),
{
    if m.len() == 0 {
        Seq::empty()
    } else {
        esc_byte(m[0]) + esc_seq(m.drop_first())
    }
}

/// The value of a lower-case hex digit byte, if it is one.
pub open spec fn spec_hex_value(b: u8) -> Option<u8> {
    if 48 <= b <= 57 {
        Some((b - 48) as u8)
    } else if 97 <= b <= 102 {
        Some((b - 87) as u8)
    } else {
        None
    }
}

/// Undo JSON string escaping: raw quotes, stray backslashes, unknown
/// escapes and malformed unicode escapes have no reading.
pub open spec fn unesc(s: Seq<u8>) -> Option<Seq<u8>>
    decreases s.len(),
{
    if s.len() == 0 {
        Some(Seq::empty())
    } else if s[0] == 34 {
        None
    } else if s[0] == 92 {
        if s.len() < 2 {
            None
        } else if s[1] == 34 {
            match unesc(s.skip(2)) {
                Some(t) => Some(seq![34u8] + t),
                None => None,
            }
        } else if s[1] == 92 {
            match unesc(s.skip(2)) {
                Some(t) => Some(seq![92u8] + t),
                None => None,
            }
        } else if s[1] == 117 {
            if s.len() < 6 || s[2] != 48 || s[3] != 48 {
                None
            } else {
                match (spec_hex_value(s[4]), spec_hex_value(s[5])) {
                    (Some(hi), Some(lo)) => match unesc(s.skip(6)) {
                        Some(t) => Some(seq![(hi * 16 + lo) as u8] + t),
                        None => None,
                    },
                    _ => None,
                }
            }
        } else {
            None
        }
    } else {
        match unesc(s.skip(1)) {
            Some(t) => Some(seq![s[0]] + t),
            None => None,
        }
    }
}

/// The two escape spellings agree: escaping the first `n` bytes and then
/// the rest is the same as escaping from the front.
pub proof fn lemma_esc_bytes_is_front(m: Seq<u8>, n: int)
    requires
        0 <= n <= m.len(),
    ensures
        esc_bytes(m, n) == esc_seq(m.take(n)),
    decreases n,
{
    if n == 0 {
        assert(esc_seq(m.take(0)) =~= Seq::<u8>::empty());
    } else {
        lemma_esc_bytes_is_front(m, n - 1);
        lemma_esc_seq_push(m.take(n - 1), m[n - 1]);
        assert(m.take(n - 1).push(m[n - 1]) =~= m.take(n));
    }
}

/// Escaping one more byte appends its escape.
proof fn lemma_esc_seq_push(s: Seq<u8>, x: u8)
    ensures
        esc_seq(s.push(x)) == esc_seq(s) + esc_byte(x),
    decreases s.len(),
{
    if s.len() == 0 {
        assert(s.push(x).drop_first() =~= Seq::<u8>::empty());
        assert(esc_seq(Seq::<u8>::empty()) =~= Seq::<u8>::empty());
        assert(s.push(x)[0] == x);
        assert(esc_seq(s.push(x)) =~= esc_byte(x));
        assert(esc_seq(s) + esc_byte(x) =~= esc_byte(x));
    } else {
        assert(s.push(x).drop_first() =~= s.drop_first().push(x));
        lemma_esc_seq_push(s.drop_first(), x);
        assert(esc_seq(s.push(x)) =~= esc_seq(s) + esc_byte(x));
    }
}

/// Unescaping inverts escaping: every message reads back from its escaped
/// form. This is the message half of the stdout envelope round trip.
pub proof fn lemma_unesc_esc(m: Seq<u8>)
    ensures
        unesc(esc_seq(m)) == Some(m),
    decreases m.len(),
{
    if m.len() == 0 {
        assert(esc_seq(m) =~= Seq::<u8>::empty());
    } else {
        let b = m[0];
        let rest = m.drop_first();
        lemma_unesc_esc(rest);
        let e = esc_seq(m);
        assert(e == esc_byte(b) + esc_seq(rest));
        if b == 34 || b == 92 {
            assert(e.skip(2) =~= esc_seq(rest));
            assert(seq![b] + rest =~= m);
        } else if b < 32 {
            assert(e.skip(6) =~= esc_seq(rest));
            assert(e[4] == hex_digit((b / 16) as u8));
            assert(e[5] == hex_digit((b % 16) as u8));
            assert(spec_hex_value(hex_digit((b / 16) as u8)) == Some((b / 16) as u8));
            assert(spec_hex_value(hex_digit((b % 16) as u8)) == Some((b % 16) as u8));
            assert((b / 16) * 16 + (b % 16) == b) by (nonlinear_arith);
            assert(seq![b] + rest =~= m);
        } else {
            assert(e.skip(1) =~= esc_seq(rest));
            assert(seq![b] + rest =~= m);
        }
    }
}

/// The JSON form of an assertion: an object with one snake-case variant
/// key over its operands.
pub open spec fn assertion_json(a: Assertion) -> Seq<u8> {
    match a {
        // {"condition":  then true/false  then }
        Assertion::Condition(v) => lit_condition() + (if v {
            lit_true()
        } else {
            lit_false()
        }) + seq![125u8],
        // {"less_than":[A,B]} and so on
        Assertion::LessThan(x, y) => lit_less_than() + dec_digits(x) + seq![44u8] + dec_digits(y)
            + seq![93u8, 125u8],
        Assertion::LessThanOrEqual(x, y) => lit_less_than_or_equal() + dec_digits(x) + seq![44u8]
            + dec_digits(y) + seq![93u8, 125u8],
        Assertion::GreaterThan(x, y) => lit_greater_than() + dec_digits(x) + seq![44u8]
            + dec_digits(y) + seq![93u8, 125u8],
        Assertion::GreaterThanOrEqual(x, y) => lit_greater_than_or_equal() + dec_digits(x) + seq![
            44u8,
        ] + dec_digits(y) + seq![93u8, 125u8],
    }
}


/// The JSON form of assertion `a` stands at `pos` in `s`.
pub open spec fn assertion_at(s: Seq<u8>, pos: int, a: Assertion) -> bool {
    &&& 0 <= pos
    &&& pos + assertion_json(a).len() <= s.len()
    &&& s.subrange(pos, pos + assertion_json(a).len()) == assertion_json(a)
}

/// Two byte strings standing at the same position agree wherever both are
/// defined; against concretely different literals this pins a conflict.
proof fn lemma_prefixes_agree(s: Seq<u8>, pos: int, p1: Seq<u8>, p2: Seq<u8>, j: int)
    requires
        0 <= pos,
        0 <= j < p1.len(),
        j < p2.len(),
        pos + p1.len() <= s.len(),
        s.subrange(pos, pos + p1.len()) == p1,
        pos + p2.len() <= s.len(),
        s.subrange(pos, pos + p2.len()) == p2,
    ensures
        p1[j] == p2[j],
{
    assert(s.subrange(pos, pos + p1.len())[j] == s[pos + j]);
    assert(s.subrange(pos, pos + p2.len())[j] == s[pos + j]);
}

/// A string standing at a position pins every shorter prefix standing
/// there.
proof fn lemma_sub_prefix(s: Seq<u8>, pos: int, whole: Seq<u8>, lo: int, hi: int)
    requires
        0 <= pos,
        pos + whole.len() <= s.len(),
        s.subrange(pos, pos + whole.len()) == whole,
        0 <= lo <= hi <= whole.len(),
    ensures
        s.subrange(pos + lo, pos + hi) == whole.subrange(lo, hi),
{
    assert(s.subrange(pos + lo, pos + hi) =~= whole.subrange(lo, hi)) by {
        assert(forall|i: int|
            0 <= i < whole.len() ==> s.subrange(pos, pos + whole.len())[i] == #[trigger] s[pos
                + i]);
    }
}

/// `{"condition":`
pub open spec fn lit_condition() -> Seq<u8> {
    seq![123u8, 34, 99, 111, 110, 100, 105, 116, 105, 111, 110, 34, 58]
}

/// `true`
pub open spec fn lit_true() -> Seq<u8> {
    seq![116u8, 114, 117, 101]
}

/// `false`
pub open spec fn lit_false() -> Seq<u8> {
    seq![102u8, 97, 108, 115, 101]
}

/// `{"less_than":[`
pub open spec fn lit_less_than() -> Seq<u8> {
    seq![123u8, 34, 108, 101, 115, 115, 95, 116, 104, 97, 110, 34, 58, 91]
}

/// `{"less_than_or_equal":[`
pub open spec fn lit_less_than_or_equal() -> Seq<u8> {
    seq![
        123u8,
        34,
        108,
        101,
        115,
        115,
        95,
        116,
        104,
        97,
        110,
        95,
        111,
        114,
        95,
        101,
        113,
        117,
        97,
        108,
        34,
        58,
        91,
    ]
}

/// `{"greater_than":[`
pub open spec fn lit_greater_than() -> Seq<u8> {
    seq![123u8, 34, 103, 114, 101, 97, 116, 101, 114, 95, 116, 104, 97, 110, 34, 58, 91]
}

/// `{"greater_than_or_equal":[`
pub open spec fn lit_greater_than_or_equal() -> Seq<u8> {
    seq![
        123u8,
        34,
        103,
        114,
        101,
        97,
        116,
        101,
        114,
        95,
        116,
        104,
        97,
        110,
        95,
        111,
        114,
        95,
        101,
        113,
        117,
        97,
        108,
        34,
        58,
        91,
    ]
}

/// `{"sometimes":[`
pub open spec fn lit_sometimes() -> Seq<u8> {
    seq![123u8, 34, 115, 111, 109, 101, 116, 105, 109, 101, 115, 34, 58, 91]
}

/// `{"always":[`
pub open spec fn lit_always() -> Seq<u8> {
    seq![123u8, 34, 97, 108, 119, 97, 121, 115, 34, 58, 91]
}

/// The JSON form of a scope: variant key, the inner assertion, and the
/// escaped message string.
pub open spec fn scope_json(s: AssertionScope) -> Seq<u8> {
    match s {
        AssertionScope::Sometimes(a, m) => lit_sometimes() + assertion_json(a) + seq![44u8, 34u8]
            + esc_bytes(m@, m@.len() as int) + seq![34u8, 93u8, 125u8],
        AssertionScope::Always(a, m) => lit_always() + assertion_json(a) + seq![44u8, 34u8]
            + esc_bytes(m@, m@.len() as int) + seq![34u8, 93u8, 125u8],
    }
}

/// `{"Assertion":"`
pub open spec fn lit_assertion_envelope() -> Seq<u8> {
    seq![123u8, 34, 65, 115, 115, 101, 114, 116, 105, 111, 110, 34, 58, 34]
}

/// `{"Probe":"`
pub open spec fn lit_probe_envelope() -> Seq<u8> {
    seq![123u8, 34, 80, 114, 111, 98, 101, 34, 58, 34]
}

/// A whole envelope line around an already string-safe payload.
pub open spec fn envelope_line(prefix: Seq<u8>, payload: Seq<u8>) -> Seq<u8> {
    prefix + payload + seq![34u8, 125u8]
}

/// What the assertion payload of a scope is on the wire: base64 over its
/// JSON form.
pub open spec fn assertion_payload(s: AssertionScope) -> Seq<u8> {
    crate::b64::b64_of(scope_json(s))
}


/// Append the bytes of a literal or payload vector.
fn push_all(out: &mut Vec<u8>, b: &Vec<u8>)
    ensures
        final(out)@ == old(out)@ + b@,
{
    let ghost pre = out@;
    let mut i: usize = 0;
    while i < b.len()
        invariant
            i <= b@.len(),
            out@ =~= pre + b@.take(i as int),
        decreases b@.len() - i,
    {
        out.push(b[i]);
        i = i + 1;
    }
    assert(out@ =~= pre + b@);
}

/// Append the decimal digits of a number, most significant first.
fn push_dec(out: &mut Vec<u8>, n: u64)
    ensures
        final(out)@ == old(out)@ + dec_digits(n),
    decreases n,
{
    if n < 10 {
        out.push(48 + (n as u8));
        assert(final(out)@ =~= old(out)@ + dec_digits(n));
    } else {
        push_dec(out, n / 10);
        out.push(48 + ((n % 10) as u8));
        assert(final(out)@ =~= old(out)@ + dec_digits(n));
    }
}

/// Append the JSON string-escaped form of message bytes.
fn push_escaped(out: &mut Vec<u8>, m: &Vec<u8>)
    ensures
        final(out)@ == old(out)@ + esc_bytes(m@, m@.len() as int),
{
    let ghost pre = out@;
    let mut i: usize = 0;
    while i < m.len()
        invariant
            i <= m@.len(),
            out@ =~= pre + esc_bytes(m@, i as int),
        decreases m@.len() - i,
    {
        let b = m[i];
        if b == 34 {
            out.push(92);
            out.push(34);
        } else if b == 92 {
            out.push(92);
            out.push(92);
        } else if b < 32 {
            out.push(92);
            out.push(117);
            out.push(48);
            out.push(48);
            let hi = b / 16;
            let lo = b % 16;
            out.push(if hi < 10 { 48 + hi } else { 87 + hi });
            out.push(if lo < 10 { 48 + lo } else { 87 + lo });
        } else {
            out.push(b);
        }
        assert(out@ =~= pre + esc_bytes(m@, i as int) + esc_byte(m@[i as int]));
        assert(out@ =~= pre + esc_bytes(m@, i as int + 1));
        i = i + 1;
    }
    assert(out@ =~= pre + esc_bytes(m@, m@.len() as int));
}

/// The bytes of the corresponding literal.
fn condition_bytes() -> (r: Vec<u8>)
    ensures
        r@ == lit_condition(),
{
    let r = vec![123u8, 34u8, 99u8, 111u8, 110u8, 100u8, 105u8, 116u8, 105u8, 111u8, 110u8, 34u8, 58u8];
    assert(r@ =~= lit_condition());
    r
}

/// The bytes of the corresponding literal.
fn true_bytes() -> (r: Vec<u8>)
    ensures
        r@ == lit_true(),
{
    let r = vec![116u8, 114u8, 117u8, 101u8];
    assert(r@ =~= lit_true());
    r
}

/// The bytes of the corresponding literal.
fn false_bytes() -> (r: Vec<u8>)
    ensures
        r@ == lit_false(),
{
    let r = vec![102u8, 97u8, 108u8, 115u8, 101u8];
    assert(r@ =~= lit_false());
    r
}

/// The bytes of the corresponding literal.
fn less_than_bytes() -> (r: Vec<u8>)
    ensures
        r@ == lit_less_than(),
{
    let r = vec![123u8, 34u8, 108u8, 101u8, 115u8, 115u8, 95u8, 116u8, 104u8, 97u8, 110u8, 34u8, 58u8, 91u8];
    assert(r@ =~= lit_less_than());
    r
}

/// The bytes of the corresponding literal.
fn less_than_or_equal_bytes() -> (r: Vec<u8>)
    ensures
        r@ == lit_less_than_or_equal(),
{
    let r = vec![123u8, 34u8, 108u8, 101u8, 115u8, 115u8, 95u8, 116u8, 104u8, 97u8, 110u8, 95u8, 111u8, 114u8, 95u8, 101u8, 113u8, 117u8, 97u8, 108u8, 34u8, 58u8, 91u8];
    assert(r@ =~= lit_less_than_or_equal());
    r
}

/// The bytes of the corresponding literal.
fn greater_than_bytes() -> (r: Vec<u8>)
    ensures
        r@ == lit_greater_than(),
{
    let r = vec![123u8, 34u8, 103u8, 114u8, 101u8, 97u8, 116u8, 101u8, 114u8, 95u8, 116u8, 104u8, 97u8, 110u8, 34u8, 58u8, 91u8];
    assert(r@ =~= lit_greater_than());
    r
}

/// The bytes of the corresponding literal.
fn greater_than_or_equal_bytes() -> (r: Vec<u8>)
    ensures
        r@ == lit_greater_than_or_equal(),
{
    let r = vec![123u8, 34u8, 103u8, 114u8, 101u8, 97u8, 116u8, 101u8, 114u8, 95u8, 116u8, 104u8, 97u8, 110u8, 95u8, 111u8, 114u8, 95u8, 101u8, 113u8, 117u8, 97u8, 108u8, 34u8, 58u8, 91u8];
    assert(r@ =~= lit_greater_than_or_equal());
    r
}

/// The bytes of the corresponding literal.
fn sometimes_bytes() -> (r: Vec<u8>)
    ensures
        r@ == lit_sometimes(),
{
    let r = vec![123u8, 34u8, 115u8, 111u8, 109u8, 101u8, 116u8, 105u8, 109u8, 101u8, 115u8, 34u8, 58u8, 91u8];
    assert(r@ =~= lit_sometimes());
    r
}

/// The bytes of the corresponding literal.
fn always_bytes() -> (r: Vec<u8>)
    ensures
        r@ == lit_always(),
{
    let r = vec![123u8, 34u8, 97u8, 108u8, 119u8, 97u8, 121u8, 115u8, 34u8, 58u8, 91u8];
    assert(r@ =~= lit_always());
    r
}

/// The bytes of the corresponding literal.
fn assertion_envelope_bytes() -> (r: Vec<u8>)
    ensures
        r@ == lit_assertion_envelope(),
{
    let r = vec![123u8, 34u8, 65u8, 115u8, 115u8, 101u8, 114u8, 116u8, 105u8, 111u8, 110u8, 34u8, 58u8, 34u8];
    assert(r@ =~= lit_assertion_envelope());
    r
}

/// The bytes of the corresponding literal.
fn probe_envelope_bytes() -> (r: Vec<u8>)
    ensures
        r@ == lit_probe_envelope(),
{
    let r = vec![123u8, 34u8, 80u8, 114u8, 111u8, 98u8, 101u8, 34u8, 58u8, 34u8];
    assert(r@ =~= lit_probe_envelope());
    r
}


/// Append the JSON form of an assertion.
fn push_assertion_json(out: &mut Vec<u8>, a: &Assertion)
    ensures
        final(out)@ == old(out)@ + assertion_json(*a),
{
    let ghost pre = out@;
    match a {
        Assertion::Condition(v) => {
            push_all(out, &condition_bytes());
            if *v {
                push_all(out, &true_bytes());
            } else {
                push_all(out, &false_bytes());
            }
            out.push(125);
        },
        Assertion::LessThan(x, y) => {
            push_all(out, &less_than_bytes());
            push_dec(out, *x);
            out.push(44);
            push_dec(out, *y);
            out.push(93);
            out.push(125);
        },
        Assertion::LessThanOrEqual(x, y) => {
            push_all(out, &less_than_or_equal_bytes());
            push_dec(out, *x);
            out.push(44);
            push_dec(out, *y);
            out.push(93);
            out.push(125);
        },
        Assertion::GreaterThan(x, y) => {
            push_all(out, &greater_than_bytes());
            push_dec(out, *x);
            out.push(44);
            push_dec(out, *y);
            out.push(93);
            out.push(125);
        },
        Assertion::GreaterThanOrEqual(x, y) => {
            push_all(out, &greater_than_or_equal_bytes());
            push_dec(out, *x);
            out.push(44);
            push_dec(out, *y);
            out.push(93);
            out.push(125);
        },
    }
    assert(out@ =~= pre + assertion_json(*a));
}

/// The JSON bytes of a scope, exactly as `scope_json` describes them.
pub fn scope_json_bytes(s: &AssertionScope) -> (r: Vec<u8>)
    ensures
        r@ == scope_json(*s),
{
    let mut out: Vec<u8> = Vec::new();
    match s {
        AssertionScope::Sometimes(a, m) => {
            push_all(&mut out, &sometimes_bytes());
            push_assertion_json(&mut out, a);
            out.push(44);
            out.push(34);
            push_escaped(&mut out, m);
            out.push(34);
            out.push(93);
            out.push(125);
        },
        AssertionScope::Always(a, m) => {
            push_all(&mut out, &always_bytes());
            push_assertion_json(&mut out, a);
            out.push(44);
            out.push(34);
            push_escaped(&mut out, m);
            out.push(34);
            out.push(93);
            out.push(125);
        },
    }
    assert(out@ =~= scope_json(*s));
    out
}

/// The stdout line a target emits for an assertion scope: the envelope
/// around the base64 of the scope's JSON form. Parsing such a line back
/// recovers the scope, so emitting and reading stdout round-trips.
pub fn assertion_stdout_line(s: &AssertionScope) -> (r: Vec<u8>)
    ensures
        r@ == envelope_line(lit_assertion_envelope(), assertion_payload(*s)),
        emitted_assertion_line(r@, *s),
{
    let json = scope_json_bytes(s);
    let payload = crate::b64::b64_encode(&json);
    let mut out: Vec<u8> = Vec::new();
    push_all(&mut out, &assertion_envelope_bytes());
    push_all(&mut out, &payload);
    out.push(34);
    out.push(125);
    assert(out@ =~= envelope_line(lit_assertion_envelope(), assertion_payload(*s)));
    out
}

/// The stdout line for either message variant; probe text is escaped, an
/// assertion payload is already string-safe base64.
pub fn stdout_message_line(m: &StdoutMessage) -> (r: Vec<u8>)
    ensures
        m matches StdoutMessage::Probe(t) ==> r@ == envelope_line(
            lit_probe_envelope(),
            esc_bytes(t@, t@.len() as int),
        ),
        m matches StdoutMessage::Assertion(p) ==> r@ == envelope_line(
            lit_assertion_envelope(),
            p@,
        ),
{
    let mut out: Vec<u8> = Vec::new();
    match m {
        StdoutMessage::Probe(t) => {
            push_all(&mut out, &probe_envelope_bytes());
            push_escaped(&mut out, t);
            out.push(34);
            out.push(125);
            assert(out@ =~= envelope_line(lit_probe_envelope(), esc_bytes(t@, t@.len() as int)));
        },
        StdoutMessage::Assertion(p) => {
            push_all(&mut out, &assertion_envelope_bytes());
            push_all(&mut out, p);
            out.push(34);
            out.push(125);
            assert(out@ =~= envelope_line(lit_assertion_envelope(), p@));
        },
    }
    out
}



/// The variant literal of a comparison assertion (empty for a condition).
pub open spec fn comp_lit(a: Assertion) -> Seq<u8> {
    match a {
        Assertion::Condition(_) => Seq::empty(),
        Assertion::LessThan(_, _) => lit_less_than(),
        Assertion::LessThanOrEqual(_, _) => lit_less_than_or_equal(),
        Assertion::GreaterThan(_, _) => lit_greater_than(),
        Assertion::GreaterThanOrEqual(_, _) => lit_greater_than_or_equal(),
    }
}

/// The operands of a comparison assertion.
pub open spec fn comp_x(a: Assertion) -> u64 {
    match a {
        Assertion::Condition(_) => 0,
        Assertion::LessThan(x, _) => x,
        Assertion::LessThanOrEqual(x, _) => x,
        Assertion::GreaterThan(x, _) => x,
        Assertion::GreaterThanOrEqual(x, _) => x,
    }
}

pub open spec fn comp_y(a: Assertion) -> u64 {
    match a {
        Assertion::Condition(_) => 0,
        Assertion::LessThan(_, y) => y,
        Assertion::LessThanOrEqual(_, y) => y,
        Assertion::GreaterThan(_, y) => y,
        Assertion::GreaterThanOrEqual(_, y) => y,
    }
}

/// An assertion standing at a position pins its variant literal there.
proof fn lemma_assertion_lit(s: Seq<u8>, pos: int, a: Assertion)
    requires
        assertion_at(s, pos, a),
    ensures
        a is Condition ==> pos + lit_condition().len() <= s.len() && s.subrange(
            pos,
            pos + lit_condition().len(),
        ) == lit_condition(),
        !(a is Condition) ==> pos + comp_lit(a).len() <= s.len() && s.subrange(
            pos,
            pos + comp_lit(a).len(),
        ) == comp_lit(a),
{
    let j = assertion_json(a);
    match a {
        Assertion::Condition(v) => {
            lemma_sub_prefix(s, pos, j, 0, lit_condition().len() as int);
            assert(j.subrange(0, lit_condition().len() as int) =~= lit_condition());
        },
        _ => {
            lemma_sub_prefix(s, pos, j, 0, comp_lit(a).len() as int);
            assert(j.subrange(0, comp_lit(a).len() as int) =~= comp_lit(a));
        },
    }
}

/// A comparison assertion standing at a position pins its whole shape:
/// literal, first operand digits, comma, second operand digits, closing
/// bracket and brace.
proof fn lemma_comparison_shape(s: Seq<u8>, pos: int, a: Assertion)
    requires
        assertion_at(s, pos, a),
        !(a is Condition),
    ensures
        ({
            let ll = comp_lit(a).len() as int;
            let dx = dec_digits(comp_x(a));
            let dy = dec_digits(comp_y(a));
            &&& assertion_json(a).len() == ll + dx.len() + 1 + dy.len() + 2
            &&& s.subrange(pos + ll, pos + ll + dx.len()) == dx
            &&& s[pos + ll + dx.len()] == 44
            &&& s.subrange(pos + ll + dx.len() + 1, pos + ll + dx.len() + 1 + dy.len()) == dy
            &&& s[pos + ll + dx.len() + 1 + dy.len()] == 93
            &&& s[pos + ll + dx.len() + 1 + dy.len() + 1] == 125
        }),
{
    let j = assertion_json(a);
    let ll = comp_lit(a).len() as int;
    let dx = dec_digits(comp_x(a));
    let dy = dec_digits(comp_y(a));
    assert(j =~= comp_lit(a) + dx + seq![44u8] + dy + seq![93u8, 125u8]);
    lemma_sub_prefix(s, pos, j, ll, ll + dx.len());
    assert(j.subrange(ll, ll + dx.len()) =~= dx);
    lemma_sub_prefix(s, pos, j, ll + dx.len(), ll + dx.len() + 1);
    assert(j.subrange(ll + dx.len(), ll + dx.len() + 1)[0] == j[ll + dx.len()]);
    assert(s[pos + ll + dx.len()] == j[ll + dx.len()]);
    assert(j[ll + dx.len()] == 44);
    lemma_sub_prefix(s, pos, j, ll + dx.len() + 1, ll + dx.len() + 1 + dy.len());
    assert(j.subrange(ll + dx.len() + 1, ll + dx.len() + 1 + dy.len()) =~= dy);
    lemma_sub_prefix(s, pos, j, ll + dx.len() + 1 + dy.len(), j.len() as int);
    assert(s[pos + ll + dx.len() + 1 + dy.len()] == j[ll + dx.len() + 1 + dy.len()]);
    assert(s[pos + ll + dx.len() + 1 + dy.len() + 1] == j[ll + dx.len() + 1 + dy.len() + 1]);
    assert(j[ll + dx.len() + 1 + dy.len()] == 93);
    assert(j[ll + dx.len() + 1 + dy.len() + 1] == 125);
}

/// A number's digits standing at a position, followed by a non-digit, pin
/// what the greedy decimal parse of the rest of the buffer reads.
proof fn lemma_parse_dec_at(s: Seq<u8>, p: int, n: u64)
    requires
        0 <= p,
        p + dec_digits(n).len() <= s.len(),
        s.subrange(p, p + dec_digits(n).len()) == dec_digits(n),
        p + dec_digits(n).len() == s.len() || !is_digit(s[p + dec_digits(n).len()]),
    ensures
        spec_parse_dec(s.subrange(p, s.len() as int)) == Some((n, dec_digits(n).len() as int)),
{
    let dd = dec_digits(n);
    let rest = s.subrange(p + dd.len(), s.len() as int);
    assert(s.subrange(p, s.len() as int) =~= dd + rest) by {
        assert(forall|i: int|
            0 <= i < dd.len() ==> s.subrange(p, p + dd.len())[i] == #[trigger] s[p + i]);
    }
    if rest.len() > 0 {
        assert(rest[0] == s[p + dd.len()]);
    }
    lemma_parse_dec_digits(n, rest);
}

/// The position after the literal, when `bytes` continues with exactly it
/// at `pos`: `Some` precisely when the literal stands there.
fn match_lit(bytes: &Vec<u8>, pos: usize, lit: &Vec<u8>) -> (r: Option<usize>)
    ensures
        r matches Some(p) ==> p == pos + lit@.len() && p <= bytes@.len() && bytes@.subrange(
            pos as int,
            p as int,
        ) == lit@,
        r is None ==> !(pos + lit@.len() <= bytes@.len() && bytes@.subrange(
            pos as int,
            pos + lit@.len(),
        ) == lit@),
{
    if lit.len() > bytes.len() || pos > bytes.len() - lit.len() {
        return None;
    }
    let mut i: usize = 0;
    while i < lit.len()
        invariant
            i <= lit@.len(),
            pos + lit@.len() <= bytes@.len(),
            bytes@.len() <= usize::MAX,
            forall|m: int| 0 <= m < i ==> bytes@[pos + m] == lit@[m],
        decreases lit@.len() - i,
    {
        if bytes[pos + i] != lit[i] {
            assert(bytes@.subrange(pos as int, pos + lit@.len()) != lit@) by {
                assert(bytes@.subrange(pos as int, pos + lit@.len())[i as int] == bytes@[pos
                    + i]);
            }
            return None;
        }
        i = i + 1;
    }
    assert(bytes@.subrange(pos as int, pos + lit@.len()) =~= lit@);
    Some(pos + lit.len())
}

/// The position after one expected byte: `Some` precisely when that byte
/// stands at `pos`.
fn expect_byte(bytes: &Vec<u8>, pos: usize, b: u8) -> (r: Option<usize>)
    ensures
        r matches Some(p) ==> p == pos + 1 && p <= bytes@.len() && bytes@[pos as int] == b,
        r is None ==> !(pos < bytes@.len() && bytes@[pos as int] == b),
{
    if pos < bytes.len() && bytes[pos] == b {
        Some(pos + 1)
    } else {
        None
    }
}

/// A decimal number: at least one digit, rejecting 64-bit overflow;
/// exactly what [`spec_parse_dec`] reads from the rest of the buffer.
fn parse_dec(bytes: &Vec<u8>, pos: usize) -> (r: Option<(u64, usize)>)
    ensures
        r matches Some((_, p)) ==> pos < p <= bytes@.len(),
        pos <= bytes@.len() ==> match r {
            Some((v, p)) => spec_parse_dec(bytes@.subrange(pos as int, bytes@.len() as int))
                == Some((v, p - pos)),
            None => spec_parse_dec(bytes@.subrange(pos as int, bytes@.len() as int)) is None,
        },
{
    if pos > bytes.len() {
        return None;
    }
    let ghost suffix = bytes@.subrange(pos as int, bytes@.len() as int);
    let mut p = pos;
    let mut v: u64 = 0;
    while p < bytes.len()
        invariant
            pos <= p <= bytes@.len(),
            suffix == bytes@.subrange(pos as int, bytes@.len() as int),
            scan_dec(suffix, 0, 0) == scan_dec(suffix, p - pos, v),
            p > pos ==> suffix.len() > 0 && is_digit(suffix[0]),
            p == pos ==> v == 0,
        decreases bytes@.len() - p,
    {
        proof {
            assert(suffix[p - pos] == bytes@[p as int]);
        }
        let b = bytes[p];
        if b < 48 || b > 57 {
            // The number ends here.
            assert(scan_dec(suffix, p - pos, v) == Some((v, p - pos)));
            if p > pos {
                return Some((v, p));
            }
            return None;
        }
        let d = (b - 48) as u64;
        if v > (u64::MAX - d) / 10 {
            assert(scan_dec(suffix, p - pos, v) is None);
            assert(suffix[0] == bytes@[pos as int]);
            return None;
        }
        v = v * 10 + d;
        p = p + 1;
    }
    // The buffer ended inside (or right at the start of) the number.
    proof {
        assert(scan_dec(suffix, p - pos, v) == Some((v, p - pos)));
    }
    if p > pos {
        Some((v, p))
    } else {
        None
    }
}

/// One assertion in its JSON form, starting at `pos`. Whenever some
/// assertion's JSON form stands at `pos`, exactly that assertion is read,
/// ending right after its form.
#[verifier::rlimit(100)]
fn parse_assertion_at(bytes: &Vec<u8>, pos: usize) -> (r: Option<(Assertion, usize)>)
    ensures
        r matches Some((_, p)) ==> pos <= p <= bytes@.len(),
        forall|a: Assertion|
            assertion_at(bytes@, pos as int, a) ==> r == Some(
                (a, (pos + assertion_json(a).len()) as usize),
            ),
{
    // Whichever variant literal stands at `pos` (if any) identifies the
    // variant: the six literals pairwise disagree within their common
    // length, at index 2 across families and at the byte after the shared
    // stem within a family.
    if let Some(p) = match_lit(bytes, pos, &condition_bytes()) {
        if let Some(p1) = match_lit(bytes, p, &true_bytes()) {
            proof {
                conflicts_with_condition(bytes@, pos as int);
                assert forall|a: Assertion| assertion_at(bytes@, pos as int, a) implies a
                    == Assertion::Condition(true) && assertion_json(a).len() == 18
                    && bytes@[pos + 17] == 125 by {
                    lemma_assertion_lit(bytes@, pos as int, a);
                    if a is Condition {
                        let j = assertion_json(a);
                        lemma_sub_prefix(bytes@, pos as int, j, 13, j.len() as int);
                        if a == Assertion::Condition(false) {
                            assert(j.subrange(13, 18) =~= lit_false());
                            lemma_prefixes_agree(
                                bytes@,
                                pos as int + 13,
                                lit_true(),
                                lit_false(),
                                0,
                            );
                        } else {
                            assert(j.subrange(13, 18) =~= lit_true() + seq![125u8]);
                            assert(bytes@[pos + 17] == (lit_true() + seq![125u8])[4]);
                        }
                    }
                }
            }
            let p2 = expect_byte(bytes, p1, 125)?;
            return Some((Assertion::Condition(true), p2));
        }
        if let Some(p1) = match_lit(bytes, p, &false_bytes()) {
            proof {
                conflicts_with_condition(bytes@, pos as int);
                assert forall|a: Assertion| assertion_at(bytes@, pos as int, a) implies a
                    == Assertion::Condition(false) && assertion_json(a).len() == 19
                    && bytes@[pos + 18] == 125 by {
                    lemma_assertion_lit(bytes@, pos as int, a);
                    if a is Condition {
                        let j = assertion_json(a);
                        lemma_sub_prefix(bytes@, pos as int, j, 13, j.len() as int);
                        if a == Assertion::Condition(true) {
                            assert(j.subrange(13, 18) =~= lit_true() + seq![125u8]);
                            lemma_prefixes_agree(
                                bytes@,
                                pos as int + 13,
                                lit_false(),
                                lit_true() + seq![125u8],
                                0,
                            );
                        } else {
                            assert(j.subrange(13, 19) =~= lit_false() + seq![125u8]);
                            assert(bytes@[pos + 18] == (lit_false() + seq![125u8])[5]);
                        }
                    }
                }
            }
            let p2 = expect_byte(bytes, p1, 125)?;
            return Some((Assertion::Condition(false), p2));
        }
        proof {
            conflicts_with_condition(bytes@, pos as int);
            assert forall|a: Assertion| !assertion_at(bytes@, pos as int, a) by {
                if assertion_at(bytes@, pos as int, a) {
                    lemma_assertion_lit(bytes@, pos as int, a);
                    if a is Condition {
                        let j = assertion_json(a);
                        lemma_sub_prefix(bytes@, pos as int, j, 13, j.len() as int);
                        match a {
                            Assertion::Condition(v) => {
                                if v {
                                    assert(j.subrange(13, 18) =~= lit_true() + seq![125u8]);
                                    assert(bytes@.subrange(pos as int + 13, pos as int + 17)
                                        =~= lit_true());
                                } else {
                                    assert(j.subrange(13, 19) =~= lit_false() + seq![125u8]);
                                    assert(bytes@.subrange(pos as int + 13, pos as int + 18)
                                        =~= lit_false());
                                }
                            },
                            _ => {},
                        }
                    }
                }
            }
        }
        return None;
    }
    let (kind, p) = if let Some(p) = match_lit(bytes, pos, &less_than_bytes()) {
        (0u8, p)
    } else if let Some(p) = match_lit(bytes, pos, &less_than_or_equal_bytes()) {
        (1u8, p)
    } else if let Some(p) = match_lit(bytes, pos, &greater_than_bytes()) {
        (2u8, p)
    } else if let Some(p) = match_lit(bytes, pos, &greater_than_or_equal_bytes()) {
        (3u8, p)
    } else {
        proof {
            assert forall|a: Assertion| !assertion_at(bytes@, pos as int, a) by {
                if assertion_at(bytes@, pos as int, a) {
                    lemma_assertion_lit(bytes@, pos as int, a);
                }
            }
        }
        return None;
    };
    let ghost obs_lit: Seq<u8> = if kind == 0 {
        lit_less_than()
    } else if kind == 1 {
        lit_less_than_or_equal()
    } else if kind == 2 {
        lit_greater_than()
    } else {
        lit_greater_than_or_equal()
    };
    proof {
        // Any assertion standing here is the comparison this literal names.
        assert forall|a: Assertion| assertion_at(bytes@, pos as int, a) implies comp_lit(a)
            == obs_lit && !(a is Condition) by {
            lemma_assertion_lit(bytes@, pos as int, a);
            if a is Condition {
                lemma_prefixes_agree(bytes@, pos as int, lit_condition(), obs_lit, 2);
            } else if comp_lit(a) != obs_lit {
                if comp_lit(a).len() == obs_lit.len() {
                    lemma_prefixes_agree(bytes@, pos as int, comp_lit(a), obs_lit, 2);
                    lemma_prefixes_agree(bytes@, pos as int, comp_lit(a), obs_lit, 11);
                } else {
                    lemma_prefixes_agree(bytes@, pos as int, comp_lit(a), obs_lit, 2);
                    lemma_prefixes_agree(bytes@, pos as int, comp_lit(a), obs_lit, 11);
                    lemma_prefixes_agree(bytes@, pos as int, comp_lit(a), obs_lit, 14);
                }
            }
        }
    }
    proof {
        assert forall|a: Assertion| assertion_at(bytes@, pos as int, a) implies spec_parse_dec(
            bytes@.subrange(p as int, bytes@.len() as int),
        ) == Some((comp_x(a), dec_digits(comp_x(a)).len() as int)) by {
            lemma_comparison_shape(bytes@, pos as int, a);
            lemma_parse_dec_at(bytes@, p as int, comp_x(a));
        }
    }
    let (x, p1) = match parse_dec(bytes, p) {
        Some(v) => v,
        None => {
            proof {
                assert forall|a: Assertion| !assertion_at(bytes@, pos as int, a) by {}
            }
            return None;
        },
    };
    proof {
        assert forall|a: Assertion| assertion_at(bytes@, pos as int, a) implies comp_x(a) == x
            && p1 == p + dec_digits(comp_x(a)).len() && bytes@[p1 as int] == 44 by {
            lemma_comparison_shape(bytes@, pos as int, a);
        }
    }
    let p2 = match expect_byte(bytes, p1, 44) {
        Some(v) => v,
        None => {
            proof {
                assert forall|a: Assertion| !assertion_at(bytes@, pos as int, a) by {
                    if assertion_at(bytes@, pos as int, a) {
                        lemma_comparison_shape(bytes@, pos as int, a);
                    }
                }
            }
            return None;
        },
    };
    proof {
        assert forall|a: Assertion| assertion_at(bytes@, pos as int, a) implies spec_parse_dec(
            bytes@.subrange(p2 as int, bytes@.len() as int),
        ) == Some((comp_y(a), dec_digits(comp_y(a)).len() as int)) by {
            lemma_comparison_shape(bytes@, pos as int, a);
            lemma_parse_dec_at(bytes@, p2 as int, comp_y(a));
        }
    }
    let (y, p3) = match parse_dec(bytes, p2) {
        Some(v) => v,
        None => {
            proof {
                assert forall|a: Assertion| !assertion_at(bytes@, pos as int, a) by {}
            }
            return None;
        },
    };
    proof {
        assert forall|a: Assertion| assertion_at(bytes@, pos as int, a) implies comp_y(a) == y
            && p3 == p2 + dec_digits(comp_y(a)).len() && bytes@[p3 as int] == 93 && bytes@[p3
            + 1] == 125 && pos + assertion_json(a).len() == p3 + 2 by {
            lemma_comparison_shape(bytes@, pos as int, a);
        }
    }
    let p4 = match expect_byte(bytes, p3, 93) {
        Some(v) => v,
        None => {
            proof {
                assert forall|a: Assertion| !assertion_at(bytes@, pos as int, a) by {
                    if assertion_at(bytes@, pos as int, a) {
                        lemma_comparison_shape(bytes@, pos as int, a);
                    }
                }
            }
            return None;
        },
    };
    let p5 = match expect_byte(bytes, p4, 125) {
        Some(v) => v,
        None => {
            proof {
                assert forall|a: Assertion| !assertion_at(bytes@, pos as int, a) by {
                    if assertion_at(bytes@, pos as int, a) {
                        lemma_comparison_shape(bytes@, pos as int, a);
                    }
                }
            }
            return None;
        },
    };
    let a = if kind == 0 {
        Assertion::LessThan(x, y)
    } else if kind == 1 {
        Assertion::LessThanOrEqual(x, y)
    } else if kind == 2 {
        Assertion::GreaterThan(x, y)
    } else {
        Assertion::GreaterThanOrEqual(x, y)
    };
    proof {
        assert forall|b: Assertion| assertion_at(bytes@, pos as int, b) implies b == a by {
            lemma_comparison_shape(bytes@, pos as int, b);
        }
    }
    Some((a, p5))
}

/// No comparison literal stands where the condition literal does: they
/// disagree at their third byte.
proof fn conflicts_with_condition(s: Seq<u8>, pos: int)
    requires
        0 <= pos,
        pos + lit_condition().len() <= s.len(),
        s.subrange(pos, pos + lit_condition().len()) == lit_condition(),
    ensures
        forall|a: Assertion|
            assertion_at(s, pos, a) ==> #[trigger] (a is Condition),
{
    assert forall|a: Assertion| assertion_at(s, pos, a) implies #[trigger] (a is Condition) by {
        if !(a is Condition) {
            lemma_assertion_lit(s, pos, a);
            lemma_prefixes_agree(s, pos, lit_condition(), comp_lit(a), 2);
        }
    }
}

/// The value of a lower-case hex digit byte.
fn hex_value(b: u8) -> (r: Option<u8>)
    ensures
        r == spec_hex_value(b),
        r matches Some(v) ==> v < 16,
{
    if 48 <= b && b <= 57 {
        Some(b - 48)
    } else if 97 <= b && b <= 102 {
        Some(b - 87)
    } else {
        None
    }
}

/// Undo JSON string escaping over the region `start..end`, exactly as
/// [`unesc`] reads it; raw quotes, stray backslashes and unknown escapes
/// are malformed.
fn unescape_region(bytes: &Vec<u8>, start: usize, end: usize) -> (r: Option<Vec<u8>>)
    requires
        start <= end <= bytes@.len(),
    ensures
        match r {
            Some(v) => unesc(bytes@.subrange(start as int, end as int)) == Some(v@),
            None => unesc(bytes@.subrange(start as int, end as int)) is None,
        },
{
    let ghost full = bytes@.subrange(start as int, end as int);
    let mut out: Vec<u8> = Vec::new();
    let mut p = start;
    proof {
        assert(bytes@.subrange(start as int, end as int) =~= full);
        if unesc(full) is Some {
            assert(Seq::<u8>::empty() + unesc(full)->Some_0 =~= unesc(full)->Some_0);
        }
    }
    while p < end
        invariant
            start <= p <= end,
            end <= bytes@.len(),
            full == bytes@.subrange(start as int, end as int),
            unesc(full) is Some <==> unesc(bytes@.subrange(p as int, end as int)) is Some,
            unesc(bytes@.subrange(p as int, end as int)) matches Some(t) ==> unesc(full) == Some(
                out@ + t,
            ),
        decreases end - p,
    {
        let ghost rem = bytes@.subrange(p as int, end as int);
        proof {
            assert(rem[0] == bytes@[p as int]);
        }
        let b = bytes[p];
        if b == 34 {
            return None;
        } else if b == 92 {
            if p + 1 >= end {
                assert(rem.len() < 2);
                return None;
            }
            proof {
                assert(rem[1] == bytes@[p as int + 1]);
            }
            let e = bytes[p + 1];
            if e == 34 {
                out.push(34);
                p = p + 2;
                proof {
                    assert(rem.skip(2) =~= bytes@.subrange(p as int, end as int));
                    if unesc(rem.skip(2)) is Some {
                        let t = unesc(rem.skip(2))->Some_0;
                        assert(unesc(rem) == Some(seq![34u8] + t));
                        assert(out@.drop_last() + (seq![34u8] + t) =~= out@ + t);
                    }
                }
            } else if e == 92 {
                out.push(92);
                p = p + 2;
                proof {
                    assert(rem.skip(2) =~= bytes@.subrange(p as int, end as int));
                    if unesc(rem.skip(2)) is Some {
                        let t = unesc(rem.skip(2))->Some_0;
                        assert(unesc(rem) == Some(seq![92u8] + t));
                        assert(out@.drop_last() + (seq![92u8] + t) =~= out@ + t);
                    }
                }
            } else if e == 117 {
                if end - p < 6 {
                    assert(rem.len() < 6);
                    return None;
                }
                proof {
                    assert(rem[2] == bytes@[p as int + 2]);
                    assert(rem[3] == bytes@[p as int + 3]);
                    assert(rem[4] == bytes@[p as int + 4]);
                    assert(rem[5] == bytes@[p as int + 5]);
                }
                if bytes[p + 2] != 48 || bytes[p + 3] != 48 {
                    return None;
                }
                let hi = match hex_value(bytes[p + 4]) {
                    Some(v) => v,
                    None => {
                        return None;
                    },
                };
                let lo = match hex_value(bytes[p + 5]) {
                    Some(v) => v,
                    None => {
                        return None;
                    },
                };
                let decoded = hi * 16 + lo;
                out.push(decoded);
                p = p + 6;
                proof {
                    assert(rem.skip(6) =~= bytes@.subrange(p as int, end as int));
                    if unesc(rem.skip(6)) is Some {
                        let t = unesc(rem.skip(6))->Some_0;
                        assert(unesc(rem) == Some(seq![decoded] + t));
                        assert(out@.drop_last() + (seq![decoded] + t) =~= out@ + t);
                    }
                }
            } else {
                return None;
            }
        } else {
            out.push(b);
            p = p + 1;
            proof {
                assert(rem.skip(1) =~= bytes@.subrange(p as int, end as int));
                if unesc(rem.skip(1)) is Some {
                    let t = unesc(rem.skip(1))->Some_0;
                    assert(unesc(rem) == Some(seq![b] + t));
                    assert(out@.drop_last() + (seq![b] + t) =~= out@ + t);
                }
            }
        }
    }
    proof {
        assert(bytes@.subrange(p as int, end as int) =~= Seq::<u8>::empty());
        if unesc(full) is Some {
            assert(out@ + Seq::<u8>::empty() =~= out@);
        }
    }
    Some(out)
}



/// The variant literal, inner assertion and message of a scope.
pub open spec fn scope_lit(sc: AssertionScope) -> Seq<u8> {
    match sc {
        AssertionScope::Sometimes(_, _) => lit_sometimes(),
        AssertionScope::Always(_, _) => lit_always(),
    }
}

pub open spec fn scope_assertion(sc: AssertionScope) -> Assertion {
    match sc {
        AssertionScope::Sometimes(a, _) => a,
        AssertionScope::Always(a, _) => a,
    }
}

/// Two scopes that carry the same direction, the same assertion and the
/// same message bytes.
pub open spec fn scope_like(t: AssertionScope, sc: AssertionScope) -> bool {
    match (t, sc) {
        (AssertionScope::Sometimes(a1, m1), AssertionScope::Sometimes(a2, m2)) => a1 == a2 && m1@
            == m2@,
        (AssertionScope::Always(a1, m1), AssertionScope::Always(a2, m2)) => a1 == a2 && m1@
            == m2@,
        _ => false,
    }
}

/// The JSON form of a scope decomposes into its variant literal, its inner
/// assertion standing right after it, the comma and quote, the escaped
/// message, and the closing quote, bracket and brace.
proof fn lemma_scope_shape(s: Seq<u8>, sc: AssertionScope)
    requires
        s == scope_json(sc),
    ensures
        ({
            let ll = scope_lit(sc).len() as int;
            let aj = assertion_json(scope_assertion(sc));
            let em = esc_seq(spec_scope_message(sc));
            let ms = ll + aj.len() + 2;
            &&& s.len() == ms + em.len() + 3
            &&& s.subrange(0, ll) == scope_lit(sc)
            &&& assertion_at(s, ll, scope_assertion(sc))
            &&& s[ll + aj.len()] == 44
            &&& s[ll + aj.len() + 1] == 34
            &&& s.subrange(ms, s.len() - 3) == em
            &&& s[s.len() - 3] == 34
            &&& s[s.len() - 2] == 93
            &&& s[s.len() - 1] == 125
        }),
{
    let ll = scope_lit(sc).len() as int;
    let aj = assertion_json(scope_assertion(sc));
    let m = spec_scope_message(sc);
    lemma_esc_bytes_is_front(m, m.len() as int);
    assert(m.take(m.len() as int) =~= m);
    let em = esc_seq(m);
    assert(s =~= scope_lit(sc) + aj + seq![44u8, 34u8] + em + seq![34u8, 93u8, 125u8]);
    let ms = ll + aj.len() as int + 2;
    assert(s.subrange(0, ll) =~= scope_lit(sc));
    assert(s.subrange(ll, ll + aj.len()) =~= aj);
    assert(s[ll + aj.len()] == 44);
    assert(s[ll + aj.len() + 1] == 34);
    assert(s.subrange(ms, s.len() - 3) =~= em);
}

/// An assertion scope from its JSON bytes: the variant key, the inner
/// assertion, and the escaped message. Reading back what some scope wrote
/// yields that scope: the stdout envelope's payload round trip.
#[verifier::rlimit(100)]
pub fn parse_scope_json(bytes: &Vec<u8>) -> (r: Option<AssertionScope>)
    ensures
        forall|sc: AssertionScope|
            bytes@ == scope_json(sc) ==> (r matches Some(t) && scope_like(t, sc)),
{
    let total = bytes.len();
    proof {
        assert(bytes@.len() == total);
    }
    let (always, p) = if let Some(p) = match_lit(bytes, 0, &sometimes_bytes()) {
        (false, p)
    } else if let Some(p) = match_lit(bytes, 0, &always_bytes()) {
        (true, p)
    } else {
        proof {
            assert forall|sc: AssertionScope| bytes@ != scope_json(sc) by {
                if bytes@ == scope_json(sc) {
                    lemma_scope_shape(bytes@, sc);
                }
            }
        }
        return None;
    };
    let ghost obs_lit: Seq<u8> = if always {
        lit_always()
    } else {
        lit_sometimes()
    };
    proof {
        // The two scope literals disagree at their third byte, so whichever
        // matched identifies the direction.
        assert forall|sc: AssertionScope| bytes@ == scope_json(sc) implies scope_lit(sc)
            == obs_lit && assertion_at(bytes@, p as int, scope_assertion(sc)) by {
            lemma_scope_shape(bytes@, sc);
            if scope_lit(sc) != obs_lit {
                lemma_prefixes_agree(bytes@, 0, scope_lit(sc), obs_lit, 2);
            }
        }
    }
    let (a, p1) = match parse_assertion_at(bytes, p) {
        Some(v) => v,
        None => {
            proof {
                assert forall|sc: AssertionScope| bytes@ != scope_json(sc) by {}
            }
            return None;
        },
    };
    proof {
        assert forall|sc: AssertionScope| bytes@ == scope_json(sc) implies a == scope_assertion(
            sc,
        ) && p1 == p + assertion_json(scope_assertion(sc)).len() && bytes@[p1 as int] == 44
            && bytes@[p1 + 1] == 34 by {
            lemma_scope_shape(bytes@, sc);
        }
    }
    let p2 = match expect_byte(bytes, p1, 44) {
        Some(v) => v,
        None => {
            proof {
                assert forall|sc: AssertionScope| bytes@ != scope_json(sc) by {
                    if bytes@ == scope_json(sc) {
                        lemma_scope_shape(bytes@, sc);
                    }
                }
            }
            return None;
        },
    };
    let p3 = match expect_byte(bytes, p2, 34) {
        Some(v) => v,
        None => {
            proof {
                assert forall|sc: AssertionScope| bytes@ != scope_json(sc) by {
                    if bytes@ == scope_json(sc) {
                        lemma_scope_shape(bytes@, sc);
                    }
                }
            }
            return None;
        },
    };
    proof {
        assert forall|sc: AssertionScope| bytes@ == scope_json(sc) implies p3 + esc_seq(
            spec_scope_message(sc),
        ).len() == bytes@.len() - 3 && bytes@.subrange(p3 as int, bytes@.len() - 3) == esc_seq(
            spec_scope_message(sc),
        ) && bytes@[bytes@.len() - 3] == 34 && bytes@[bytes@.len() - 2] == 93 && bytes@[bytes@.len()
            - 1] == 125 by {
            lemma_scope_shape(bytes@, sc);
        }
    }
    // The closing quote, bracket and brace are positional.
    if bytes.len() < 3 || p3 > bytes.len() - 3 {
        return None;
    }
    let end = bytes.len() - 3;
    if bytes[end] != 34 || bytes[end + 1] != 93 || bytes[end + 2] != 125 {
        return None;
    }
    let message = match unescape_region(bytes, p3, end) {
        Some(v) => v,
        None => {
            proof {
                assert forall|sc: AssertionScope| bytes@ != scope_json(sc) by {
                    if bytes@ == scope_json(sc) {
                        lemma_unesc_esc(spec_scope_message(sc));
                    }
                }
            }
            return None;
        },
    };
    proof {
        assert forall|sc: AssertionScope| bytes@ == scope_json(sc) implies message@
            == spec_scope_message(sc) by {
            lemma_unesc_esc(spec_scope_message(sc));
        }
    }
    if always {
        Some(AssertionScope::Always(a, message))
    } else {
        Some(AssertionScope::Sometimes(a, message))
    }
}


/// An envelope line standing in a region pins its prefix, its payload and
/// its closing quote and brace, all positionally.
proof fn lemma_envelope_shape(s: Seq<u8>, lo: int, hi: int, prefix: Seq<u8>, payload: Seq<u8>)
    requires
        0 <= lo <= hi <= s.len(),
        prefix.len() > 0,
        s.subrange(lo, hi) == envelope_line(prefix, payload),
    ensures
        hi - lo == prefix.len() + payload.len() + 2,
        s.subrange(lo, lo + prefix.len()) == prefix,
        s.subrange(lo + prefix.len(), hi - 2) == payload,
        s[lo] == prefix[0],
        s[hi - 2] == 34,
        s[hi - 1] == 125,
{
    let whole = envelope_line(prefix, payload);
    lemma_sub_prefix(s, lo, whole, 0, prefix.len() as int);
    assert(whole.subrange(0, prefix.len() as int) =~= prefix);
    lemma_sub_prefix(s, lo, whole, prefix.len() as int, prefix.len() as int + payload.len() as int);
    assert(whole.subrange(prefix.len() as int, prefix.len() as int + payload.len() as int)
        =~= payload);
    assert(s[lo] == s.subrange(lo, hi)[0]);
    assert(s[hi - 2] == s.subrange(lo, hi)[hi - lo - 2]);
    assert(s[hi - 1] == s.subrange(lo, hi)[hi - lo - 1]);
    assert(whole[whole.len() - 2] == 34);
    assert(whole[whole.len() - 1] == 125);
}

/// A byte trimmed away around an envelope line: whitespace or a NUL.
fn is_trimmed(b: u8) -> (r: bool)
    ensures
        r == (b == 0 || b == 9 || b == 10 || b == 13 || b == 32),
{
    b == 0 || b == 9 || b == 10 || b == 13 || b == 32
}

/// Whether the region holds an assertion envelope around this payload.
pub open spec fn assertion_line_at(s: Seq<u8>, lo: int, hi: int, payload: Seq<u8>) -> bool {
    &&& 0 <= lo <= hi <= s.len()
    &&& s.subrange(lo, hi) == envelope_line(lit_assertion_envelope(), payload)
}

/// One stdout line (the region `lo..hi` of the buffer), null- and
/// whitespace-trimmed, read as an envelope message. A region that holds an
/// assertion envelope always reads back as exactly its payload.
#[verifier::rlimit(100)]
pub fn parse_stdout_line(bytes: &Vec<u8>, lo: usize, hi: usize) -> (r: Option<StdoutMessage>)
    requires
        lo <= hi <= bytes@.len(),
    ensures
        forall|payload: Seq<u8>|
            assertion_line_at(bytes@, lo as int, hi as int, payload) ==> (r matches Some(m)
                && m matches StdoutMessage::Assertion(pl) && pl@ == payload),
{
    proof {
        assert forall|payload: Seq<u8>|
            assertion_line_at(bytes@, lo as int, hi as int, payload) implies bytes@[lo as int]
            == 123 && bytes@[hi - 1] == 125 && bytes@[hi - 2] == 34 && hi - lo == 16
            + payload.len() by {
            lemma_envelope_shape(
                bytes@,
                lo as int,
                hi as int,
                lit_assertion_envelope(),
                payload,
            );
        }
    }
    let mut l = lo;
    let mut h = hi;
    while l < h && is_trimmed(bytes[l])
        invariant
            lo <= l <= h <= bytes@.len(),
            h == hi,
            forall|payload: Seq<u8>|
                assertion_line_at(bytes@, lo as int, hi as int, payload) ==> l == lo && bytes@[lo
                    as int] == 123 && bytes@[hi - 1] == 125,
        decreases h - l,
    {
        l = l + 1;
    }
    while h > l && is_trimmed(bytes[h - 1])
        invariant
            lo <= l <= h <= bytes@.len(),
            forall|payload: Seq<u8>|
                assertion_line_at(bytes@, lo as int, hi as int, payload) ==> l == lo && h == hi
                    && bytes@[lo as int] == 123 && bytes@[hi - 1] == 125,
        decreases h - l,
    {
        h = h - 1;
    }
    if h - l < 2 {
        proof {
            assert forall|payload: Seq<u8>|
                !assertion_line_at(bytes@, lo as int, hi as int, payload) by {}
        }
        return None;
    }
    // The closing quote and brace are positional.
    if bytes[h - 2] != 34 || bytes[h - 1] != 125 {
        proof {
            assert forall|payload: Seq<u8>|
                !assertion_line_at(bytes@, lo as int, hi as int, payload) by {}
        }
        return None;
    }
    proof {
        assert forall|payload: Seq<u8>|
            assertion_line_at(bytes@, lo as int, hi as int, payload) implies lo
            + lit_assertion_envelope().len() <= bytes@.len() && bytes@.subrange(
            lo as int,
            lo + lit_assertion_envelope().len(),
        ) == lit_assertion_envelope() && bytes@.subrange(lo as int + 14, hi - 2) == payload by {
            lemma_envelope_shape(
                bytes@,
                lo as int,
                hi as int,
                lit_assertion_envelope(),
                payload,
            );
        }
    }
    if let Some(p) = match_lit(bytes, l, &assertion_envelope_bytes()) {
        if p <= h - 2 {
            let mut payload: Vec<u8> = Vec::new();
            let mut i = p;
            while i < h - 2
                invariant
                    p <= i <= h - 2 <= bytes@.len(),
                    payload@ =~= bytes@.subrange(p as int, i as int),
                decreases h - 2 - i,
            {
                payload.push(bytes[i]);
                i = i + 1;
            }
            assert(payload@ =~= bytes@.subrange(p as int, h - 2));
            return Some(StdoutMessage::Assertion(payload));
        }
        return None;
    }
    if let Some(p) = match_lit(bytes, l, &probe_envelope_bytes()) {
        if p <= h - 2 {
            let text = unescape_region(bytes, p, h - 2)?;
            return Some(StdoutMessage::Probe(text));
        }
        return None;
    }
    None
}


/// The buffer holds exactly one emitted assertion line: the envelope around
/// the base64 of the scope's JSON form, the payload made of base64 bytes
/// alone (which the encoder guarantees).
pub open spec fn emitted_assertion_line(s: Seq<u8>, sc: AssertionScope) -> bool {
    &&& s == envelope_line(lit_assertion_envelope(), crate::b64::b64_of(scope_json(sc)))
    &&& forall|i: int|
        0 <= i < crate::b64::b64_of(scope_json(sc)).len() ==> crate::b64::is_b64_byte(
            #[trigger] crate::b64::b64_of(scope_json(sc))[i],
        )
}

/// An emitted assertion line holds no newline: the envelope bytes and the
/// base64 alphabet exclude it.
proof fn lemma_emitted_no_newline(s: Seq<u8>, sc: AssertionScope)
    requires
        emitted_assertion_line(s, sc),
    ensures
        forall|i: int| 0 <= i < s.len() ==> #[trigger] s[i] != 10,
{
    let prefix = lit_assertion_envelope();
    let payload = crate::b64::b64_of(scope_json(sc));
    assert(s.subrange(0, s.len() as int) =~= s);
    lemma_envelope_shape(s, 0, s.len() as int, prefix, payload);
    assert forall|i: int| 0 <= i < s.len() implies #[trigger] s[i] != 10 by {
        if i < prefix.len() {
            assert(s.subrange(0, prefix.len() as int)[i] == s[i]);
        } else if i < prefix.len() + payload.len() {
            assert(s.subrange(prefix.len() as int, s.len() - 2)[i - prefix.len()] == s[i]);
            assert(payload[i - prefix.len()] == s[i]);
        } else {
            assert(s[s.len() - 2] == 34 && s[s.len() - 1] == 125);
        }
    }
}

/// Whether the region `lo..hi` holds an emitted assertion line for `sc`.
pub open spec fn emitted_assertion_region(
    s: Seq<u8>,
    lo: int,
    hi: int,
    sc: AssertionScope,
) -> bool {
    &&& 0 <= lo <= hi <= s.len()
    &&& s.subrange(lo, hi) == envelope_line(lit_assertion_envelope(), crate::b64::b64_of(
        scope_json(sc),
    ))
    &&& forall|i: int|
        0 <= i < crate::b64::b64_of(scope_json(sc)).len() ==> crate::b64::is_b64_byte(
            #[trigger] crate::b64::b64_of(scope_json(sc))[i],
        )
}

/// Read the line in `lo..hi` and record its assertion, if it carries one.
/// A region holding an emitted assertion line always records a scope with
/// the emitting scope's direction, assertion and message.
#[verifier::rlimit(100)]
fn absorb_line(
    entries: &mut Vec<(Vec<u8>, AssertionScope)>,
    buffer: &Vec<u8>,
    lo: usize,
    hi: usize,
)
    requires
        lo <= hi <= buffer@.len(),
        distinct_keys(old(entries)@),
        forall|k: int|
            0 <= k < old(entries)@.len() ==> (#[trigger] old(entries)@[k]).0@
                == crate::assertions::spec_scope_message(old(entries)@[k].1),
    ensures
        distinct_keys(final(entries)@),
        forall|k: int|
            0 <= k < final(entries)@.len() ==> (#[trigger] final(entries)@[k]).0@
                == crate::assertions::spec_scope_message(final(entries)@[k].1),
        forall|sc: AssertionScope|
            emitted_assertion_region(buffer@, lo as int, hi as int, sc) ==> exists|k: int|
                0 <= k < final(entries)@.len() && (#[trigger] final(entries)@[k]).0@
                    == crate::assertions::spec_scope_message(sc) && scope_like(
                    final(entries)@[k].1,
                    sc,
                ),
{
    match parse_stdout_line(buffer, lo, hi) {
        Some(StdoutMessage::Assertion(payload)) => {
            match crate::b64::b64_decode(&payload) {
                Some(json) => {
                    match parse_scope_json(&json) {
                        Some(scope) => {
                            proof {
                                assert forall|sc: AssertionScope|
                                    emitted_assertion_region(
                                        buffer@,
                                        lo as int,
                                        hi as int,
                                        sc,
                                    ) implies scope_like(scope, sc)
                                    && crate::assertions::spec_scope_message(scope)
                                    == crate::assertions::spec_scope_message(sc) by {
                                    assert(assertion_line_at(
                                        buffer@,
                                        lo as int,
                                        hi as int,
                                        crate::b64::b64_of(scope_json(sc)),
                                    ));
                                    assert(payload@ == crate::b64::b64_of(scope_json(sc)));
                                    assert(json@ == scope_json(sc));
                                }
                            }
                            insert_scope(entries, scope);
                        },
                        None => {
                            proof {
                                assert forall|sc: AssertionScope|
                                    !emitted_assertion_region(
                                        buffer@,
                                        lo as int,
                                        hi as int,
                                        sc,
                                    ) by {
                                    if emitted_assertion_region(buffer@, lo as int, hi as int, sc) {
                                        assert(assertion_line_at(
                                            buffer@,
                                            lo as int,
                                            hi as int,
                                            crate::b64::b64_of(scope_json(sc)),
                                        ));
                                        assert(payload@ == crate::b64::b64_of(scope_json(sc)));
                                        assert(json@ == scope_json(sc));
                                    }
                                }
                            }
                        },
                    }
                },
                None => {
                    proof {
                        assert forall|sc: AssertionScope|
                            !emitted_assertion_region(buffer@, lo as int, hi as int, sc) by {
                            if emitted_assertion_region(buffer@, lo as int, hi as int, sc) {
                                assert(assertion_line_at(
                                    buffer@,
                                    lo as int,
                                    hi as int,
                                    crate::b64::b64_of(scope_json(sc)),
                                ));
                                assert(payload@ == crate::b64::b64_of(scope_json(sc)));
                            }
                        }
                    }
                },
            }
        },
        _ => {
            proof {
                assert forall|sc: AssertionScope|
                    !emitted_assertion_region(buffer@, lo as int, hi as int, sc) by {
                    if emitted_assertion_region(buffer@, lo as int, hi as int, sc) {
                        assert(assertion_line_at(
                            buffer@,
                            lo as int,
                            hi as int,
                            crate::b64::b64_of(scope_json(sc)),
                        ));
                    }
                }
            }
        },
    }
}

/// All assertion scopes found in a target's stdout buffer, keyed by their
/// messages; a later scope with the same message replaces the earlier one.
/// Lines that do not parse as assertion envelopes are skipped silently. A
/// buffer holding exactly one emitted assertion line yields an entry whose
/// scope carries the emitting scope's direction, assertion and message:
/// reading back what a target wrote recovers what it asserted.
pub fn parse_assertions_from_stdout(buffer: &Vec<u8>) -> (r: Vec<(Vec<u8>, AssertionScope)>)
    ensures
        distinct_keys(r@),
        forall|k: int|
            0 <= k < r@.len() ==> (#[trigger] r@[k]).0@ == crate::assertions::spec_scope_message(
                r@[k].1,
            ),
        forall|sc: AssertionScope|
            emitted_assertion_line(buffer@, sc) ==> exists|k: int|
                0 <= k < r@.len() && (#[trigger] r@[k]).0@
                    == crate::assertions::spec_scope_message(sc) && scope_like(r@[k].1, sc),
{
    let mut entries: Vec<(Vec<u8>, AssertionScope)> = Vec::new();
    let n = buffer.len();
    proof {
        assert(buffer@.len() == n);
        assert forall|sc: AssertionScope| emitted_assertion_line(buffer@, sc) implies forall|
            i: int,
        | 0 <= i < buffer@.len() ==> #[trigger] buffer@[i] != 10 by {
            lemma_emitted_no_newline(buffer@, sc);
        }
    }
    let mut line_start: usize = 0;
    let mut pos: usize = 0;
    while pos < buffer.len()
        invariant
            line_start <= pos <= buffer@.len(),
            distinct_keys(entries@),
            forall|k: int|
                0 <= k < entries@.len() ==> (#[trigger] entries@[k]).0@
                    == crate::assertions::spec_scope_message(entries@[k].1),
            forall|sc: AssertionScope|
                #[trigger] emitted_assertion_line(buffer@, sc) ==> (forall|i: int|
                    0 <= i < buffer@.len() ==> #[trigger] buffer@[i] != 10) && line_start == 0,
        decreases buffer@.len() - pos,
    {
        if buffer[pos] == 10 {
            absorb_line(&mut entries, buffer, line_start, pos);
            line_start = pos + 1;
        }
        pos = pos + 1;
    }
    // The last line runs to the end of the buffer.
    proof {
        assert forall|sc: AssertionScope| emitted_assertion_line(buffer@, sc) implies
            emitted_assertion_region(buffer@, line_start as int, buffer@.len() as int, sc) by {
            assert(buffer@.subrange(0, buffer@.len() as int) =~= buffer@);
        }
    }
    absorb_line(&mut entries, buffer, line_start, n);
    entries
}

/// Whether no two entries carry the same message bytes: the map shape of
/// the association list.
pub open spec fn distinct_keys(entries: Seq<(Vec<u8>, AssertionScope)>) -> bool {
    forall|k1: int, k2: int|
        0 <= k1 < k2 < entries.len() ==> (#[trigger] entries[k1]).0@ != (
        #[trigger] entries[k2]).0@
}

/// Record a scope under its message, replacing any earlier record: after
/// the insert the one entry keyed by the scope's message holds this scope,
/// so a later scope with the same message always wins.
fn insert_scope(entries: &mut Vec<(Vec<u8>, AssertionScope)>, scope: AssertionScope)
    requires
        distinct_keys(old(entries)@),
        forall|k: int|
            0 <= k < old(entries)@.len() ==> (#[trigger] old(entries)@[k]).0@
                == crate::assertions::spec_scope_message(old(entries)@[k].1),
    ensures
        distinct_keys(final(entries)@),
        forall|k: int|
            0 <= k < final(entries)@.len() ==> (#[trigger] final(entries)@[k]).0@
                == crate::assertions::spec_scope_message(final(entries)@[k].1),
        exists|k: int|
            0 <= k < final(entries)@.len() && (#[trigger] final(entries)@[k]).1 == scope
                && final(entries)@[k].0@ == crate::assertions::spec_scope_message(scope),
{
    let key = scope.message();
    let mut i: usize = 0;
    while i < entries.len()
        invariant
            i <= entries@.len(),
            key@ == crate::assertions::spec_scope_message(scope),
            distinct_keys(entries@),
            forall|k: int| 0 <= k < i ==> (#[trigger] entries@[k]).0@ != key@,
            forall|k: int|
                0 <= k < entries@.len() ==> (#[trigger] entries@[k]).0@
                    == crate::assertions::spec_scope_message(entries@[k].1),
        decreases entries@.len() - i,
    {
        if key_matches(&entries[i].0, &key) {
            entries[i] = (key, scope);
            assert(entries@[i as int].1 == scope);
            return ;
        }
        i = i + 1;
    }
    entries.push((key, scope));
    assert(entries@[entries@.len() - 1].1 == scope);
}

/// Whether two byte keys hold the same bytes.
fn key_matches(a: &Vec<u8>, b: &Vec<u8>) -> (r: bool)
    ensures
        r == (a@ == b@),
{
    if a.len() != b.len() {
        return false;
    }
    let mut i: usize = 0;
    while i < a.len()
        invariant
            i <= a@.len(),
            a@.len() == b@.len(),
            forall|k: int| 0 <= k < i ==> a@[k] == b@[k],
        decreases a@.len() - i,
    {
        if a[i] != b[i] {
            return false;
        }
        i = i + 1;
    }
    proof {
        assert(a@ =~= b@);
    }
    true
}

} // verus!
