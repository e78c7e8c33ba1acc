//! Numeric tokens: the integer and floating-point literal syntax that a
//! sample value, a timestamp or a `le` / `quantile` label may use.
//!
//! A token is recorded with whether it reads as an `i64` and as a `u64`
//! (decimal digits with an optional sign, in range); the floating-point
//! reading is recognized here but its value is left to the consumer.

use vstd::prelude::*;

use super::lex::{ascii_lower, eq_ignore_case, eq_ignore_case_at};

verus! {

pub open spec fn is_digit(c: u8) -> bool {
    0x30 <= c <= 0x39
}

pub open spec fn all_digits(d: Seq<u8>) -> bool {
    forall|k: int| 0 <= k < d.len() ==> is_digit(#[trigger] d[k])
}

/// The value of a run of decimal digits.
pub open spec fn digits_value(d: Seq<u8>) -> nat
    decreases d.len(),
{
    if d.len() == 0 {
        0
    } else {
        digits_value(d.drop_last()) * 10 + (d.last() - 0x30) as nat
    }
}

pub open spec fn is_sign(c: u8) -> bool {
    c == 0x2b || c == 0x2d
}

/// Split an integer literal into its sign and digits, as `str::parse` does:
/// a lone sign is rejected, `+` is accepted, and `-` only for signed types.
pub open spec fn int_parts(t: Seq<u8>, signed: bool) -> Option<(bool, Seq<u8>)> {
    if t.len() == 0 {
        None
    } else if t.len() == 1 && is_sign(t[0]) {
        None
    } else if t[0] == 0x2b {
        Some((false, t.drop_first()))
    } else if t[0] == 0x2d && signed {
        Some((true, t.drop_first()))
    } else {
        Some((false, t))
    }
}

/// `t.parse::<i64>()`.
pub open spec fn spec_parse_i64(t: Seq<u8>) -> Option<i64> {
    match int_parts(t, true) {
        Some((neg, d)) => if all_digits(d) {
            let v: int = if neg { -(digits_value(d) as int) } else { digits_value(d) as int };
            if i64::MIN <= v <= i64::MAX { Some(v as i64) } else { None }
        } else {
            None
        },
        None => None,
    }
}

/// `t.parse::<u64>()`.
pub open spec fn spec_parse_u64(t: Seq<u8>) -> Option<u64> {
    match int_parts(t, false) {
        Some((_, d)) => if all_digits(d) && digits_value(d) <= u64::MAX {
            Some(digits_value(d) as u64)
        } else {
            None
        },
        None => None,
    }
}

/// The end of the run of digits starting at `i`.
pub open spec fn digit_run(s: Seq<u8>, i: int) -> int
    decreases s.len() - i,
{
    if 0 <= i < s.len() && is_digit(s[i]) {
        digit_run(s, i + 1)
    } else {
        i
    }
}

/// An exponent's tail from `k` (just after the `e`): optional sign, then at
/// least one digit, up to the end.
pub open spec fn exponent_tail(b: Seq<u8>, k: int) -> bool {
    let k2 = if k < b.len() && is_sign(b[k]) { k + 1 } else { k };
    let e = digit_run(b, k2);
    e > k2 && e == b.len()
}

/// `( Digit+ | Digit+ '.' Digit* | Digit* '.' Digit+ ) Exp?`
pub open spec fn decimal_syntax(b: Seq<u8>) -> bool {
    let i = digit_run(b, 0);
    let has_point = i < b.len() && b[i] == 0x2e;
    let r = if has_point { digit_run(b, i + 1) } else { i };
    let mantissa = if has_point { i > 0 || r > i + 1 } else { i > 0 };
    mantissa && (r == b.len() || ((b[r] == 0x65 || b[r] == 0x45) && exponent_tail(b, r + 1)))
}

pub open spec fn lit_inf() -> Seq<u8> {
    seq![0x69u8, 0x6e, 0x66]
}

pub open spec fn lit_infinity() -> Seq<u8> {
    seq![0x69u8, 0x6e, 0x66, 0x69, 0x6e, 0x69, 0x74, 0x79]
}

pub open spec fn lit_nan() -> Seq<u8> {
    seq![0x6eu8, 0x61, 0x6e]
}

/// The syntax `f64::from_str` accepts:
/// `Sign? ( 'inf' | 'infinity' | 'nan' | Number )`, letters in any case.
pub open spec fn float_syntax(t: Seq<u8>) -> bool {
    let body = if t.len() > 0 && is_sign(t[0]) { t.drop_first() } else { t };
    body.len() > 0 && (eq_ignore_case(body, lit_inf()) || eq_ignore_case(body, lit_infinity())
        || eq_ignore_case(body, lit_nan()) || decimal_syntax(body))
}

/// A token is numeric when it reads as an integer or as a float.
pub open spec fn is_number(t: Seq<u8>) -> bool {
    spec_parse_i64(t) is Some || spec_parse_u64(t) is Some || float_syntax(t)
}

// ---------------------------------------------------------------------------
// Exec recognizers
// ---------------------------------------------------------------------------

proof fn lemma_digits_value_push(d: Seq<u8>, c: u8)
    ensures
        digits_value(d.push(c)) == digits_value(d) * 10 + (c - 0x30) as nat,
{
    assert(d.push(c).drop_last() =~= d);
}

proof fn lemma_digits_value_mono(d: Seq<u8>, k: int)
    requires
        0 <= k <= d.len(),
    ensures
        digits_value(d.subrange(0, k)) <= digits_value(d),
    decreases d.len() - k,
{
    if k < d.len() {
        lemma_digits_value_mono(d, k + 1);
        assert(d.subrange(0, k + 1).drop_last() =~= d.subrange(0, k));
    } else {
        assert(d.subrange(0, k) =~= d);
    }
}

/// The value of the digits `b[i..j]`, when they are all digits and the value
/// fits a `u64`.
fn digits_u64(b: &[u8], i: usize, j: usize) -> (r: Option<u64>)
    requires
        i <= j <= b@.len(),
    ensures
        match r {
            Some(v) => all_digits(b@.subrange(i as int, j as int)) && v == digits_value(
                b@.subrange(i as int, j as int),
            ),
            None => !all_digits(b@.subrange(i as int, j as int)) || digits_value(
                b@.subrange(i as int, j as int),
            ) > u64::MAX,
        },
{
    let ghost d = b@.subrange(i as int, j as int);
    let mut acc: u64 = 0;
    let mut k = i;
    assert(d.subrange(0, 0) =~= Seq::<u8>::empty());
    while k < j
        invariant
            i <= k <= j <= b@.len(),
            d == b@.subrange(i as int, j as int),
            all_digits(d.subrange(0, k - i)),
            acc == digits_value(d.subrange(0, k - i)),
        decreases j - k,
    {
        let c = b[k];
        let ghost pre = d.subrange(0, k - i);
        assert(d.subrange(0, k - i + 1) =~= pre.push(c));
        proof { lemma_digits_value_push(pre, c); }
        if c < 0x30 || c > 0x39 {
            assert(!is_digit(d[k - i]));
            return None;
        }
        let dig = (c - 0x30) as u64;
        if acc > (u64::MAX - dig) / 10 {
            proof {
                assert(acc * 10 + dig > u64::MAX) by (nonlinear_arith)
                    requires acc > (u64::MAX - dig) / 10, dig <= 9;
                lemma_digits_value_mono(d, k - i + 1);
                if !all_digits(d) {
                } else {
                }
            }
            return None;
        }
        proof {
            assert(acc * 10 + dig <= u64::MAX) by (nonlinear_arith)
                requires acc <= (u64::MAX - dig) / 10, dig <= 9;
        }
        acc = acc * 10 + dig;
        k = k + 1;
        assert(all_digits(d.subrange(0, k - i))) by {
            assert forall|m: int| 0 <= m < k - i implies is_digit(#[trigger] d.subrange(0, k - i)[m]) by {
                if m < k - i - 1 {
                    assert(d.subrange(0, k - i)[m] == pre[m]);
                }
            }
        }
    }
    assert(d.subrange(0, j - i) =~= d);
    Some(acc)
}

/// `b[i..j].parse::<u64>()`.
pub fn parse_u64(b: &[u8], i: usize, j: usize) -> (r: Option<u64>)
    requires
        i <= j <= b@.len(),
    ensures
        r == spec_parse_u64(b@.subrange(i as int, j as int)),
{
    let ghost t = b@.subrange(i as int, j as int);
    if i == j {
        return None;
    }
    assert(t[0] == b@[i as int]);
    if j - i == 1 && (b[i] == 0x2b || b[i] == 0x2d) {
        return None;
    }
    let start = if b[i] == 0x2b { i + 1 } else { i };
    assert(b@.subrange(start as int, j as int) =~= (if b@[i as int] == 0x2b { t.drop_first() } else { t }));
    digits_u64(b, start, j)
}

/// `b[i..j].parse::<i64>()`.
pub fn parse_i64(b: &[u8], i: usize, j: usize) -> (r: Option<i64>)
    requires
        i <= j <= b@.len(),
    ensures
        r == spec_parse_i64(b@.subrange(i as int, j as int)),
{
    let ghost t = b@.subrange(i as int, j as int);
    if i == j {
        return None;
    }
    assert(t[0] == b@[i as int]);
    if j - i == 1 && (b[i] == 0x2b || b[i] == 0x2d) {
        return None;
    }
    let neg = b[i] == 0x2d;
    let start = if b[i] == 0x2b || neg { i + 1 } else { i };
    assert(b@.subrange(start as int, j as int) =~= (if b@[i as int] == 0x2b || b@[i as int] == 0x2d { t.drop_first() } else { t }));
    match digits_u64(b, start, j) {
        None => None,
        Some(m) => {
            if neg {
                if m <= 0x8000_0000_0000_0000u64 {
                    if m == 0x8000_0000_0000_0000u64 {
                        Some(i64::MIN)
                    } else {
                        Some(-(m as i64))
                    }
                } else {
                    None
                }
            } else {
                if m <= 0x7fff_ffff_ffff_ffffu64 {
                    Some(m as i64)
                } else {
                    None
                }
            }
        },
    }
}

proof fn lemma_digit_run_bounds(s: Seq<u8>, i: int)
    requires
        0 <= i <= s.len(),
    ensures
        i <= digit_run(s, i) <= s.len(),
        digit_run(s, i) < s.len() ==> !is_digit(s[digit_run(s, i)]),
    decreases s.len() - i,
{
    if i < s.len() && is_digit(s[i]) {
        lemma_digit_run_bounds(s, i + 1);
    }
}

fn exec_digit_run(b: &[u8], i: usize) -> (r: usize)
    requires
        i <= b@.len(),
    ensures
        r == digit_run(b@, i as int),
        i <= r <= b@.len(),
{
    proof { lemma_digit_run_bounds(b@, i as int); }
    let mut k = i;
    while k < b.len() && 0x30 <= b[k] && b[k] <= 0x39
        invariant
            i <= k <= b@.len(),
            digit_run(b@, i as int) == digit_run(b@, k as int),
        decreases b@.len() - k,
    {
        k = k + 1;
    }
    k
}

fn exec_exponent_tail(b: &[u8], k: usize) -> (r: bool)
    requires
        k <= b@.len(),
    ensures
        r == exponent_tail(b@, k as int),
{
    let k2 = if k < b.len() && (b[k] == 0x2b || b[k] == 0x2d) { k + 1 } else { k };
    let e = exec_digit_run(b, k2);
    e > k2 && e == b.len()
}

fn exec_decimal_syntax(b: &[u8]) -> (r: bool)
    ensures
        r == decimal_syntax(b@),
{
    let i = exec_digit_run(b, 0);
    let has_point = i < b.len() && b[i] == 0x2e;
    let r = if has_point { exec_digit_run(b, i + 1) } else { i };
    let mantissa = if has_point { i > 0 || r > i + 1 } else { i > 0 };
    if !mantissa {
        return false;
    }
    if r == b.len() {
        return true;
    }
    (b[r] == 0x65 || b[r] == 0x45) && exec_exponent_tail(b, r + 1)
}

/// Whether `b[i..j]` is a floating-point literal that `f64::from_str` accepts.
pub fn is_float_syntax(b: &[u8], i: usize, j: usize) -> (r: bool)
    requires
        i <= j <= b@.len(),
    ensures
        r == float_syntax(b@.subrange(i as int, j as int)),
{
    let ghost t = b@.subrange(i as int, j as int);
    let start = if i < j && (b[i] == 0x2b || b[i] == 0x2d) { i + 1 } else { i };
    assert(b@.subrange(start as int, j as int) =~= (if t.len() > 0 && is_sign(t[0]) { t.drop_first() } else { t }));
    if start == j {
        return false;
    }
    let inf: [u8; 3] = [0x69, 0x6e, 0x66];
    let infinity: [u8; 8] = [0x69, 0x6e, 0x66, 0x69, 0x6e, 0x69, 0x74, 0x79];
    let nan: [u8; 3] = [0x6e, 0x61, 0x6e];
    assert(inf@ =~= lit_inf());
    assert(infinity@ =~= lit_infinity());
    assert(nan@ =~= lit_nan());
    if eq_ignore_case_at(b, start, j, inf.as_slice()) || eq_ignore_case_at(b, start, j, infinity.as_slice())
        || eq_ignore_case_at(b, start, j, nan.as_slice()) {
        return true;
    }
    let body = &b[start..j];
    exec_decimal_syntax(body)
}

proof fn lemma_digit_run_span(s: Seq<u8>, i: int, j: int)
    requires
        0 <= i <= j <= s.len(),
        forall|k: int| i <= k < j ==> is_digit(#[trigger] s[k]),
        j == s.len() || !is_digit(s[j]),
    ensures
        digit_run(s, i) == j,
    decreases j - i,
{
    if i < j {
        lemma_digit_run_span(s, i + 1, j);
    }
}

/// The tail of `b` from `k` is an optional sign and then digits.
proof fn lemma_exponent_tail_of(b: Seq<u8>, k: int, es: Seq<u8>, x: Seq<u8>)
    requires
        0 <= k,
        b.len() == k + es.len() + x.len(),
        es == Seq::<u8>::empty() || es == seq![0x2bu8] || es == seq![0x2du8],
        x.len() > 0,
        forall|j: int| 0 <= j < es.len() ==> b[k + j] == #[trigger] es[j],
        forall|j: int| 0 <= j < x.len() ==> b[k + es.len() + j] == #[trigger] x[j],
        forall|j: int| 0 <= j < x.len() ==> 0x30 <= #[trigger] x[j] <= 0x39,
    ensures
        exponent_tail(b, k),
{
    let k2 = k + es.len();
    if es.len() > 0 {
        assert(b[k] == es[0]);
    } else {
        assert(b[k] == x[0]);
    }
    assert forall|j: int| k2 <= j < b.len() implies is_digit(#[trigger] b[j]) by {
        assert(b[j] == x[j - k2]);
    }
    lemma_digit_run_span(b, k2, b.len() as int);
}

/// The decimal part of a literal: digits, an optional fraction, an optional
/// exponent.
#[verifier::rlimit(40)]
proof fn lemma_decimal_body(m: Seq<u8>, has_point: bool, f: Seq<u8>, has_exp: bool, e: u8, es: Seq<u8>, x: Seq<u8>)
    requires
        forall|k: int| 0 <= k < m.len() ==> 0x30 <= #[trigger] m[k] <= 0x39,
        forall|k: int| 0 <= k < f.len() ==> 0x30 <= #[trigger] f[k] <= 0x39,
        forall|k: int| 0 <= k < x.len() ==> 0x30 <= #[trigger] x[k] <= 0x39,
        m.len() > 0 || (has_point && f.len() > 0),
        e == 0x65 || e == 0x45,
        es == Seq::<u8>::empty() || es == seq![0x2bu8] || es == seq![0x2du8],
        x.len() > 0,
    ensures
        ({
            let body = m + (if has_point { seq![0x2eu8] + f } else { Seq::<u8>::empty() }) + (if has_exp {
                seq![e] + es + x
            } else {
                Seq::<u8>::empty()
            });
            &&& decimal_syntax(body)
            &&& body.len() > 0
            &&& !is_sign(body[0])
        }),
{
    let p = if has_point { seq![0x2eu8] + f } else { Seq::<u8>::empty() };
    let ex = if has_exp { seq![e] + es + x } else { Seq::<u8>::empty() };
    let body = m + p + ex;
    let ml = m.len() as int;
    let r = if has_point { ml + 1 + f.len() } else { ml };
    assert(body.len() == r + ex.len());
    assert forall|k: int| 0 <= k < ml implies is_digit(#[trigger] body[k]) by {
        assert(body[k] == m[k]);
    }
    if has_point {
        assert(body[ml] == 0x2e);
    } else if has_exp {
        assert(body[ml] == e);
    }
    lemma_digit_run_span(body, 0, ml);
    if has_point {
        assert forall|k: int| ml + 1 <= k < r implies is_digit(#[trigger] body[k]) by {
            assert(body[k] == f[k - ml - 1]);
        }
        if has_exp {
            assert(body[r] == e);
        }
        lemma_digit_run_span(body, ml + 1, r);
    }
    if has_exp {
        assert(body[r] == e);
        assert forall|j: int| 0 <= j < es.len() implies body[r + 1 + j] == #[trigger] es[j] by {}
        assert forall|j: int| 0 <= j < x.len() implies body[r + 1 + es.len() + j] == #[trigger] x[j] by {}
        lemma_exponent_tail_of(body, r + 1, es, x);
    }
    if ml > 0 {
        assert(body[0] == m[0]);
    } else {
        assert(body[0] == 0x2e);
    }
}

/// `f64::from_str`'s decimal literals are float syntax: an optional sign,
/// digits with an optional fraction (or a fraction alone), then an optional
/// exponent `e`/`E` with an optional sign of either kind and digits, as in
/// `4.2e-05`, `-1E+3`, `.5` or `7`.
pub proof fn law_decimal_literals_are_floats(
    lead: Seq<u8>,
    m: Seq<u8>,
    has_point: bool,
    f: Seq<u8>,
    has_exp: bool,
    e: u8,
    es: Seq<u8>,
    x: Seq<u8>,
)
    requires
        lead == Seq::<u8>::empty() || lead == seq![0x2bu8] || lead == seq![0x2du8],
        forall|k: int| 0 <= k < m.len() ==> 0x30 <= #[trigger] m[k] <= 0x39,
        forall|k: int| 0 <= k < f.len() ==> 0x30 <= #[trigger] f[k] <= 0x39,
        forall|k: int| 0 <= k < x.len() ==> 0x30 <= #[trigger] x[k] <= 0x39,
        m.len() > 0 || (has_point && f.len() > 0),
        e == 0x65 || e == 0x45,
        es == Seq::<u8>::empty() || es == seq![0x2bu8] || es == seq![0x2du8],
        x.len() > 0,
    ensures
        float_syntax(
            lead + m + (if has_point { seq![0x2eu8] + f } else { Seq::<u8>::empty() }) + (if has_exp {
                seq![e] + es + x
            } else {
                Seq::<u8>::empty()
            }),
        ),
{
    let p = if has_point { seq![0x2eu8] + f } else { Seq::<u8>::empty() };
    let ex = if has_exp { seq![e] + es + x } else { Seq::<u8>::empty() };
    let body = m + p + ex;
    lemma_decimal_body(m, has_point, f, has_exp, e, es, x);
    let t = lead + m + p + ex;
    assert(t =~= lead + body);
    lemma_signed_decimal(lead, body);
}

/// An optional sign before a decimal body is float syntax.
proof fn lemma_signed_decimal(lead: Seq<u8>, body: Seq<u8>)
    requires
        lead == Seq::<u8>::empty() || lead == seq![0x2bu8] || lead == seq![0x2du8],
        body.len() > 0,
        !is_sign(body[0]),
        decimal_syntax(body),
    ensures
        float_syntax(lead + body),
{
    let t = lead + body;
    if lead.len() == 0 {
        assert(t =~= body);
    } else {
        assert(t.drop_first() =~= body);
    }
}

/// `f64::from_str`'s special values are float syntax: an optional sign,
/// then `inf`, `infinity` or `nan` with each letter in either case.
pub proof fn law_special_values_are_floats(lead: Seq<u8>, lit: Seq<u8>, w: Seq<u8>)
    requires
        lead == Seq::<u8>::empty() || lead == seq![0x2bu8] || lead == seq![0x2du8],
        lit == seq![0x69u8, 0x6e, 0x66] || lit == seq![0x69u8, 0x6e, 0x66, 0x69, 0x6e, 0x69, 0x74, 0x79]
            || lit == seq![0x6eu8, 0x61, 0x6e],
        w.len() == lit.len(),
        forall|k: int| 0 <= k < w.len() ==> #[trigger] w[k] == lit[k] || w[k] == lit[k] - 32,
    ensures
        float_syntax(lead + w),
{
    assert forall|k: int| 0 <= k < w.len() implies #[trigger] ascii_lower(w[k]) == ascii_lower(lit[k]) by {
        assert(w[k] == lit[k] || w[k] == lit[k] - 32);
        assert(0x61 <= lit[k] <= 0x7a);
    }
    assert(eq_ignore_case(w, lit));
    assert(lit_inf() =~= seq![0x69u8, 0x6e, 0x66]);
    assert(lit_infinity() =~= seq![0x69u8, 0x6e, 0x66, 0x69, 0x6e, 0x69, 0x74, 0x79]);
    assert(lit_nan() =~= seq![0x6eu8, 0x61, 0x6e]);
    assert(w[0] == lit[0] || w[0] == lit[0] - 32);
    let t = lead + w;
    if lead.len() == 0 {
        assert(t =~= w);
    } else {
        assert(t.drop_first() =~= w);
    }
}

} // verus!
