//! Sample lines: `name{labels} value [timestamp] [# {labels} value [ts]]`,
//! in either the `name{…}` or the `{"name", …}` form.

use vstd::prelude::*;
use vstd::string::*;
use vstd::utf8::*;

use std::borrow::Cow;

use super::lex::{
    at_boundary, bare_token, cow_bytes, lemma_after_ascii, metric_name, plain, quoted_string,
    skip_spaces, skip_spaces_at, spec_bare, spec_metric_name, spec_quoted, Stop,
};
use super::number::{is_float_syntax, is_number, parse_i64, parse_u64, spec_parse_i64, spec_parse_u64};
use crate::borrowed::{exemplar_kept, kept, labels_kept, opt_kept, Exemplar, LabelPair};
use crate::model::{SpecExemplar, SpecFloat, SpecLabel, SpecTs};
use crate::owned::{FloatValue, TimeUnit, TimestampValue};

verus! {

// ---------------------------------------------------------------------------
// Numeric tokens
// ---------------------------------------------------------------------------

/// A whitespace-delimited token that reads as a number.
pub open spec fn spec_number_token(l: Seq<u8>, i: int) -> Option<(Seq<u8>, int)> {
    match spec_bare(l, i, Stop::SpaceOrEol) {
        Some((t, j)) => if is_number(t) { Some((t, j)) } else { None },
        None => None,
    }
}

/// A numeric token, retaining whether it was written as an integer.
#[derive(Debug, Clone, Copy)]
pub struct NumberToken<'a> {
    pub text: &'a str,
    pub int_value: Option<i64>,
    pub uint_value: Option<u64>,
}

impl<'a> NumberToken<'a> {
    pub open spec fn bytes(&self) -> Seq<u8> {
        self.text.spec_bytes()
    }

    /// The integer readings are those of the text.
    pub open spec fn wf(&self) -> bool {
        &&& self.int_value == spec_parse_i64(self.bytes())
        &&& self.uint_value == spec_parse_u64(self.bytes())
        &&& is_number(self.bytes())
    }

    /// Whether the token was written as a plain integer (no decimal point or
    /// exponent).
    pub fn is_integer(&self) -> (r: bool)
        ensures
            r == (self.int_value is Some || self.uint_value is Some),
    {
        self.int_value.is_some() || self.uint_value.is_some()
    }
}

pub open spec fn opt_token_bytes(t: Option<NumberToken<'_>>) -> Option<Seq<u8>> {
    match t {
        Some(t) => Some(t.bytes()),
        None => None,
    }
}

pub open spec fn opt_token_wf(t: Option<NumberToken<'_>>) -> bool {
    match t {
        Some(t) => t.wf(),
        None => true,
    }
}

/// Parse one whitespace-delimited numeric token at `i`. Fails on a
/// non-numeric token so callers can backtrack.
pub fn number_token<'a>(text: &'a str, b: &[u8], i: usize) -> (r: Option<(NumberToken<'a>, usize)>)
    requires
        b@ == text.spec_bytes(),
        i <= b@.len(),
        at_boundary(b@, i as int),
    ensures
        match (r, spec_number_token(b@, i as int)) {
            (Some((t, n)), Some((st, sn))) => t.bytes() == st && t.wf() && n == sn && i < n
                <= b@.len() && at_boundary(b@, n as int),
            (None, None) => true,
            _ => false,
        },
{
    match bare_token(text, b, i, Stop::SpaceOrEol) {
        Some((tok, j)) => {
            let int_value = parse_i64(b, i, j);
            let uint_value = parse_u64(b, i, j);
            if int_value.is_some() || uint_value.is_some() || is_float_syntax(b, i, j) {
                Some((NumberToken { text: tok, int_value, uint_value }, j))
            } else {
                None
            }
        },
        None => None,
    }
}

/// The value of a token as a float: the `f64` its text parses to.
pub open spec fn token_float(t: Seq<u8>) -> SpecFloat {
    SpecFloat::Decimal(t)
}

/// A timestamp token read as seconds.
pub open spec fn seconds_ts(t: Seq<u8>) -> SpecTs {
    SpecTs::Decimal(t, TimeUnit::Seconds)
}

/// A token as a float: the `f64` its text parses to.
pub fn float_from(t: &NumberToken) -> (r: FloatValue)
    ensures
        r.deep_view() == token_float(t.bytes()),
{
    FloatValue::Decimal(t.text.to_owned())
}

pub fn seconds_from(t: &NumberToken) -> (r: TimestampValue)
    ensures
        r.deep_view() == seconds_ts(t.bytes()),
{
    TimestampValue::Decimal { text: t.text.to_owned(), unit: TimeUnit::Seconds }
}

// ---------------------------------------------------------------------------
// Labels
// ---------------------------------------------------------------------------

/// A label name: quoted, or bare up to a blank, line end, `=`, `,`, a brace
/// or a quote.
pub open spec fn spec_label_name(l: Seq<u8>, a: int) -> Option<(Seq<u8>, int)> {
    match spec_quoted(l, a) {
        Some(r) => Some(r),
        None => spec_bare(l, a, Stop::LabelNameEnd),
    }
}

/// `name = "value"`.
pub open spec fn spec_label(l: Seq<u8>, a: int) -> Option<(SpecLabel, int)> {
    match spec_label_name(l, a) {
        Some((n, b)) => {
            let c = skip_spaces(l, b);
            if 0 <= c < l.len() && l[c] == 0x3d {
                let d = skip_spaces(l, c + 1);
                match spec_quoted(l, d) {
                    Some((v, e)) => Some((SpecLabel { name: n, value: v }, e)),
                    None => None,
                }
            } else {
                None
            }
        },
        None => None,
    }
}

/// One label of a list, with its surrounding blanks and optional comma.
pub open spec fn spec_label_item(l: Seq<u8>, i: int) -> Option<(SpecLabel, int)> {
    match spec_label(l, skip_spaces(l, i)) {
        Some((lab, b)) => {
            let c = skip_spaces(l, b);
            Some((lab, if 0 <= c < l.len() && l[c] == 0x2c { c + 1 } else { c }))
        },
        None => None,
    }
}

/// Zero or more labels, tolerating blanks and a trailing comma.
pub open spec fn spec_label_list(l: Seq<u8>, i: int) -> (Seq<SpecLabel>, int)
    decreases l.len() - i,
{
    match spec_label_item(l, i) {
        Some((lab, d)) => if i < d <= l.len() {
            let (rest, e) = spec_label_list(l, d);
            (seq![lab] + rest, e)
        } else {
            (Seq::empty(), i)
        },
        None => (Seq::empty(), i),
    }
}

/// `{ labels }`.
pub open spec fn spec_labels_group(l: Seq<u8>, i: int) -> Option<(Seq<SpecLabel>, int)> {
    if 0 <= i < l.len() && l[i] == 0x7b {
        let (ls, j) = spec_label_list(l, i + 1);
        let k = skip_spaces(l, j);
        if 0 <= k < l.len() && l[k] == 0x7d {
            Some((ls, k + 1))
        } else {
            None
        }
    } else {
        None
    }
}

pub fn label_name<'a>(text: &'a str, b: &[u8], a: usize) -> (r: Option<(Cow<'a, str>, usize)>)
    requires
        b@ == text.spec_bytes(),
        a <= b@.len(),
        at_boundary(b@, a as int),
    ensures
        match (r, spec_label_name(b@, a as int)) {
            (Some((v, n)), Some((sv, sn))) => cow_bytes(v) == sv && n == sn && a < n <= b@.len()
                && at_boundary(b@, n as int),
            (None, None) => true,
            _ => false,
        },
        r is Some ==> kept(r->Some_0.0, b@),
{
    match quoted_string(text, b, a) {
        Some(r) => Some(r),
        None => match bare_token(text, b, a, Stop::LabelNameEnd) {
            Some((v, n)) => Some((Cow::Borrowed(v), n)),
            None => None,
        },
    }
}

pub fn label<'a>(text: &'a str, b: &[u8], a: usize) -> (r: Option<(LabelPair<'a>, usize)>)
    requires
        b@ == text.spec_bytes(),
        a <= b@.len(),
        at_boundary(b@, a as int),
    ensures
        match (r, spec_label(b@, a as int)) {
            (Some((v, n)), Some((sv, sn))) => v.deep_view() == sv && n == sn && a < n <= b@.len()
                && at_boundary(b@, n as int),
            (None, None) => true,
            _ => false,
        },
        r is Some ==> kept(r->Some_0.0.name, b@) && kept(r->Some_0.0.value, b@),
{
    proof { encode_utf8_valid_utf8(text@); }
    let (name, nb) = match label_name(text, b, a) {
        Some(r) => r,
        None => return None,
    };
    let c = skip_spaces_at(text, b, nb);
    if c >= b.len() || b[c] != 0x3d {
        return None;
    }
    proof { lemma_after_ascii(b@, c as int); }
    let d = skip_spaces_at(text, b, c + 1);
    match quoted_string(text, b, d) {
        Some((value, e)) => Some((LabelPair { name, value }, e)),
        None => None,
    }
}

fn label_item<'a>(text: &'a str, b: &[u8], i: usize) -> (r: Option<(LabelPair<'a>, usize)>)
    requires
        b@ == text.spec_bytes(),
        i <= b@.len(),
        at_boundary(b@, i as int),
    ensures
        match (r, spec_label_item(b@, i as int)) {
            (Some((v, n)), Some((sv, sn))) => v.deep_view() == sv && n == sn && i < n <= b@.len()
                && at_boundary(b@, n as int),
            (None, None) => true,
            _ => false,
        },
        r is Some ==> kept(r->Some_0.0.name, b@) && kept(r->Some_0.0.value, b@),
{
    proof { encode_utf8_valid_utf8(text@); }
    let a = skip_spaces_at(text, b, i);
    match label(text, b, a) {
        Some((lab, e)) => {
            let c = skip_spaces_at(text, b, e);
            if c < b.len() && b[c] == 0x2c {
                proof { lemma_after_ascii(b@, c as int); }
                Some((lab, c + 1))
            } else {
                Some((lab, c))
            }
        },
        None => None,
    }
}

/// Zero or more comma-separated labels from `i`.
pub fn label_list<'a>(text: &'a str, b: &[u8], i: usize) -> (r: (Vec<LabelPair<'a>>, usize))
    requires
        b@ == text.spec_bytes(),
        i <= b@.len(),
        at_boundary(b@, i as int),
    ensures
        (r.0.deep_view(), r.1 as int) == spec_label_list(b@, i as int),
        i <= r.1 <= b@.len(),
        at_boundary(b@, r.1 as int),
        labels_kept(r.0@, b@),
{
    let mut labels: Vec<LabelPair<'a>> = Vec::new();
    let mut j = i;
    assert(labels.deep_view() + spec_label_list(b@, i as int).0 =~= spec_label_list(b@, i as int).0);
    loop
        invariant
            b@ == text.spec_bytes(),
            i <= j <= b@.len(),
            at_boundary(b@, j as int),
            spec_label_list(b@, i as int) == (
                labels.deep_view() + spec_label_list(b@, j as int).0,
                spec_label_list(b@, j as int).1,
            ),
            labels_kept(labels@, b@),
        decreases b@.len() - j,
    {
        match label_item(text, b, j) {
            Some((lab, d)) => {
                let ghost old_labels = labels.deep_view();
                let ghost lv = lab.deep_view();
                labels.push(lab);
                assert(labels.deep_view() =~= old_labels.push(lv));
                assert(old_labels + (seq![lv] + spec_label_list(b@, d as int).0) =~= labels.deep_view()
                    + spec_label_list(b@, d as int).0);
                j = d;
            },
            None => {
                assert(labels.deep_view() + Seq::<SpecLabel>::empty() =~= labels.deep_view());
                return (labels, j);
            },
        }
    }
}

/// `{ labels }` at `i`.
pub fn labels_group<'a>(text: &'a str, b: &[u8], i: usize) -> (r: Option<(Vec<LabelPair<'a>>, usize)>)
    requires
        b@ == text.spec_bytes(),
        i <= b@.len(),
        at_boundary(b@, i as int),
    ensures
        match (r, spec_labels_group(b@, i as int)) {
            (Some((v, n)), Some((sv, sn))) => v.deep_view() == sv && n == sn && i < n <= b@.len()
                && at_boundary(b@, n as int),
            (None, None) => true,
            _ => false,
        },
        r is Some ==> labels_kept(r->Some_0.0@, b@),
{
    proof { encode_utf8_valid_utf8(text@); }
    if i >= b.len() || b[i] != 0x7b {
        return None;
    }
    proof { lemma_after_ascii(b@, i as int); }
    let (labels, j) = label_list(text, b, i + 1);
    let k = skip_spaces_at(text, b, j);
    if k < b.len() && b[k] == 0x7d {
        proof { lemma_after_ascii(b@, k as int); }
        Some((labels, k + 1))
    } else {
        None
    }
}

// ---------------------------------------------------------------------------
// Names with their labels
// ---------------------------------------------------------------------------

/// A quoted metric name as the first thing inside `{ … }`: told apart from a
/// quoted label name by what follows it (`,` or `}` rather than `=`).
pub open spec fn spec_name_in_braces(l: Seq<u8>, j: int) -> Option<(Seq<u8>, int)> {
    match spec_quoted(l, j) {
        Some((n, r)) => {
            let p = skip_spaces(l, r);
            if 0 <= p < l.len() && (l[p] == 0x2c || l[p] == 0x7d) {
                Some((n, r))
            } else {
                None
            }
        },
        None => None,
    }
}

/// The Prometheus-3.0 form `{"name", labels}` (the name is optional).
pub open spec fn spec_braces_first(l: Seq<u8>, i: int) -> Option<(Option<Seq<u8>>, Seq<SpecLabel>, int)> {
    if 0 <= i < l.len() && l[i] == 0x7b {
        let j = skip_spaces(l, i + 1);
        let (name, k) = match spec_name_in_braces(l, j) {
            Some((n, k)) => (Some(n), k),
            None => (None, j),
        };
        let m = skip_spaces(l, k);
        let k2 = if 0 <= m < l.len() && l[m] == 0x2c { m + 1 } else { k };
        let (ls, p) = spec_label_list(l, k2);
        let q = skip_spaces(l, p);
        if 0 <= q < l.len() && l[q] == 0x7d {
            Some((name, ls, q + 1))
        } else {
            None
        }
    } else {
        None
    }
}

/// The classic form `name` or `name{labels}`.
pub open spec fn spec_name_first(l: Seq<u8>, i: int) -> Option<(Option<Seq<u8>>, Seq<SpecLabel>, int)> {
    match spec_metric_name(l, i) {
        Some((n, j)) => match spec_labels_group(l, j) {
            Some((ls, k)) => Some((Some(n), ls, k)),
            None => Some((Some(n), Seq::empty(), j)),
        },
        None => None,
    }
}

/// The metric name and its label set, in either form.
pub open spec fn spec_metric_and_labels(l: Seq<u8>, i: int) -> Option<(Option<Seq<u8>>, Seq<SpecLabel>, int)> {
    match spec_braces_first(l, i) {
        Some(r) => Some(r),
        None => spec_name_first(l, i),
    }
}

pub open spec fn opt_cow(c: Option<Cow<'_, str>>) -> Option<Seq<u8>> {
    match c {
        Some(c) => Some(cow_bytes(c)),
        None => None,
    }
}

fn name_in_braces<'a>(text: &'a str, b: &[u8], j: usize) -> (r: Option<(Cow<'a, str>, usize)>)
    requires
        b@ == text.spec_bytes(),
        j <= b@.len(),
        at_boundary(b@, j as int),
    ensures
        match (r, spec_name_in_braces(b@, j as int)) {
            (Some((v, n)), Some((sv, sn))) => cow_bytes(v) == sv && n == sn && j < n <= b@.len()
                && at_boundary(b@, n as int),
            (None, None) => true,
            _ => false,
        },
        r is Some ==> kept(r->Some_0.0, b@),
{
    match quoted_string(text, b, j) {
        Some((n, r)) => {
            let p = skip_spaces_at(text, b, r);
            if p < b.len() && (b[p] == 0x2c || b[p] == 0x7d) {
                Some((n, r))
            } else {
                None
            }
        },
        None => None,
    }
}

fn braces_first<'a>(text: &'a str, b: &[u8], i: usize) -> (r: Option<(Option<Cow<'a, str>>, Vec<LabelPair<'a>>, usize)>)
    requires
        b@ == text.spec_bytes(),
        i <= b@.len(),
        at_boundary(b@, i as int),
    ensures
        match (r, spec_braces_first(b@, i as int)) {
            (Some((n, ls, k)), Some((sn, sls, sk))) => opt_cow(n) == sn && ls.deep_view() == sls
                && k == sk && i < k <= b@.len() && at_boundary(b@, k as int),
            (None, None) => true,
            _ => false,
        },
        r is Some ==> opt_kept(r->Some_0.0, b@) && labels_kept(r->Some_0.1@, b@),
{
    proof { encode_utf8_valid_utf8(text@); }
    if i >= b.len() || b[i] != 0x7b {
        return None;
    }
    proof { lemma_after_ascii(b@, i as int); }
    let j = skip_spaces_at(text, b, i + 1);
    let (name, k) = match name_in_braces(text, b, j) {
        Some((n, k)) => (Some(n), k),
        None => (None, j),
    };
    let m = skip_spaces_at(text, b, k);
    let k2 = if m < b.len() && b[m] == 0x2c {
        proof { lemma_after_ascii(b@, m as int); }
        m + 1
    } else {
        k
    };
    let (labels, p) = label_list(text, b, k2);
    let q = skip_spaces_at(text, b, p);
    if q < b.len() && b[q] == 0x7d {
        proof { lemma_after_ascii(b@, q as int); }
        Some((name, labels, q + 1))
    } else {
        None
    }
}

/// Parse the metric name and its label set at `i`, in either form.
pub fn metric_and_labels<'a>(text: &'a str, b: &[u8], i: usize) -> (r: Option<(Option<Cow<'a, str>>, Vec<LabelPair<'a>>, usize)>)
    requires
        b@ == text.spec_bytes(),
        i <= b@.len(),
        at_boundary(b@, i as int),
    ensures
        match (r, spec_metric_and_labels(b@, i as int)) {
            (Some((n, ls, k)), Some((sn, sls, sk))) => opt_cow(n) == sn && ls.deep_view() == sls
                && k == sk && i < k <= b@.len() && at_boundary(b@, k as int),
            (None, None) => true,
            _ => false,
        },
        r is Some ==> opt_kept(r->Some_0.0, b@) && labels_kept(r->Some_0.1@, b@),
{
    match braces_first(text, b, i) {
        Some(r) => Some(r),
        None => match metric_name(text, b, i) {
            Some((n, j)) => match labels_group(text, b, j) {
                Some((ls, k)) => Some((Some(n), ls, k)),
                None => {
                    let ls: Vec<LabelPair<'a>> = Vec::new();
                    assert(ls.deep_view() =~= Seq::<SpecLabel>::empty());
                    Some((Some(n), ls, j))
                },
            },
            None => None,
        },
    }
}

// ---------------------------------------------------------------------------
// Exemplars and sample lines
// ---------------------------------------------------------------------------

/// An optional ` <number>` at `d`: the token and where it ends, or nothing
/// and `d` unchanged.
pub open spec fn spec_opt_token(l: Seq<u8>, d: int) -> (Option<Seq<u8>>, int) {
    let c = skip_spaces(l, d);
    if c > d {
        match spec_number_token(l, c) {
            Some((t, e)) => (Some(t), e),
            None => (None, d),
        }
    } else {
        (None, d)
    }
}

pub open spec fn opt_seconds(t: Option<Seq<u8>>) -> Option<SpecTs> {
    match t {
        Some(t) => Some(seconds_ts(t)),
        None => None,
    }
}

/// The exemplar trailer ` # {labels} value [timestamp]`; its timestamp is
/// always in seconds.
pub open spec fn spec_exemplar(l: Seq<u8>, e: int) -> Option<(SpecExemplar, int)> {
    let a = skip_spaces(l, e);
    if 0 <= a < l.len() && l[a] == 0x23 {
        match spec_labels_group(l, skip_spaces(l, a + 1)) {
            Some((ls, c)) => {
                let d = skip_spaces(l, c);
                if d > c {
                    match spec_number_token(l, d) {
                        Some((v, f)) => {
                            let (ts, g) = spec_opt_token(l, f);
                            Some(
                                (SpecExemplar { label: ls, value: token_float(v), timestamp: opt_seconds(ts) }, g),
                            )
                        },
                        None => None,
                    }
                } else {
                    None
                }
            },
            None => None,
        }
    } else {
        None
    }
}

fn opt_token<'a>(text: &'a str, b: &[u8], d: usize) -> (r: (Option<NumberToken<'a>>, usize))
    requires
        b@ == text.spec_bytes(),
        d <= b@.len(),
        at_boundary(b@, d as int),
    ensures
        (opt_token_bytes(r.0), r.1 as int) == spec_opt_token(b@, d as int),
        opt_token_wf(r.0),
        d <= r.1 <= b@.len(),
        at_boundary(b@, r.1 as int),
{
    let c = skip_spaces_at(text, b, d);
    if c > d {
        match number_token(text, b, c) {
            Some((t, e)) => (Some(t), e),
            None => (None, d),
        }
    } else {
        (None, d)
    }
}

fn opt_seconds_value(t: Option<NumberToken>) -> (r: Option<TimestampValue>)
    ensures
        r.deep_view() == opt_seconds(opt_token_bytes(t)),
{
    match t {
        Some(t) => Some(seconds_from(&t)),
        None => None,
    }
}

/// Parse the exemplar trailer at `e`.
pub fn exemplar<'a>(text: &'a str, b: &[u8], e: usize) -> (r: Option<(Exemplar<'a>, usize)>)
    requires
        b@ == text.spec_bytes(),
        e <= b@.len(),
        at_boundary(b@, e as int),
    ensures
        match (r, spec_exemplar(b@, e as int)) {
            (Some((x, n)), Some((sx, sn))) => x.deep_view() == sx && n == sn && e < n <= b@.len()
                && at_boundary(b@, n as int),
            (None, None) => true,
            _ => false,
        },
        r is Some ==> labels_kept(r->Some_0.0.label@, b@),
{
    proof { encode_utf8_valid_utf8(text@); }
    let a = skip_spaces_at(text, b, e);
    if a >= b.len() || b[a] != 0x23 {
        return None;
    }
    proof { lemma_after_ascii(b@, a as int); }
    let a2 = skip_spaces_at(text, b, a + 1);
    let (labels, c) = match labels_group(text, b, a2) {
        Some(r) => r,
        None => return None,
    };
    let d = skip_spaces_at(text, b, c);
    if d <= c {
        return None;
    }
    let (v, f) = match number_token(text, b, d) {
        Some(r) => r,
        None => return None,
    };
    let (ts, g) = opt_token(text, b, f);
    let value = float_from(&v);
    let timestamp = opt_seconds_value(ts);
    Some((Exemplar { label: labels, value, timestamp }, g))
}

/// One parsed sample line, before it is folded into a metric by type.
pub struct SpecSample {
    pub name: Seq<u8>,
    pub labels: Seq<SpecLabel>,
    pub num: Seq<u8>,
    pub timestamp: Option<Seq<u8>>,
    pub exemplar: Option<SpecExemplar>,
}

/// A sample line: blanks, name and labels, at least one blank, the value,
/// an optional timestamp, an optional exemplar, and trailing blanks. The
/// second component is where parsing stopped; the whole line must be used.
pub open spec fn spec_sample_line(l: Seq<u8>) -> Option<(SpecSample, int)> {
    match spec_metric_and_labels(l, skip_spaces(l, 0)) {
        Some((name, labels, b)) => {
            let c = skip_spaces(l, b);
            if c > b {
                match spec_number_token(l, c) {
                    Some((num, d)) => {
                        let (ts, e) = spec_opt_token(l, d);
                        let (ex, f) = match spec_exemplar(l, e) {
                            Some((x, f)) => (Some(x), f),
                            None => (None, e),
                        };
                        Some(
                            (
                                SpecSample {
                                    name: match name {
                                        Some(n) => n,
                                        None => Seq::empty(),
                                    },
                                    labels,
                                    num,
                                    timestamp: ts,
                                    exemplar: ex,
                                },
                                skip_spaces(l, f),
                            ),
                        )
                    },
                    None => None,
                }
            } else {
                None
            }
        },
        None => None,
    }
}

pub struct Sample<'a> {
    pub name: Cow<'a, str>,
    pub labels: Vec<LabelPair<'a>>,
    pub num: NumberToken<'a>,
    /// The raw trailing timestamp token, if any. Its unit is resolved
    /// against the text dialect when the metric is built.
    pub timestamp: Option<NumberToken<'a>>,
    pub exemplar: Option<Exemplar<'a>>,
}

impl<'a> Sample<'a> {
    pub open spec fn view(&self) -> SpecSample {
        SpecSample {
            name: cow_bytes(self.name),
            labels: self.labels.deep_view(),
            num: self.num.bytes(),
            timestamp: opt_token_bytes(self.timestamp),
            exemplar: self.exemplar.deep_view(),
        }
    }

    pub open spec fn wf(&self) -> bool {
        self.num.wf() && opt_token_wf(self.timestamp)
    }

    /// String by string, the name, labels and exemplar labels are kept from
    /// `src` (see [`kept`]).
    pub open spec fn kept(&self, src: Seq<u8>) -> bool {
        kept(self.name, src) && labels_kept(self.labels@, src) && exemplar_kept(self.exemplar, src)
    }
}

proof fn lemma_empty_str_bytes()
    ensures
        "".spec_bytes() == Seq::<u8>::empty(),
{
    reveal_strlit("");
    assert(""@ =~= Seq::<char>::empty());
}

/// Parse a sample line.
pub fn sample_line<'a>(text: &'a str, b: &[u8]) -> (r: Option<(Sample<'a>, usize)>)
    requires
        b@ == text.spec_bytes(),
    ensures
        match (r, spec_sample_line(b@)) {
            (Some((smp, n)), Some((ss, sn))) => smp.view() == ss && smp.wf() && n == sn,
            (None, None) => true,
            _ => false,
        },
        r is Some ==> r->Some_0.0.kept(b@),
{
    proof {
        encode_utf8_valid_utf8(text@);
        lemma_empty_str_bytes();
    }
    let a = skip_spaces_at(text, b, 0);
    let (name, labels, nb) = match metric_and_labels(text, b, a) {
        Some(r) => r,
        None => return None,
    };
    let c = skip_spaces_at(text, b, nb);
    if c <= nb {
        return None;
    }
    let (num, d) = match number_token(text, b, c) {
        Some(r) => r,
        None => return None,
    };
    let (timestamp, e) = opt_token(text, b, d);
    let (ex, f) = match exemplar(text, b, e) {
        Some((x, f)) => (Some(x), f),
        None => (None, e),
    };
    let g = skip_spaces_at(text, b, f);
    let name = match name {
        Some(n) => n,
        None => Cow::Borrowed(""),
    };
    Some((Sample { name, labels, num, timestamp, exemplar: ex }, g))
}


} // verus!
