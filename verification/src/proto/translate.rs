//! Translation of a decoded protobuf `MetricFamily` into the metric model.
//!
//! A required field that is absent is a `MissingField` error naming it; the
//! first such field, in the order the fields are read, is the one reported.

use vstd::prelude::*;
use vstd::utf8::*;

use std::borrow::Cow;

use super::view::{
    label_views_borrow, metric_views_borrow, bucket_views_borrow, exemplar_view_borrows, exemplar_views_borrow,
    histogram_view_borrows, metric_view_borrows, or_zero, BucketSpanView, BucketView, ExemplarView, FamilyView, HistogramView, LabelPairView, MetricView, ProtoType,
    QuantileView, TimestampView,
};
use crate::borrowed::{
    BucketCount, BucketFloat, BucketInt, Counter, Exemplar, Histogram, LabelPair, Metric, MetricFamily, MetricValue,
    NativeHistogram,
};
use crate::borrowed::{
    borrows, exemplar_borrows, exemplars_borrow, family_borrows, histogram_borrows, labels_borrow, metric_borrows,
    opt_borrows, value_borrows,
};
use crate::drain::reversed;
use crate::error::ParseError;
use crate::model::{
    SpecBucketCount, SpecBucketFloat, SpecBucketInt, SpecCounter, SpecExemplar, SpecFamily, SpecFloat, SpecHistogram,
    SpecLabel, SpecMetric, SpecNativeCounts, SpecNativeHistogram, SpecNumber, SpecQuantile, SpecSummary, SpecTs,
    SpecUnsigned, SpecValue,
};
use crate::owned::{
    BucketSpan, FloatValue, MetricType, NativeCounts, Number, Quantile, Summary, Timestamp, TimestampValue,
    UnsignedNumber,
};

verus! {

// ---------------------------------------------------------------------------
// Timestamps
// ---------------------------------------------------------------------------

pub open spec fn saturate(x: int) -> i64 {
    if x > i64::MAX {
        i64::MAX
    } else if x < i64::MIN {
        i64::MIN
    } else {
        x as i64
    }
}

/// A protobuf timestamp, with its nanoseconds brought into `0..10^9` (the
/// whole seconds they hold are added to the seconds, saturating).
pub open spec fn spec_normalize(seconds: i64, nanos: i32) -> Timestamp {
    if nanos < 0 || nanos >= 1_000_000_000 {
        Timestamp {
            seconds: saturate(seconds + nanos / 1_000_000_000),
            nanos: (nanos % 1_000_000_000) as i32,
        }
    } else {
        Timestamp { seconds, nanos }
    }
}

pub open spec fn spec_ts(t: TimestampView) -> Option<SpecTs> {
    if t.is_set {
        Some(SpecTs::Exact(spec_normalize(t.seconds, t.nanos)))
    } else {
        None
    }
}

pub fn normalize_ts(seconds: i64, nanos: i32) -> (r: Timestamp)
    ensures
        r == spec_normalize(seconds, nanos),
{
    if nanos >= 0 && nanos < 1_000_000_000 {
        return Timestamp { seconds, nanos };
    }
    let (extra, n) = if nanos < 0 {
        let a = (-(nanos as i64 + 1)) as u64;
        let q = a / 1_000_000_000;
        let m = a % 1_000_000_000;
        proof {
            assert(nanos == (-(q as int) - 1) * 1_000_000_000 + (999_999_999 - m as int));
        }
        (-(q as i64) - 1, (999_999_999 - m) as i64)
    } else {
        let a = nanos as u64;
        (((a / 1_000_000_000) as i64), ((a % 1_000_000_000) as i64))
    };
    proof {
        vstd::arithmetic::div_mod::lemma_fundamental_div_mod_converse(nanos as int, 1_000_000_000, extra as int, n as int);
    }
    let s = if extra > 0 && seconds > i64::MAX - extra {
        i64::MAX
    } else if extra < 0 && seconds < i64::MIN - extra {
        i64::MIN
    } else {
        seconds + extra
    };
    Timestamp { seconds: s, nanos: n as i32 }
}

fn translate_ts(t: TimestampView) -> (r: Option<TimestampValue>)
    ensures
        r.deep_view() == spec_ts(t),
{
    if t.is_set {
        Some(TimestampValue::Exact(normalize_ts(t.seconds, t.nanos)))
    } else {
        None
    }
}

/// A millisecond timestamp as whole seconds (rounded down) and nanoseconds.
pub open spec fn spec_ms_ts(ms: i64) -> Timestamp {
    Timestamp { seconds: (ms / 1000) as i64, nanos: ((ms % 1000) * 1_000_000) as i32 }
}

pub open spec fn spec_opt_ms(ms: Option<i64>) -> Option<SpecTs> {
    match ms {
        Some(m) => Some(SpecTs::Exact(spec_ms_ts(m))),
        None => None,
    }
}

pub fn ms_ts(ms: i64) -> (r: Timestamp)
    ensures
        r == spec_ms_ts(ms),
{
    if ms >= 0 {
        let u = ms as u64;
        let q = u / 1000;
        let m = u % 1000;
        proof {
            vstd::arithmetic::div_mod::lemma_fundamental_div_mod_converse(ms as int, 1000, q as int, m as int);
        }
        Timestamp { seconds: q as i64, nanos: (m * 1_000_000) as i32 }
    } else {
        let a = (-(ms + 1)) as u64;
        let q = a / 1000;
        let m = a % 1000;
        proof {
            assert(ms == (-(q as int) - 1) * 1000 + (999 - m as int));
            vstd::arithmetic::div_mod::lemma_fundamental_div_mod_converse(
                ms as int,
                1000,
                -(q as int) - 1,
                999 - m as int,
            );
        }
        Timestamp { seconds: -(q as i64) - 1, nanos: ((999 - m) * 1_000_000) as i32 }
    }
}

// ---------------------------------------------------------------------------
// Labels and exemplars
// ---------------------------------------------------------------------------

pub open spec fn missing(what: &str) -> Seq<char> {
    what@
}

/// Translate every item in order; the first error is the result.
pub open spec fn translate_all<A, B>(s: Seq<A>, f: spec_fn(A) -> Result<B, Seq<char>>) -> Result<Seq<B>, Seq<char>>
    decreases s.len(),
{
    if s.len() == 0 {
        Ok(Seq::empty())
    } else {
        match translate_all(s.drop_last(), f) {
            Err(e) => Err(e),
            Ok(p) => match f(s.last()) {
                Err(e) => Err(e),
                Ok(x) => Ok(p.push(x)),
            },
        }
    }
}

/// Translating element by element translates each element.
pub proof fn lemma_translate_all_elems<A, B>(s: Seq<A>, f: spec_fn(A) -> Result<B, Seq<char>>)
    ensures
        translate_all(s, f) matches Ok(t) ==> forall|i: int| 0 <= i < s.len() ==> f(s[i]) == Ok::<B, Seq<char>>(#[trigger] t[i]),
    decreases s.len(),
{
    if s.len() > 0 {
        lemma_translate_all_elems(s.drop_last(), f);
        lemma_translate_all_len(s.drop_last(), f);
        if let Ok(t) = translate_all(s, f) {
            let p = translate_all(s.drop_last(), f)->Ok_0;
            assert forall|i: int| 0 <= i < s.len() implies f(s[i]) == Ok::<B, Seq<char>>(#[trigger] t[i]) by {
                if i < s.len() - 1 {
                    assert(s[i] == s.drop_last()[i]);
                    assert(t[i] == p[i]);
                }
            }
        }
    }
}

/// Translating element by element keeps the length.
pub proof fn lemma_translate_all_len<A, B>(s: Seq<A>, f: spec_fn(A) -> Result<B, Seq<char>>)
    ensures
        translate_all(s, f) matches Ok(t) ==> t.len() == s.len(),
    decreases s.len(),
{
    if s.len() > 0 {
        lemma_translate_all_len(s.drop_last(), f);
    }
}

pub proof fn lemma_translate_all_err<A, B>(s: Seq<A>, f: spec_fn(A) -> Result<B, Seq<char>>, i: int)
    requires
        0 <= i < s.len(),
        translate_all(s.take(i + 1), f) is Err,
    ensures
        translate_all(s, f) == translate_all(s.take(i + 1), f),
    decreases s.len() - i,
{
    if i + 1 < s.len() {
        assert(s.take(i + 2).drop_last() =~= s.take(i + 1));
        lemma_translate_all_err(s, f, i + 1);
    } else {
        assert(s.take(i + 1) =~= s);
    }
}

pub open spec fn opt_text(s: Option<Cow<'_, str>>) -> Seq<u8> {
    match s {
        Some(v) => encode_utf8(v@),
        None => Seq::empty(),
    }
}

pub open spec fn spec_label(l: LabelPairView<'_>) -> Result<SpecLabel, Seq<char>> {
    match l.name {
        None => Err("LabelPair: name"@),
        Some(n) => Ok(SpecLabel { name: encode_utf8(n@), value: opt_text(l.value) }),
    }
}

pub open spec fn label_fn<'a>() -> spec_fn(LabelPairView<'a>) -> Result<SpecLabel, Seq<char>> {
    |l: LabelPairView<'a>| spec_label(l)
}

pub open spec fn spec_labels(ls: Seq<LabelPairView<'_>>) -> Result<Seq<SpecLabel>, Seq<char>> {
    translate_all(ls, label_fn())
}

fn missing_field(what: &str) -> (r: ParseError)
    ensures
        r matches ParseError::MissingField(m) && m@ == what@,
{
    ParseError::MissingField(what.to_string())
}

pub open spec fn err_is(r: ParseError, e: Seq<char>) -> bool {
    r matches ParseError::MissingField(m) && m@ == e
}

fn translate_label<'a>(l: LabelPairView<'a>) -> (r: Result<LabelPair<'a>, ParseError>)
    ensures
        match (r, spec_label(l)) {
            (Ok(a), Ok(b)) => a.deep_view() == b,
            (Err(a), Err(b)) => err_is(a, b),
            _ => false,
        },
        opt_borrows(l.name) && opt_borrows(l.value) && r is Ok ==> borrows(r->Ok_0.name) && borrows(r->Ok_0.value),
{
    let LabelPairView { name, value } = l;
    match name {
        None => Err(missing_field("LabelPair: name")),
        Some(n) => {
            proof { reveal_strlit(""); }
            let v = match value {
                Some(v) => v,
                None => Cow::Borrowed(""),
            };
            assert(encode_utf8(v@) == opt_text(value)) by {
                if value is None {
                    assert(v@ =~= Seq::<char>::empty());
                }
            }
            Ok(LabelPair { name: n, value: v })
        },
    }
}

fn translate_labels<'a>(ls: Vec<LabelPairView<'a>>) -> (r: Result<Vec<LabelPair<'a>>, ParseError>)
    ensures
        match (r, spec_labels(ls@)) {
            (Ok(a), Ok(b)) => a.deep_view() == b,
            (Err(a), Err(b)) => err_is(a, b),
            _ => false,
        },
        label_views_borrow(ls@) && r is Ok ==> labels_borrow(r->Ok_0@),
{
    let ghost orig = ls@;
    let ghost f = label_fn();
    let n = ls.len();
    let mut rest = reversed(ls);
    let mut out: Vec<LabelPair<'a>> = Vec::new();
    assert(orig.take(0) =~= Seq::<LabelPairView>::empty());
    assert(out.deep_view() =~= Seq::<SpecLabel>::empty());
    while rest.len() > 0
        invariant
            n == orig.len(),
            out@.len() + rest@.len() == n,
            forall|j: int| 0 <= j < rest@.len() ==> #[trigger] rest@[j] == orig[n - 1 - j],
            f == label_fn(),
            orig == ls@,
            label_views_borrow(orig) ==> labels_borrow(out@),
            translate_all(orig.take(out@.len() as int), f) == Ok::<Seq<SpecLabel>, Seq<char>>(out.deep_view()),
        decreases rest@.len(),
    {
        let ghost k = out@.len() as int;
        let l = rest.pop().unwrap();
        assert(l == orig[k]);
        assert(orig.take(k + 1).drop_last() =~= orig.take(k));
        assert(orig.take(k + 1).last() == orig[k]);
        match translate_label(l) {
            Ok(x) => {
                let ghost before = out.deep_view();
                out.push(x);
                assert(out.deep_view() =~= before.push(x.deep_view()));
            },
            Err(e) => {
                proof {
                    lemma_translate_all_err(orig, f, k);
                    assert(translate_all(orig.take(k + 1), f) matches Err(x) && spec_label(orig[k]) == Err::<SpecLabel, Seq<char>>(x));

                }
                return Err(e);
            },
        }
    }
    assert(orig.take(n as int) =~= orig);
    Ok(out)
}

pub open spec fn spec_exemplar_inner(e: ExemplarView<'_>) -> Result<SpecExemplar, Seq<char>> {
    match e.value {
        None => Err("Exemplar: value"@),
        Some(v) => match spec_labels(e.label@) {
            Err(x) => Err(x),
            Ok(ls) => Ok(SpecExemplar { label: ls, value: SpecFloat::Bits(v), timestamp: spec_ts(e.timestamp) }),
        },
    }
}

pub open spec fn spec_exemplar(e: ExemplarView<'_>) -> Result<Option<SpecExemplar>, Seq<char>> {
    if !e.is_set {
        Ok(None)
    } else {
        match spec_exemplar_inner(e) {
            Ok(x) => Ok(Some(x)),
            Err(x) => Err(x),
        }
    }
}

fn translate_exemplar_inner<'a>(e: ExemplarView<'a>) -> (r: Result<Exemplar<'a>, ParseError>)
    ensures
        match (r, spec_exemplar_inner(e)) {
            (Ok(a), Ok(b)) => a.deep_view() == b,
            (Err(a), Err(b)) => err_is(a, b),
            _ => false,
        },
        label_views_borrow(e.label@) && r is Ok ==> labels_borrow(r->Ok_0.label@),
{
    let ExemplarView { is_set, label, value, timestamp } = e;
    let v = match value {
        Some(v) => v,
        None => return Err(missing_field("Exemplar: value")),
    };
    let ts = translate_ts(timestamp);
    let ls = translate_labels(label)?;
    Ok(Exemplar { label: ls, value: FloatValue::Bits(v), timestamp: ts })
}

fn translate_exemplar<'a>(e: ExemplarView<'a>) -> (r: Result<Option<Exemplar<'a>>, ParseError>)
    ensures
        match (r, spec_exemplar(e)) {
            (Ok(a), Ok(b)) => a.deep_view() == b,
            (Err(a), Err(b)) => err_is(a, b),
            _ => false,
        },
        exemplar_view_borrows(e) && r is Ok ==> exemplar_borrows(r->Ok_0),
{
    if !e.is_set {
        return Ok(None);
    }
    match translate_exemplar_inner(e) {
        Ok(x) => Ok(Some(x)),
        Err(x) => Err(x),
    }
}

pub open spec fn exemplar_inner_fn<'a>() -> spec_fn(ExemplarView<'a>) -> Result<SpecExemplar, Seq<char>> {
    |e: ExemplarView<'a>| spec_exemplar_inner(e)
}

fn translate_exemplars<'a>(es: Vec<ExemplarView<'a>>) -> (r: Result<Vec<Exemplar<'a>>, ParseError>)
    ensures
        match (r, translate_all(es@, exemplar_inner_fn())) {
            (Ok(a), Ok(b)) => a.deep_view() == b,
            (Err(a), Err(b)) => err_is(a, b),
            _ => false,
        },
        exemplar_views_borrow(es@) && r is Ok ==> exemplars_borrow(r->Ok_0@),
{
    let ghost orig = es@;
    let ghost f = exemplar_inner_fn();
    let n = es.len();
    let mut rest = reversed(es);
    let mut out: Vec<Exemplar<'a>> = Vec::new();
    assert(orig.take(0) =~= Seq::<ExemplarView>::empty());
    assert(out.deep_view() =~= Seq::<SpecExemplar>::empty());
    while rest.len() > 0
        invariant
            n == orig.len(),
            out@.len() + rest@.len() == n,
            forall|j: int| 0 <= j < rest@.len() ==> #[trigger] rest@[j] == orig[n - 1 - j],
            f == exemplar_inner_fn(),
            orig == es@,
            exemplar_views_borrow(orig) ==> exemplars_borrow(out@),
            translate_all(orig.take(out@.len() as int), f) == Ok::<Seq<SpecExemplar>, Seq<char>>(out.deep_view()),
        decreases rest@.len(),
    {
        let ghost k = out@.len() as int;
        let x = rest.pop().unwrap();
        assert(x == orig[k]);
        assert(orig.take(k + 1).drop_last() =~= orig.take(k));
        assert(orig.take(k + 1).last() == orig[k]);
        match translate_exemplar_inner(x) {
            Ok(y) => {
                let ghost before = out.deep_view();
                out.push(y);
                assert(out.deep_view() =~= before.push(y.deep_view()));
            },
            Err(e) => {
                proof {
                    lemma_translate_all_err(orig, f, k);
                    assert(translate_all(orig.take(k + 1), f) matches Err(z) && spec_exemplar_inner(orig[k]) == Err::<SpecExemplar, Seq<char>>(z));
                }
                return Err(e);
            },
        }
    }
    assert(orig.take(n as int) =~= orig);
    Ok(out)
}

// ---------------------------------------------------------------------------
// Histograms
// ---------------------------------------------------------------------------


pub open spec fn opt_bits(o: Option<u64>) -> Option<SpecFloat> {
    match o {
        Some(b) => Some(SpecFloat::Bits(b)),
        None => None,
    }
}

pub open spec fn opt_float_number(o: Option<u64>) -> Option<SpecNumber> {
    match o {
        Some(b) => Some(SpecNumber::Float(SpecFloat::Bits(b))),
        None => None,
    }
}

fn exec_opt_bits(o: Option<u64>) -> (r: Option<FloatValue>)
    ensures
        r.deep_view() == opt_bits(o),
{
    match o {
        Some(b) => Some(FloatValue::Bits(b)),
        None => None,
    }
}

fn exec_opt_float_number(o: Option<u64>) -> (r: Option<Number>)
    ensures
        r.deep_view() == opt_float_number(o),
{
    match o {
        Some(b) => Some(Number::Float(FloatValue::Bits(b))),
        None => None,
    }
}

pub open spec fn spec_bucket_float(b: BucketView<'_>) -> Result<SpecBucketFloat, Seq<char>> {
    let cc = match b.cumulative_count_float {
        Some(f) => Ok(SpecFloat::Bits(f)),
        None => match b.cumulative_count {
            Some(c) => Ok(SpecFloat::Unsigned(c)),
            None => Err("Bucket: cumulative_count"@),
        },
    };
    match cc {
        Err(e) => Err(e),
        Ok(c) => match b.upper_bound {
            None => Err("Bucket: upper_bound"@),
            Some(u) => match spec_exemplar(b.exemplar) {
                Err(e) => Err(e),
                Ok(x) => Ok(SpecBucketFloat { cumulative_count: c, upper_bound: SpecFloat::Bits(u), exemplar: x }),
            },
        },
    }
}

pub open spec fn spec_bucket_int(b: BucketView<'_>) -> Result<SpecBucketInt, Seq<char>> {
    match b.cumulative_count {
        None => Err("Bucket: cumulative_count"@),
        Some(c) => match b.upper_bound {
            None => Err("Bucket: upper_bound"@),
            Some(u) => match spec_exemplar(b.exemplar) {
                Err(e) => Err(e),
                Ok(x) => Ok(SpecBucketInt { cumulative_count: c, upper_bound: SpecFloat::Bits(u), exemplar: x }),
            },
        },
    }
}

pub open spec fn bucket_float_fn<'a>() -> spec_fn(BucketView<'a>) -> Result<SpecBucketFloat, Seq<char>> {
    |b: BucketView<'a>| spec_bucket_float(b)
}

pub open spec fn bucket_int_fn<'a>() -> spec_fn(BucketView<'a>) -> Result<SpecBucketInt, Seq<char>> {
    |b: BucketView<'a>| spec_bucket_int(b)
}

fn translate_bucket_float<'a>(b: BucketView<'a>) -> (r: Result<BucketFloat<'a>, ParseError>)
    ensures
        match (r, spec_bucket_float(b)) {
            (Ok(a), Ok(s)) => a.deep_view() == s,
            (Err(a), Err(s)) => err_is(a, s),
            _ => false,
        },
        exemplar_view_borrows(b.exemplar) && r is Ok ==> exemplar_borrows(r->Ok_0.exemplar),
{
    let BucketView { cumulative_count, cumulative_count_float, upper_bound, exemplar } = b;
    let cc = match cumulative_count_float {
        Some(f) => FloatValue::Bits(f),
        None => match cumulative_count {
            Some(c) => FloatValue::Unsigned(c),
            None => return Err(missing_field("Bucket: cumulative_count")),
        },
    };
    let u = match upper_bound {
        Some(u) => u,
        None => return Err(missing_field("Bucket: upper_bound")),
    };
    let ex = translate_exemplar(exemplar)?;
    Ok(BucketFloat { cumulative_count: cc, upper_bound: FloatValue::Bits(u), exemplar: ex })
}

fn translate_bucket_int<'a>(b: BucketView<'a>) -> (r: Result<BucketInt<'a>, ParseError>)
    ensures
        match (r, spec_bucket_int(b)) {
            (Ok(a), Ok(s)) => a.deep_view() == s,
            (Err(a), Err(s)) => err_is(a, s),
            _ => false,
        },
        exemplar_view_borrows(b.exemplar) && r is Ok ==> exemplar_borrows(r->Ok_0.exemplar),
{
    let BucketView { cumulative_count, upper_bound, exemplar, .. } = b;
    let c = match cumulative_count {
        Some(c) => c,
        None => return Err(missing_field("Bucket: cumulative_count")),
    };
    let u = match upper_bound {
        Some(u) => u,
        None => return Err(missing_field("Bucket: upper_bound")),
    };
    let ex = translate_exemplar(exemplar)?;
    Ok(BucketInt { cumulative_count: c, upper_bound: FloatValue::Bits(u), exemplar: ex })
}

fn translate_buckets_float<'a>(bs: Vec<BucketView<'a>>) -> (r: Result<Vec<BucketFloat<'a>>, ParseError>)
    ensures
        match (r, translate_all(bs@, bucket_float_fn())) {
            (Ok(a), Ok(b)) => a.deep_view() == b,
            (Err(a), Err(b)) => err_is(a, b),
            _ => false,
        },
        bucket_views_borrow(bs@) && r is Ok ==> forall|i: int|
            0 <= i < r->Ok_0@.len() ==> exemplar_borrows(#[trigger] r->Ok_0@[i].exemplar),
{
    let ghost orig = bs@;
    let ghost f = bucket_float_fn();
    let n = bs.len();
    let mut rest = reversed(bs);
    let mut out: Vec<BucketFloat<'a>> = Vec::new();
    assert(orig.take(0) =~= Seq::<BucketView>::empty());
    assert(out.deep_view() =~= Seq::<SpecBucketFloat>::empty());
    while rest.len() > 0
        invariant
            n == orig.len(),
            out@.len() + rest@.len() == n,
            forall|j: int| 0 <= j < rest@.len() ==> #[trigger] rest@[j] == orig[n - 1 - j],
            f == bucket_float_fn(),
            orig == bs@,
            bucket_views_borrow(orig) ==> forall|i: int| 0 <= i < out@.len() ==> exemplar_borrows(#[trigger] out@[i].exemplar),
            translate_all(orig.take(out@.len() as int), f) == Ok::<Seq<SpecBucketFloat>, Seq<char>>(out.deep_view()),
        decreases rest@.len(),
    {
        let ghost k = out@.len() as int;
        let x = rest.pop().unwrap();
        assert(x == orig[k]);
        assert(orig.take(k + 1).drop_last() =~= orig.take(k));
        assert(orig.take(k + 1).last() == orig[k]);
        match translate_bucket_float(x) {
            Ok(y) => {
                let ghost before = out.deep_view();
                out.push(y);
                assert(out.deep_view() =~= before.push(y.deep_view()));
            },
            Err(e) => {
                proof {
                    lemma_translate_all_err(orig, f, k);
                    assert(translate_all(orig.take(k + 1), f) matches Err(z) && spec_bucket_float(orig[k]) == Err::<SpecBucketFloat, Seq<char>>(z));
                }
                return Err(e);
            },
        }
    }
    assert(orig.take(n as int) =~= orig);
    Ok(out)
}

fn translate_buckets_int<'a>(bs: Vec<BucketView<'a>>) -> (r: Result<Vec<BucketInt<'a>>, ParseError>)
    ensures
        match (r, translate_all(bs@, bucket_int_fn())) {
            (Ok(a), Ok(b)) => a.deep_view() == b,
            (Err(a), Err(b)) => err_is(a, b),
            _ => false,
        },
        bucket_views_borrow(bs@) && r is Ok ==> forall|i: int|
            0 <= i < r->Ok_0@.len() ==> exemplar_borrows(#[trigger] r->Ok_0@[i].exemplar),
{
    let ghost orig = bs@;
    let ghost f = bucket_int_fn();
    let n = bs.len();
    let mut rest = reversed(bs);
    let mut out: Vec<BucketInt<'a>> = Vec::new();
    assert(orig.take(0) =~= Seq::<BucketView>::empty());
    assert(out.deep_view() =~= Seq::<SpecBucketInt>::empty());
    while rest.len() > 0
        invariant
            n == orig.len(),
            out@.len() + rest@.len() == n,
            forall|j: int| 0 <= j < rest@.len() ==> #[trigger] rest@[j] == orig[n - 1 - j],
            f == bucket_int_fn(),
            orig == bs@,
            bucket_views_borrow(orig) ==> forall|i: int| 0 <= i < out@.len() ==> exemplar_borrows(#[trigger] out@[i].exemplar),
            translate_all(orig.take(out@.len() as int), f) == Ok::<Seq<SpecBucketInt>, Seq<char>>(out.deep_view()),
        decreases rest@.len(),
    {
        let ghost k = out@.len() as int;
        let x = rest.pop().unwrap();
        assert(x == orig[k]);
        assert(orig.take(k + 1).drop_last() =~= orig.take(k));
        assert(orig.take(k + 1).last() == orig[k]);
        match translate_bucket_int(x) {
            Ok(y) => {
                let ghost before = out.deep_view();
                out.push(y);
                assert(out.deep_view() =~= before.push(y.deep_view()));
            },
            Err(e) => {
                proof {
                    lemma_translate_all_err(orig, f, k);
                    assert(translate_all(orig.take(k + 1), f) matches Err(z) && spec_bucket_int(orig[k]) == Err::<SpecBucketInt, Seq<char>>(z));
                }
                return Err(e);
            },
        }
    }
    assert(orig.take(n as int) =~= orig);
    Ok(out)
}

/// Whether the classic part of a histogram is float-valued: a float count
/// anywhere marks it so (a float sample or zero count, or a float bucket
/// count of the native part).
pub open spec fn classic_is_float(h: HistogramView<'_>) -> bool {
    h.sample_count_float is Some || h.zero_count_float is Some || h.positive_count@.len() > 0
        || h.negative_count@.len() > 0
}

/// The classic (explicit-bucket) part of a histogram.
pub open spec fn spec_classic(h: HistogramView<'_>) -> Result<SpecHistogram, Seq<char>> {
    let counts = if classic_is_float(h) {
        match translate_all(h.bucket@, bucket_float_fn()) {
            Ok(bs) => Ok(SpecBucketCount::Float { sample_count: opt_bits(h.sample_count_float), buckets: bs }),
            Err(e) => Err(e),
        }
    } else {
        match translate_all(h.bucket@, bucket_int_fn()) {
            Ok(bs) => Ok(SpecBucketCount::Int { sample_count: h.sample_count, buckets: bs }),
            Err(e) => Err(e),
        }
    };
    match counts {
        Err(e) => Err(e),
        Ok(c) => Ok(
            SpecHistogram {
                sample_sum: opt_float_number(h.sample_sum),
                counts: c,
                created_timestamp: spec_ts(h.created_timestamp),
            },
        ),
    }
}

fn translate_classic<'a>(
    Ghost(h): Ghost<HistogramView<'a>>,
    bucket: Vec<BucketView<'a>>,
    sample_count: Option<u64>,
    sample_count_float: Option<u64>,
    sample_sum: Option<u64>,
    is_float: bool,
    created: TimestampView,
) -> (r: Result<Histogram<'a>, ParseError>)
    requires
        bucket@ == h.bucket@,
        sample_count == h.sample_count,
        sample_count_float == h.sample_count_float,
        sample_sum == h.sample_sum,
        is_float == classic_is_float(h),
        created == h.created_timestamp,
    ensures
        match (r, spec_classic(h)) {
            (Ok(a), Ok(b)) => a.deep_view() == b,
            (Err(a), Err(b)) => err_is(a, b),
            _ => false,
        },
        bucket_views_borrow(h.bucket@) && r is Ok ==> histogram_borrows(r->Ok_0),
{
    let counts = if is_float {
        let bs = translate_buckets_float(bucket)?;
        BucketCount::Float { sample_count: exec_opt_bits(sample_count_float), buckets: bs }
    } else {
        let bs = translate_buckets_int(bucket)?;
        BucketCount::Int { sample_count, buckets: bs }
    };
    Ok(Histogram {
        sample_sum: exec_opt_float_number(sample_sum),
        counts,
        created_timestamp: translate_ts(created),
    })
}

pub open spec fn spec_span(s: BucketSpanView) -> BucketSpan {
    BucketSpan {
        offset: match s.offset {
            Some(o) => o,
            None => 0,
        },
        length: match s.length {
            Some(l) => l,
            None => 0,
        },
    }
}

pub open spec fn spec_spans(ss: Seq<BucketSpanView>) -> Seq<BucketSpan> {
    Seq::new(ss.len(), |i: int| spec_span(ss[i]))
}

pub open spec fn bits_seq(v: Seq<u64>) -> Seq<SpecFloat> {
    Seq::new(v.len(), |i: int| SpecFloat::Bits(v[i]))
}

fn translate_spans(ss: Vec<BucketSpanView>) -> (r: Vec<BucketSpan>)
    ensures
        r@ == spec_spans(ss@),
{
    let mut out: Vec<BucketSpan> = Vec::new();
    let mut i: usize = 0;
    while i < ss.len()
        invariant
            i <= ss@.len(),
            out@ == spec_spans(ss@.take(i as int)),
        decreases ss@.len() - i,
    {
        let s = &ss[i];
        let offset = match s.offset {
            Some(o) => o,
            None => 0,
        };
        let length = match s.length {
            Some(l) => l,
            None => 0,
        };
        out.push(BucketSpan { offset, length });
        assert(spec_spans(ss@.take(i + 1)) =~= spec_spans(ss@.take(i as int)).push(spec_span(ss@[i as int])));
        i = i + 1;
    }
    assert(ss@.take(ss@.len() as int) =~= ss@);
    out
}

fn to_bits(v: Vec<u64>) -> (r: Vec<FloatValue>)
    ensures
        r.deep_view() == bits_seq(v@),
{
    let mut out: Vec<FloatValue> = Vec::new();
    let mut i: usize = 0;
    while i < v.len()
        invariant
            i <= v@.len(),
            out.deep_view() == bits_seq(v@.take(i as int)),
        decreases v@.len() - i,
    {
        let ghost before = out.deep_view();
        out.push(FloatValue::Bits(v[i]));
        assert(out.deep_view() =~= before.push(SpecFloat::Bits(v@[i as int])));
        assert(bits_seq(v@.take(i + 1)) =~= bits_seq(v@.take(i as int)).push(SpecFloat::Bits(v@[i as int])));
        i = i + 1;
    }
    assert(v@.take(v@.len() as int) =~= v@);
    out
}

/// Whether the native part of a histogram is float-valued: any float count
/// field is present.
pub open spec fn native_is_float(h: HistogramView<'_>) -> bool {
    h.sample_count_float is Some || h.zero_count_float is Some || h.positive_count@.len() > 0
        || h.negative_count@.len() > 0
}

/// The native (sparse, exponential) part of a histogram.
pub open spec fn spec_native(h: HistogramView<'_>) -> Result<SpecNativeHistogram, Seq<char>> {
    let counts = if native_is_float(h) {
        SpecNativeCounts::Float {
            sample_count: opt_bits(h.sample_count_float),
            zero_count: SpecFloat::Bits(or_zero(h.zero_count_float)),
            positive_spans: spec_spans(h.positive_span@),
            positive_counts: bits_seq(h.positive_count@),
            negative_spans: spec_spans(h.negative_span@),
            negative_counts: bits_seq(h.negative_count@),
        }
    } else {
        SpecNativeCounts::Int {
            sample_count: h.sample_count,
            zero_count: or_zero(h.zero_count),
            positive_spans: spec_spans(h.positive_span@),
            positive_deltas: h.positive_delta@,
            negative_spans: spec_spans(h.negative_span@),
            negative_deltas: h.negative_delta@,
        }
    };
    match h.schema {
        None => Err("Histogram: schema"@),
        Some(schema) => match translate_all(h.exemplars@, exemplar_inner_fn()) {
            Err(e) => Err(e),
            Ok(ex) => Ok(
                SpecNativeHistogram {
                    schema,
                    zero_threshold: SpecFloat::Bits(or_zero(h.zero_threshold)),
                    sample_sum: opt_float_number(h.sample_sum),
                    counts,
                    exemplars: ex,
                    created_timestamp: spec_ts(h.created_timestamp),
                },
            ),
        },
    }
}

fn translate_native<'a>(h: HistogramView<'a>) -> (r: Result<NativeHistogram<'a>, ParseError>)
    ensures
        match (r, spec_native(h)) {
            (Ok(a), Ok(b)) => a.deep_view() == b,
            (Err(a), Err(b)) => err_is(a, b),
            _ => false,
        },
        exemplar_views_borrow(h.exemplars@) && r is Ok ==> exemplars_borrow(r->Ok_0.exemplars@),
{
    let ghost hv = h;
    let HistogramView {
        sample_count,
        sample_count_float,
        sample_sum,
        created_timestamp,
        schema,
        zero_threshold,
        zero_count,
        zero_count_float,
        negative_span,
        negative_delta,
        negative_count,
        positive_span,
        positive_delta,
        positive_count,
        exemplars,
        ..
    } = h;
    let is_float = sample_count_float.is_some() || zero_count_float.is_some() || positive_count.len() > 0
        || negative_count.len() > 0;
    let counts = if is_float {
        NativeCounts::Float {
            sample_count: exec_opt_bits(sample_count_float),
            zero_count: FloatValue::Bits(match zero_count_float {
                Some(z) => z,
                None => 0,
            }),
            positive_spans: translate_spans(positive_span),
            positive_counts: to_bits(positive_count),
            negative_spans: translate_spans(negative_span),
            negative_counts: to_bits(negative_count),
        }
    } else {
        NativeCounts::Int {
            sample_count,
            zero_count: match zero_count {
                Some(z) => z,
                None => 0,
            },
            positive_spans: translate_spans(positive_span),
            positive_deltas: positive_delta,
            negative_spans: translate_spans(negative_span),
            negative_deltas: negative_delta,
        }
    };
    let schema = match schema {
        Some(s) => s,
        None => return Err(missing_field("Histogram: schema")),
    };
    let ex = translate_exemplars(exemplars)?;
    Ok(NativeHistogram {
        schema,
        zero_threshold: FloatValue::Bits(match zero_threshold {
            Some(z) => z,
            None => 0,
        }),
        sample_sum: exec_opt_float_number(sample_sum),
        counts,
        exemplars: ex,
        created_timestamp: translate_ts(created_timestamp),
    })
}

// ---------------------------------------------------------------------------
// Metrics and the family
// ---------------------------------------------------------------------------

pub open spec fn spec_quantile(q: QuantileView) -> Result<SpecQuantile, Seq<char>> {
    match q.quantile {
        None => Err("Summary: quantile"@),
        Some(a) => match q.value {
            None => Err("Summary: value"@),
            Some(b) => Ok(SpecQuantile { quantile: SpecFloat::Bits(a), value: SpecFloat::Bits(b) }),
        },
    }
}

pub open spec fn quantile_fn() -> spec_fn(QuantileView) -> Result<SpecQuantile, Seq<char>> {
    |q: QuantileView| spec_quantile(q)
}

fn translate_quantiles(qs: Vec<QuantileView>) -> (r: Result<Vec<Quantile>, ParseError>)
    ensures
        match (r, translate_all(qs@, quantile_fn())) {
            (Ok(a), Ok(b)) => a.deep_view() == b,
            (Err(a), Err(b)) => err_is(a, b),
            _ => false,
        },
{
    let ghost orig = qs@;
    let ghost f = quantile_fn();
    let mut out: Vec<Quantile> = Vec::new();
    let mut i: usize = 0;
    assert(orig.take(0) =~= Seq::<QuantileView>::empty());
    assert(out.deep_view() =~= Seq::<SpecQuantile>::empty());
    while i < qs.len()
        invariant
            orig == qs@,
            f == quantile_fn(),
            i <= orig.len(),
            translate_all(orig.take(i as int), f) == Ok::<Seq<SpecQuantile>, Seq<char>>(out.deep_view()),
        decreases orig.len() - i,
    {
        assert(orig.take(i + 1).drop_last() =~= orig.take(i as int));
        assert(orig.take(i + 1).last() == orig[i as int]);
        let q = &qs[i];
        let a = match q.quantile {
            Some(a) => a,
            None => {
                proof { lemma_translate_all_err(orig, f, i as int); }
                return Err(missing_field("Summary: quantile"));
            },
        };
        let b = match q.value {
            Some(b) => b,
            None => {
                proof { lemma_translate_all_err(orig, f, i as int); }
                return Err(missing_field("Summary: value"));
            },
        };
        let item = Quantile { quantile: FloatValue::Bits(a), value: FloatValue::Bits(b) };
        let ghost before = out.deep_view();
        out.push(item);
        assert(out.deep_view() =~= before.push(item.deep_view()));
        i = i + 1;
    }
    assert(orig.take(orig.len() as int) =~= orig);
    Ok(out)
}

/// The value of one metric: from the first of its gauge, counter, summary,
/// histogram and untyped fields that is set. A histogram is a gauge
/// histogram in a gauge-histogram family; otherwise explicit buckets make
/// it classic, a schema makes it native, and both make it hybrid.
pub open spec fn spec_metric_value(v: MetricView<'_>, ty: MetricType) -> Result<SpecValue, Seq<char>> {
    if v.gauge.is_set {
        match v.gauge.value {
            None => Err("Gauge: value"@),
            Some(g) => Ok(SpecValue::Gauge(SpecNumber::Float(SpecFloat::Bits(g)))),
        }
    } else if v.counter.is_set {
        match v.counter.value {
            None => Err("Counter: value"@),
            Some(c) => match spec_exemplar(v.counter.exemplar) {
                Err(e) => Err(e),
                Ok(x) => Ok(
                    SpecValue::Counter(
                        SpecCounter {
                            value: SpecUnsigned::Float(SpecFloat::Bits(c)),
                            exemplar: x,
                            created_timestamp: spec_ts(v.counter.created_timestamp),
                        },
                    ),
                ),
            },
        }
    } else if v.summary.is_set {
        match translate_all(v.summary.quantile@, quantile_fn()) {
            Err(e) => Err(e),
            Ok(qs) => Ok(
                SpecValue::Summary(
                    SpecSummary {
                        sample_count: match v.summary.sample_count {
                            Some(c) => Some(SpecUnsigned::Uint(c)),
                            None => None,
                        },
                        sample_sum: opt_float_number(v.summary.sample_sum),
                        quantile: qs,
                        created_timestamp: spec_ts(v.summary.created_timestamp),
                    },
                ),
            ),
        }
    } else if v.histogram.is_set {
        spec_histogram_value(v.histogram, ty)
    } else if v.untyped.is_set {
        match v.untyped.value {
            None => Err("Untyped: value"@),
            Some(u) => Ok(SpecValue::Untyped(SpecNumber::Float(SpecFloat::Bits(u)))),
        }
    } else {
        Err("Metric: gauge, counter, summary, histogram, or untyped"@)
    }
}

/// A histogram's value: a gauge histogram in a gauge-histogram family;
/// otherwise explicit buckets make it classic, a schema makes it native, and
/// both make it hybrid (its classic part read first).
pub open spec fn spec_histogram_value(h: HistogramView<'_>, ty: MetricType) -> Result<SpecValue, Seq<char>> {
    if ty == MetricType::GaugeHistogram {
        match spec_classic(h) {
            Err(e) => Err(e),
            Ok(c) => Ok(SpecValue::GaugeHistogram(c)),
        }
    } else if h.bucket@.len() > 0 && h.schema is Some {
        match spec_classic(h) {
            Err(e) => Err(e),
            Ok(c) => match spec_native(h) {
                Err(e) => Err(e),
                Ok(n) => Ok(SpecValue::HybridHistogram(c, n)),
            },
        }
    } else if h.schema is Some {
        match spec_native(h) {
            Err(e) => Err(e),
            Ok(n) => Ok(SpecValue::NativeHistogram(n)),
        }
    } else {
        match spec_classic(h) {
            Err(e) => Err(e),
            Ok(c) => Ok(SpecValue::Histogram(c)),
        }
    }
}

/// One metric: its labels, then its value, then its millisecond timestamp.
pub open spec fn spec_metric(v: MetricView<'_>, ty: MetricType) -> Result<SpecMetric, Seq<char>> {
    match spec_labels(v.label@) {
        Err(e) => Err(e),
        Ok(ls) => match spec_metric_value(v, ty) {
            Err(e) => Err(e),
            Ok(val) => Ok(SpecMetric { label: ls, value: val, timestamp: spec_opt_ms(v.timestamp_ms) }),
        },
    }
}

fn translate_histogram_value<'a>(h: HistogramView<'a>, ty: MetricType) -> (r: Result<MetricValue<'a>, ParseError>)
    ensures
        match (r, spec_histogram_value(h, ty)) {
            (Ok(a), Ok(b)) => a.deep_view() == b,
            (Err(a), Err(b)) => err_is(a, b),
            _ => false,
        },
        histogram_view_borrows(h) && r is Ok ==> value_borrows(r->Ok_0),
{
    let ghost hv = h;
    let is_float = h.sample_count_float.is_some() || h.zero_count_float.is_some() || h.positive_count.len() > 0
        || h.negative_count.len() > 0;
    let sample_count = h.sample_count;
    let sample_count_float = h.sample_count_float;
    let sample_sum = h.sample_sum;
    let created = h.created_timestamp;
    let has_buckets = h.bucket.len() > 0;
    let has_schema = h.schema.is_some();
    let mut h = h;
    let mut bucket: Vec<BucketView<'a>> = Vec::new();
    std::mem::swap(&mut bucket, &mut h.bucket);
    assert(spec_native(h) == spec_native(hv));
    if ty == MetricType::GaugeHistogram {
        let c = translate_classic(Ghost(hv), bucket, sample_count, sample_count_float, sample_sum, is_float, created)?;
        Ok(MetricValue::GaugeHistogram(c))
    } else if has_buckets && has_schema {
        let c = translate_classic(Ghost(hv), bucket, sample_count, sample_count_float, sample_sum, is_float, created)?;
        let n = translate_native(h)?;
        Ok(MetricValue::HybridHistogram { classic: c, native: n })
    } else if has_schema {
        let n = translate_native(h)?;
        Ok(MetricValue::NativeHistogram(n))
    } else {
        let c = translate_classic(Ghost(hv), bucket, sample_count, sample_count_float, sample_sum, is_float, created)?;
        Ok(MetricValue::Histogram(c))
    }
}

fn translate_metric<'a>(v: MetricView<'a>, ty: MetricType) -> (r: Result<Metric<'a>, ParseError>)
    ensures
        match (r, spec_metric(v, ty)) {
            (Ok(a), Ok(b)) => a.deep_view() == b,
            (Err(a), Err(b)) => err_is(a, b),
            _ => false,
        },
        metric_view_borrows(v) && r is Ok ==> metric_borrows(r->Ok_0),
{
    let MetricView { label, gauge, counter, summary, untyped, timestamp_ms, histogram } = v;
    let label = translate_labels(label)?;
    let value = if gauge.is_set {
        match gauge.value {
            None => return Err(missing_field("Gauge: value")),
            Some(g) => MetricValue::Gauge(Number::Float(FloatValue::Bits(g))),
        }
    } else if counter.is_set {
        let c = match counter.value {
            None => return Err(missing_field("Counter: value")),
            Some(c) => c,
        };
        let created_timestamp = translate_ts(counter.created_timestamp);
        let exemplar = translate_exemplar(counter.exemplar)?;
        MetricValue::Counter(Counter {
            value: UnsignedNumber::Float(FloatValue::Bits(c)),
            exemplar,
            created_timestamp,
        })
    } else if summary.is_set {
        let sample_count = match summary.sample_count {
            Some(c) => Some(UnsignedNumber::Uint(c)),
            None => None,
        };
        let sample_sum = exec_opt_float_number(summary.sample_sum);
        let created_timestamp = translate_ts(summary.created_timestamp);
        let quantile = translate_quantiles(summary.quantile)?;
        MetricValue::Summary(Summary { sample_count, sample_sum, quantile, created_timestamp })
    } else if histogram.is_set {
        translate_histogram_value(histogram, ty)?
    } else if untyped.is_set {
        match untyped.value {
            None => return Err(missing_field("Untyped: value")),
            Some(u) => MetricValue::Untyped(Number::Float(FloatValue::Bits(u))),
        }
    } else {
        return Err(missing_field("Metric: gauge, counter, summary, histogram, or untyped"));
    };
    let timestamp = match timestamp_ms {
        Some(m) => Some(TimestampValue::Exact(ms_ts(m))),
        None => None,
    };
    Ok(Metric { label, value, timestamp })
}

pub open spec fn metric_fn<'a>(ty: MetricType) -> spec_fn(MetricView<'a>) -> Result<SpecMetric, Seq<char>> {
    |v: MetricView<'a>| spec_metric(v, ty)
}

fn translate_metrics<'a>(ms: Vec<MetricView<'a>>, ty: MetricType) -> (r: Result<Vec<Metric<'a>>, ParseError>)
    ensures
        match (r, translate_all(ms@, metric_fn(ty))) {
            (Ok(a), Ok(b)) => a.deep_view() == b,
            (Err(a), Err(b)) => err_is(a, b),
            _ => false,
        },
        metric_views_borrow(ms@) && r is Ok ==> forall|i: int| 0 <= i < r->Ok_0@.len() ==> metric_borrows(#[trigger] r->Ok_0@[i]),
{
    let ghost orig = ms@;
    let ghost f = metric_fn(ty);
    let n = ms.len();
    let mut rest = reversed(ms);
    let mut out: Vec<Metric<'a>> = Vec::new();
    assert(orig.take(0) =~= Seq::<MetricView>::empty());
    assert(out.deep_view() =~= Seq::<SpecMetric>::empty());
    while rest.len() > 0
        invariant
            n == orig.len(),
            out@.len() + rest@.len() == n,
            forall|j: int| 0 <= j < rest@.len() ==> #[trigger] rest@[j] == orig[n - 1 - j],
            f == metric_fn(ty),
            orig == ms@,
            metric_views_borrow(orig) ==> forall|i: int| 0 <= i < out@.len() ==> metric_borrows(#[trigger] out@[i]),
            translate_all(orig.take(out@.len() as int), f) == Ok::<Seq<SpecMetric>, Seq<char>>(out.deep_view()),
        decreases rest@.len(),
    {
        let ghost k = out@.len() as int;
        let x = rest.pop().unwrap();
        assert(x == orig[k]);
        assert(orig.take(k + 1).drop_last() =~= orig.take(k));
        assert(orig.take(k + 1).last() == orig[k]);
        match translate_metric(x, ty) {
            Ok(y) => {
                let ghost before = out.deep_view();
                out.push(y);
                assert(out.deep_view() =~= before.push(y.deep_view()));
            },
            Err(e) => {
                proof {
                    lemma_translate_all_err(orig, f, k);
                    assert(translate_all(orig.take(k + 1), f) matches Err(z) && spec_metric(orig[k], ty) == Err::<SpecMetric, Seq<char>>(z));
                }
                return Err(e);
            },
        }
    }
    assert(orig.take(n as int) =~= orig);
    Ok(out)
}

/// The family type: from the type field, except that a histogram family is
/// read by the shape of its first metric's histogram (hybrid with buckets
/// and a schema, native with a schema alone); a missing type is an error.
pub open spec fn spec_infer_type(f: FamilyView<'_>) -> Result<MetricType, Seq<char>> {
    match f.metric_type {
        None => Err("MetricFamily: type"@),
        Some(ProtoType::Counter) => Ok(MetricType::Counter),
        Some(ProtoType::Gauge) => Ok(MetricType::Gauge),
        Some(ProtoType::Summary) => Ok(MetricType::Summary),
        Some(ProtoType::Untyped) => Ok(MetricType::Untyped),
        Some(ProtoType::GaugeHistogram) => Ok(MetricType::GaugeHistogram),
        Some(ProtoType::Histogram) => if f.metric@.len() > 0 && f.metric@[0].histogram.is_set {
            let h = f.metric@[0].histogram;
            if h.bucket@.len() > 0 && h.schema is Some {
                Ok(MetricType::HybridHistogram)
            } else if h.schema is Some {
                Ok(MetricType::NativeHistogram)
            } else {
                Ok(MetricType::Histogram)
            }
        } else {
            Ok(MetricType::Histogram)
        },
    }
}

fn infer_type(f: &FamilyView<'_>) -> (r: Result<MetricType, ParseError>)
    ensures
        match (r, spec_infer_type(*f)) {
            (Ok(a), Ok(b)) => a == b,
            (Err(a), Err(b)) => err_is(a, b),
            _ => false,
        },
{
    match f.metric_type {
        None => Err(missing_field("MetricFamily: type")),
        Some(ProtoType::Counter) => Ok(MetricType::Counter),
        Some(ProtoType::Gauge) => Ok(MetricType::Gauge),
        Some(ProtoType::Summary) => Ok(MetricType::Summary),
        Some(ProtoType::Untyped) => Ok(MetricType::Untyped),
        Some(ProtoType::GaugeHistogram) => Ok(MetricType::GaugeHistogram),
        Some(ProtoType::Histogram) => {
            if f.metric.len() > 0 && f.metric[0].histogram.is_set {
                let h = &f.metric[0].histogram;
                if h.bucket.len() > 0 && h.schema.is_some() {
                    Ok(MetricType::HybridHistogram)
                } else if h.schema.is_some() {
                    Ok(MetricType::NativeHistogram)
                } else {
                    Ok(MetricType::Histogram)
                }
            } else {
                Ok(MetricType::Histogram)
            }
        },
    }
}

pub open spec fn opt_str_bytes(s: Option<Cow<'_, str>>) -> Option<Seq<u8>> {
    match s {
        Some(v) => Some(encode_utf8(v@)),
        None => None,
    }
}

/// A decoded family: its type, then its metrics, then its name.
pub open spec fn spec_family(f: FamilyView<'_>) -> Result<SpecFamily, Seq<char>> {
    match spec_infer_type(f) {
        Err(e) => Err(e),
        Ok(ty) => match translate_all(f.metric@, metric_fn(ty)) {
            Err(e) => Err(e),
            Ok(ms) => match f.name {
                None => Err("MetricFamily: name"@),
                Some(n) => Ok(
                    SpecFamily {
                        name: encode_utf8(n@),
                        help: opt_str_bytes(f.help),
                        typ: ty,
                        metric: ms,
                        unit: opt_str_bytes(f.unit),
                    },
                ),
            },
        },
    }
}

/// Translate a decoded `MetricFamily` into the metric model.
pub fn translate_family<'a>(f: FamilyView<'a>) -> (r: Result<MetricFamily<'a>, ParseError>)
    ensures
        match (r, spec_family(f)) {
            (Ok(a), Ok(b)) => a.deep_view() == b,
            (Err(a), Err(b)) => err_is(a, b),
            _ => false,
        },
        opt_borrows(f.name) && opt_borrows(f.help) && opt_borrows(f.unit) && metric_views_borrow(f.metric@) && r is Ok ==> family_borrows(r->Ok_0),
{
    let ty = infer_type(&f)?;
    let FamilyView { name, help, metric, unit, .. } = f;
    let metric = translate_metrics(metric, ty)?;
    let name = match name {
        Some(n) => n,
        None => return Err(missing_field("MetricFamily: name")),
    };
    Ok(MetricFamily { name, help, metric_type: ty, metric, unit })
}

/// A metric's `timestamp_ms` becomes the instant that many milliseconds
/// after the epoch: whole seconds (rounded down) and the remaining
/// milliseconds as nanoseconds; a metric without one has no timestamp.
pub proof fn law_metric_timestamp_is_milliseconds(v: MetricView<'_>, ty: MetricType)
    ensures
        spec_metric(v, ty) matches Ok(m) ==> match v.timestamp_ms {
            Some(ms) => m.timestamp matches Some(SpecTs::Exact(t)) && t.seconds * 1000 + t.nanos / 1_000_000 == ms
                && 0 <= t.nanos < 1_000_000_000 && t.nanos % 1_000_000 == 0,
            None => m.timestamp is None,
        },
{
    if let Some(ms) = v.timestamp_ms {
        let q: int = ms as int / 1000;
        let r: int = ms as int % 1000;
        assert(0 <= r < 1000 && q * 1000 + r == ms) by {
            vstd::arithmetic::div_mod::lemma_fundamental_div_mod(ms as int, 1000);
            vstd::arithmetic::div_mod::lemma_mod_bound(ms as int, 1000);
        }
        assert(i64::MIN <= q <= i64::MAX) by {
            vstd::arithmetic::div_mod::lemma_div_is_ordered(i64::MIN as int, ms as int, 1000);
            vstd::arithmetic::div_mod::lemma_div_is_ordered(ms as int, i64::MAX as int, 1000);
        }
        let n: int = r * 1_000_000;
        assert(n / 1_000_000 == r && n % 1_000_000 == 0) by {
            vstd::arithmetic::div_mod::lemma_div_multiples_vanish(r, 1_000_000);
            vstd::arithmetic::div_mod::lemma_mod_multiples_basic(r, 1_000_000);
        }
        let t = spec_ms_ts(ms);
        assert(t.seconds == q && t.nanos == n);
    }
}

/// A summary metric keeps what its message says: the observation count
/// (an unsigned integer), the sum (the double's bits) and one quantile per
/// quantile entry, each present exactly when the message carries it.
pub proof fn law_summary_metric_keeps_its_fields(v: MetricView<'_>, ty: MetricType)
    requires
        !v.gauge.is_set,
        !v.counter.is_set,
        v.summary.is_set,
    ensures
        spec_metric(v, ty) matches Ok(m) ==> m.value matches SpecValue::Summary(s) && s.sample_count == match v.summary.sample_count {
            Some(c) => Some(SpecUnsigned::Uint(c)),
            None => None,
        } && s.sample_sum == match v.summary.sample_sum {
            Some(b) => Some(SpecNumber::Float(SpecFloat::Bits(b))),
            None => None,
        } && s.quantile.len() == v.summary.quantile@.len() && (forall|i: int|
            0 <= i < s.quantile.len() ==> (v.summary.quantile@[i].quantile matches Some(q) && v.summary.quantile@[i].value
                matches Some(x) && #[trigger] s.quantile[i] == (SpecQuantile {
                quantile: SpecFloat::Bits(q),
                value: SpecFloat::Bits(x),
            }))) && (s.created_timestamp is Some) == v.summary.created_timestamp.is_set,
{
    lemma_translate_all_len(v.summary.quantile@, quantile_fn());
    lemma_translate_all_elems(v.summary.quantile@, quantile_fn());
}

/// The value of a gauge, counter or untyped metric is the double its message
/// carries (as bits), chosen in that order; the metric keeps one label per
/// label entry.
pub proof fn law_scalar_metric_values(v: MetricView<'_>, ty: MetricType)
    ensures
        spec_metric(v, ty) matches Ok(m) ==> {
            &&& m.label.len() == v.label@.len()
            &&& v.gauge.is_set ==> (v.gauge.value matches Some(g) && m.value == SpecValue::Gauge(
                SpecNumber::Float(SpecFloat::Bits(g)),
            ))
            &&& !v.gauge.is_set && v.counter.is_set ==> (v.counter.value matches Some(c) && m.value matches SpecValue::Counter(
                x,
            ) && x.value == SpecUnsigned::Float(SpecFloat::Bits(c)))
            &&& !v.gauge.is_set && !v.counter.is_set && !v.summary.is_set && !v.histogram.is_set && v.untyped.is_set
                ==> (v.untyped.value matches Some(u) && m.value == SpecValue::Untyped(SpecNumber::Float(SpecFloat::Bits(u))))
        },
{
    lemma_translate_all_len(v.label@, label_fn());
}

} // verus!
