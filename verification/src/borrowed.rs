//! The borrowed, zero-copy data model: what every parser returns.
//!
//! Each type here mirrors its counterpart in [`crate::owned`], but string
//! fields are `Cow<'a, str>` that borrow straight from the input buffer
//! (`Cow::Owned` only where an escape sequence forced an allocation). Call
//! `into_owned` to detach a value from the buffer; both views denote the same
//! [`crate::model`] value.
//!
//! A `deep_view` here is the model value alone, so that a borrowed value and
//! its owned copy have the same view; whether each string is borrowed is
//! stated apart from it, by [`borrows`] and the predicates built on it
//! (up to [`family_borrows`]).

use vstd::prelude::*;
use vstd::utf8::encode_utf8;

use std::borrow::Cow;

use crate::model::{
    SpecBucketCount, SpecBucketFloat, SpecBucketInt, SpecCounter, SpecExemplar, SpecFamily,
    SpecHistogram, SpecLabel, SpecMetric, SpecNativeHistogram, SpecState, SpecValue,
};
use crate::drain::reversed;
use crate::owned;
use crate::text::lex::{cow_bytes, cow_into_owned, has_backslash, plain, unescape};
use crate::owned::{
    FloatValue, MetricType, NativeCounts, Number, Summary, TimestampValue, UnsignedNumber,
};

verus! {

#[derive(Debug)]
pub struct LabelPair<'a> {
    pub name: Cow<'a, str>,
    pub value: Cow<'a, str>,
}

impl<'a> DeepView for LabelPair<'a> {
    type V = SpecLabel;

    open spec fn deep_view(&self) -> SpecLabel {
        SpecLabel { name: encode_utf8(self.name@), value: encode_utf8(self.value@) }
    }
}

#[derive(Debug)]
pub struct Exemplar<'a> {
    pub label: Vec<LabelPair<'a>>,
    pub value: FloatValue,
    pub timestamp: Option<TimestampValue>,
}

impl<'a> DeepView for Exemplar<'a> {
    type V = SpecExemplar;

    open spec fn deep_view(&self) -> SpecExemplar {
        SpecExemplar {
            label: self.label.deep_view(),
            value: self.value.deep_view(),
            timestamp: self.timestamp.deep_view(),
        }
    }
}

#[derive(Debug)]
pub struct Counter<'a> {
    pub value: UnsignedNumber,
    pub exemplar: Option<Exemplar<'a>>,
    pub created_timestamp: Option<TimestampValue>,
}

impl<'a> DeepView for Counter<'a> {
    type V = SpecCounter;

    open spec fn deep_view(&self) -> SpecCounter {
        SpecCounter {
            value: self.value.deep_view(),
            exemplar: self.exemplar.deep_view(),
            created_timestamp: self.created_timestamp.deep_view(),
        }
    }
}

#[derive(Debug)]
pub struct BucketInt<'a> {
    pub cumulative_count: u64,
    pub upper_bound: FloatValue,
    pub exemplar: Option<Exemplar<'a>>,
}

impl<'a> DeepView for BucketInt<'a> {
    type V = SpecBucketInt;

    open spec fn deep_view(&self) -> SpecBucketInt {
        SpecBucketInt {
            cumulative_count: self.cumulative_count,
            upper_bound: self.upper_bound.deep_view(),
            exemplar: self.exemplar.deep_view(),
        }
    }
}

#[derive(Debug)]
pub struct BucketFloat<'a> {
    pub cumulative_count: FloatValue,
    pub upper_bound: FloatValue,
    pub exemplar: Option<Exemplar<'a>>,
}

impl<'a> DeepView for BucketFloat<'a> {
    type V = SpecBucketFloat;

    open spec fn deep_view(&self) -> SpecBucketFloat {
        SpecBucketFloat {
            cumulative_count: self.cumulative_count.deep_view(),
            upper_bound: self.upper_bound.deep_view(),
            exemplar: self.exemplar.deep_view(),
        }
    }
}

#[derive(Debug)]
pub enum BucketCount<'a> {
    Int { sample_count: Option<u64>, buckets: Vec<BucketInt<'a>> },
    Float { sample_count: Option<FloatValue>, buckets: Vec<BucketFloat<'a>> },
}

impl<'a> DeepView for BucketCount<'a> {
    type V = SpecBucketCount;

    open spec fn deep_view(&self) -> SpecBucketCount {
        match self {
            BucketCount::Int { sample_count, buckets } => SpecBucketCount::Int {
                sample_count: *sample_count,
                buckets: buckets.deep_view(),
            },
            BucketCount::Float { sample_count, buckets } => SpecBucketCount::Float {
                sample_count: sample_count.deep_view(),
                buckets: buckets.deep_view(),
            },
        }
    }
}

#[derive(Debug)]
pub struct Histogram<'a> {
    pub sample_sum: Option<Number>,
    pub counts: BucketCount<'a>,
    pub created_timestamp: Option<TimestampValue>,
}

impl<'a> DeepView for Histogram<'a> {
    type V = SpecHistogram;

    open spec fn deep_view(&self) -> SpecHistogram {
        SpecHistogram {
            sample_sum: self.sample_sum.deep_view(),
            counts: self.counts.deep_view(),
            created_timestamp: self.created_timestamp.deep_view(),
        }
    }
}

#[derive(Debug)]
pub struct NativeHistogram<'a> {
    pub schema: i32,
    pub zero_threshold: FloatValue,
    pub sample_sum: Option<Number>,
    pub counts: NativeCounts,
    pub exemplars: Vec<Exemplar<'a>>,
    pub created_timestamp: Option<TimestampValue>,
}

impl<'a> DeepView for NativeHistogram<'a> {
    type V = SpecNativeHistogram;

    open spec fn deep_view(&self) -> SpecNativeHistogram {
        SpecNativeHistogram {
            schema: self.schema,
            zero_threshold: self.zero_threshold.deep_view(),
            sample_sum: self.sample_sum.deep_view(),
            counts: self.counts.deep_view(),
            exemplars: self.exemplars.deep_view(),
            created_timestamp: self.created_timestamp.deep_view(),
        }
    }
}

#[derive(Debug)]
pub struct Info<'a> {
    /// The info label set (the payload). The sample value is always 1.
    pub labels: Vec<LabelPair<'a>>,
}


/// One state of a state set, with the sample value that says whether it is
/// enabled (any value other than zero).
#[derive(Debug)]
pub struct State<'a> {
    pub name: Cow<'a, str>,
    pub value: Number,
}

impl<'a> DeepView for State<'a> {
    type V = SpecState;

    open spec fn deep_view(&self) -> SpecState {
        SpecState { name: encode_utf8(self.name@), value: self.value.deep_view() }
    }
}

#[derive(Debug)]
pub struct StateSet<'a> {
    pub states: Vec<State<'a>>,
}


#[derive(Debug)]
pub enum MetricValue<'a> {
    Counter(Counter<'a>),
    Gauge(Number),
    Summary(Summary),
    Untyped(Number),
    Histogram(Histogram<'a>),
    GaugeHistogram(Histogram<'a>),
    NativeHistogram(NativeHistogram<'a>),
    HybridHistogram { classic: Histogram<'a>, native: NativeHistogram<'a> },
    StateSet(StateSet<'a>),
    Info(Info<'a>),
}

impl<'a> DeepView for MetricValue<'a> {
    type V = SpecValue;

    open spec fn deep_view(&self) -> SpecValue {
        match self {
            MetricValue::Counter(c) => SpecValue::Counter(c.deep_view()),
            MetricValue::Gauge(n) => SpecValue::Gauge(n.deep_view()),
            MetricValue::Summary(s) => SpecValue::Summary(s.deep_view()),
            MetricValue::Untyped(n) => SpecValue::Untyped(n.deep_view()),
            MetricValue::Histogram(h) => SpecValue::Histogram(h.deep_view()),
            MetricValue::GaugeHistogram(h) => SpecValue::GaugeHistogram(h.deep_view()),
            MetricValue::NativeHistogram(h) => SpecValue::NativeHistogram(h.deep_view()),
            MetricValue::HybridHistogram { classic, native } => SpecValue::HybridHistogram(
                classic.deep_view(),
                native.deep_view(),
            ),
            MetricValue::StateSet(s) => SpecValue::StateSet(s.states.deep_view()),
            MetricValue::Info(i) => SpecValue::Info(i.labels.deep_view()),
        }
    }
}

#[derive(Debug)]
pub struct Metric<'a> {
    pub label: Vec<LabelPair<'a>>,
    pub value: MetricValue<'a>,
    pub timestamp: Option<TimestampValue>,
}

impl<'a> DeepView for Metric<'a> {
    type V = SpecMetric;

    open spec fn deep_view(&self) -> SpecMetric {
        SpecMetric {
            label: self.label.deep_view(),
            value: self.value.deep_view(),
            timestamp: self.timestamp.deep_view(),
        }
    }
}

/// A group of metrics sharing a name, type, and metadata.
#[derive(Debug)]
pub struct MetricFamily<'a> {
    pub name: Cow<'a, str>,
    pub help: Option<Cow<'a, str>>,
    pub metric_type: MetricType,
    pub metric: Vec<Metric<'a>>,
    pub unit: Option<Cow<'a, str>>,
}

impl<'a> DeepView for MetricFamily<'a> {
    type V = SpecFamily;

    open spec fn deep_view(&self) -> SpecFamily {
        SpecFamily {
            name: encode_utf8(self.name@),
            help: match self.help {
                Some(h) => Some(encode_utf8(h@)),
                None => None,
            },
            typ: self.metric_type,
            metric: self.metric.deep_view(),
            unit: match self.unit {
                Some(u) => Some(encode_utf8(u@)),
                None => None,
            },
        }
    }
}

// ---------------------------------------------------------------------------
// Zero-copy: which strings borrow the input
// ---------------------------------------------------------------------------

/// The string borrows its source: no copy was made.
pub open spec fn borrows(c: Cow<'_, str>) -> bool {
    c is Borrowed
}

pub open spec fn opt_borrows(c: Option<Cow<'_, str>>) -> bool {
    match c {
        Some(x) => borrows(x),
        None => true,
    }
}

pub open spec fn labels_borrow(ls: Seq<LabelPair<'_>>) -> bool {
    forall|i: int| 0 <= i < ls.len() ==> borrows(#[trigger] ls[i].name) && borrows(ls[i].value)
}

pub open spec fn exemplar_borrows(e: Option<Exemplar<'_>>) -> bool {
    match e {
        Some(x) => labels_borrow(x.label@),
        None => true,
    }
}

pub open spec fn exemplars_borrow(es: Seq<Exemplar<'_>>) -> bool {
    forall|i: int| 0 <= i < es.len() ==> labels_borrow(#[trigger] es[i].label@)
}

pub open spec fn histogram_borrows(h: Histogram<'_>) -> bool {
    match h.counts {
        BucketCount::Int { buckets, .. } => forall|i: int|
            0 <= i < buckets@.len() ==> exemplar_borrows(#[trigger] buckets@[i].exemplar),
        BucketCount::Float { buckets, .. } => forall|i: int|
            0 <= i < buckets@.len() ==> exemplar_borrows(#[trigger] buckets@[i].exemplar),
    }
}

pub open spec fn value_borrows(v: MetricValue<'_>) -> bool {
    match v {
        MetricValue::Counter(c) => exemplar_borrows(c.exemplar),
        MetricValue::Histogram(h) => histogram_borrows(h),
        MetricValue::GaugeHistogram(h) => histogram_borrows(h),
        MetricValue::NativeHistogram(n) => exemplars_borrow(n.exemplars@),
        MetricValue::HybridHistogram { classic, native } => histogram_borrows(classic) && exemplars_borrow(
            native.exemplars@,
        ),
        MetricValue::StateSet(s) => forall|i: int| 0 <= i < s.states@.len() ==> borrows(#[trigger] s.states@[i].name),
        MetricValue::Info(i) => labels_borrow(i.labels@),
        _ => true,
    }
}

pub open spec fn metric_borrows(m: Metric<'_>) -> bool {
    labels_borrow(m.label@) && value_borrows(m.value)
}

/// The family's name, help and unit, and every metric's label names and
/// values, borrow the input.
pub open spec fn names_borrow(f: MetricFamily<'_>) -> bool {
    &&& borrows(f.name)
    &&& opt_borrows(f.help)
    &&& opt_borrows(f.unit)
    &&& forall|i: int| 0 <= i < f.metric@.len() ==> labels_borrow(#[trigger] f.metric@[i].label@)
}

/// Every string of the family (its name, help and unit, every label name
/// and value, exemplar labels and state names) borrows the input.
pub open spec fn family_borrows(f: MetricFamily<'_>) -> bool {
    &&& names_borrow(f)
    &&& forall|i: int| 0 <= i < f.metric@.len() ==> metric_borrows(#[trigger] f.metric@[i])
}

/// String by string: the string borrows its source `src`, or it is a copy
/// that resolves the escapes of a stretch of `src` holding a backslash (the
/// text it was written as).
pub open spec fn kept(c: Cow<'_, str>, src: Seq<u8>) -> bool {
    c is Borrowed || exists|i: int, j: int|
        0 <= i <= j <= src.len() && has_backslash(#[trigger] src.subrange(i, j)) && unescape(src.subrange(i, j))
            == cow_bytes(c)
}

pub open spec fn opt_kept(c: Option<Cow<'_, str>>, src: Seq<u8>) -> bool {
    match c {
        Some(x) => kept(x, src),
        None => true,
    }
}

pub open spec fn labels_kept(ls: Seq<LabelPair<'_>>, src: Seq<u8>) -> bool {
    forall|i: int| 0 <= i < ls.len() ==> kept(#[trigger] ls[i].name, src) && kept(ls[i].value, src)
}

pub open spec fn exemplar_kept(e: Option<Exemplar<'_>>, src: Seq<u8>) -> bool {
    match e {
        Some(x) => labels_kept(x.label@, src),
        None => true,
    }
}

pub open spec fn exemplars_kept(es: Seq<Exemplar<'_>>, src: Seq<u8>) -> bool {
    forall|i: int| 0 <= i < es.len() ==> labels_kept(#[trigger] es[i].label@, src)
}

pub open spec fn histogram_kept(h: Histogram<'_>, src: Seq<u8>) -> bool {
    match h.counts {
        BucketCount::Int { buckets, .. } => forall|i: int|
            0 <= i < buckets@.len() ==> exemplar_kept(#[trigger] buckets@[i].exemplar, src),
        BucketCount::Float { buckets, .. } => forall|i: int|
            0 <= i < buckets@.len() ==> exemplar_kept(#[trigger] buckets@[i].exemplar, src),
    }
}

pub open spec fn value_kept(v: MetricValue<'_>, src: Seq<u8>) -> bool {
    match v {
        MetricValue::Counter(c) => exemplar_kept(c.exemplar, src),
        MetricValue::Histogram(h) => histogram_kept(h, src),
        MetricValue::GaugeHistogram(h) => histogram_kept(h, src),
        MetricValue::NativeHistogram(n) => exemplars_kept(n.exemplars@, src),
        MetricValue::HybridHistogram { classic, native } => histogram_kept(classic, src) && exemplars_kept(
            native.exemplars@,
            src,
        ),
        MetricValue::StateSet(s) => forall|i: int| 0 <= i < s.states@.len() ==> kept(#[trigger] s.states@[i].name, src),
        MetricValue::Info(i) => labels_kept(i.labels@, src),
        _ => true,
    }
}

pub open spec fn metric_kept(m: Metric<'_>, src: Seq<u8>) -> bool {
    labels_kept(m.label@, src) && value_kept(m.value, src)
}

/// String by string, every string of the family (its name, help and unit,
/// every label name and value, exemplar labels and state names) borrows
/// `src`, or is a copy resolving the escapes of a stretch of `src` that
/// holds a backslash.
pub open spec fn family_kept(f: MetricFamily<'_>, src: Seq<u8>) -> bool {
    &&& kept(f.name, src)
    &&& opt_kept(f.help, src)
    &&& opt_kept(f.unit, src)
    &&& forall|i: int| 0 <= i < f.metric@.len() ==> metric_kept(#[trigger] f.metric@[i], src)
}

/// A string that is a copy only when its stretch `src[i..j]` holds a
/// backslash, and resolves that stretch's escapes, is kept from `src`.
pub proof fn lemma_kept_from(c: Cow<'_, str>, src: Seq<u8>, i: int, j: int)
    requires
        0 <= i <= j <= src.len(),
        c is Owned ==> has_backslash(src.subrange(i, j)),
        cow_bytes(c) == unescape(src.subrange(i, j)),
    ensures
        kept(c, src),
{
}

/// A string kept from a stretch of `src` is kept from `src`.
pub proof fn lemma_kept_within(c: Cow<'_, str>, src: Seq<u8>, a: int, e: int)
    requires
        0 <= a <= e <= src.len(),
        kept(c, src.subrange(a, e)),
    ensures
        kept(c, src),
{
    if !(c is Borrowed) {
        let t = src.subrange(a, e);
        let (i, j) = choose|i: int, j: int|
            0 <= i <= j <= t.len() && has_backslash(#[trigger] t.subrange(i, j)) && unescape(t.subrange(i, j))
                == cow_bytes(c);
        assert(t.subrange(i, j) =~= src.subrange(a + i, a + j));
        assert(has_backslash(src.subrange(a + i, a + j)));
    }
}

/// A string kept from text without a backslash borrows it.
pub proof fn lemma_kept_plain(c: Cow<'_, str>, src: Seq<u8>)
    requires
        kept(c, src),
        plain(src),
    ensures
        c is Borrowed,
{
    if !(c is Borrowed) {
        let (i, j) = choose|i: int, j: int|
            0 <= i <= j <= src.len() && has_backslash(#[trigger] src.subrange(i, j)) && unescape(src.subrange(i, j))
                == cow_bytes(c);
        let k = choose|k: int| 0 <= k < src.subrange(i, j).len() && src.subrange(i, j)[k] == 0x5c;
        assert(src[i + k] == 0x5c);
    }
}

/// A family kept from text without a backslash borrows every string.
pub proof fn law_unescaped_text_borrows(f: MetricFamily<'_>, src: Seq<u8>)
    requires
        family_kept(f, src),
        plain(src),
    ensures
        family_borrows(f),
{
    assert forall|c: Cow<'_, str>| kept(c, src) implies #[trigger] borrows(c) by {
        lemma_kept_plain(c, src);
    }
}

// ---------------------------------------------------------------------------
// Detaching from the buffer
// ---------------------------------------------------------------------------

fn opt_owned(c: Option<Cow<'_, str>>) -> (r: Option<String>)
    ensures
        match (r, c) {
            (Some(a), Some(b)) => encode_utf8(a@) == encode_utf8(b@),
            (None, None) => true,
            _ => false,
        },
{
    match c {
        Some(c) => Some(cow_into_owned(c)),
        None => None,
    }
}

/// Copy each item out of its buffer, in order.
fn labels_into_owned<'a>(v: Vec<LabelPair<'a>>) -> (r: Vec<owned::LabelPair>)
    ensures
        r.deep_view() == v.deep_view(),
{
    let ghost orig = v@;
    let ghost dv = v.deep_view();
    let n = v.len();
    let mut rest = reversed(v);
    let mut out: Vec<owned::LabelPair> = Vec::new();
    while rest.len() > 0
        invariant
            n == orig.len(),
            dv.len() == n,
            forall|j: int| 0 <= j < n ==> #[trigger] dv[j] == orig[j].deep_view(),
            out@.len() + rest@.len() == n,
            forall|j: int| 0 <= j < rest@.len() ==> #[trigger] rest@[j] == orig[n - 1 - j],
            out.deep_view() == dv.take(out@.len() as int),
        decreases rest@.len(),
    {
        let ghost k = out@.len() as int;
        let x = rest.pop().unwrap();
        assert(x == orig[k]);
        let y = x.into_owned();
        let ghost before = out.deep_view();
        out.push(y);
        assert(out.deep_view() =~= dv.take(k + 1));
    }
    assert(dv.take(n as int) =~= dv);
    out
}

/// Copy each item out of its buffer, in order.
fn exemplars_into_owned<'a>(v: Vec<Exemplar<'a>>) -> (r: Vec<owned::Exemplar>)
    ensures
        r.deep_view() == v.deep_view(),
{
    let ghost orig = v@;
    let ghost dv = v.deep_view();
    let n = v.len();
    let mut rest = reversed(v);
    let mut out: Vec<owned::Exemplar> = Vec::new();
    while rest.len() > 0
        invariant
            n == orig.len(),
            dv.len() == n,
            forall|j: int| 0 <= j < n ==> #[trigger] dv[j] == orig[j].deep_view(),
            out@.len() + rest@.len() == n,
            forall|j: int| 0 <= j < rest@.len() ==> #[trigger] rest@[j] == orig[n - 1 - j],
            out.deep_view() == dv.take(out@.len() as int),
        decreases rest@.len(),
    {
        let ghost k = out@.len() as int;
        let x = rest.pop().unwrap();
        assert(x == orig[k]);
        let y = x.into_owned();
        let ghost before = out.deep_view();
        out.push(y);
        assert(out.deep_view() =~= dv.take(k + 1));
    }
    assert(dv.take(n as int) =~= dv);
    out
}

/// Copy each item out of its buffer, in order.
fn bucket_ints_into_owned<'a>(v: Vec<BucketInt<'a>>) -> (r: Vec<owned::BucketInt>)
    ensures
        r.deep_view() == v.deep_view(),
{
    let ghost orig = v@;
    let ghost dv = v.deep_view();
    let n = v.len();
    let mut rest = reversed(v);
    let mut out: Vec<owned::BucketInt> = Vec::new();
    while rest.len() > 0
        invariant
            n == orig.len(),
            dv.len() == n,
            forall|j: int| 0 <= j < n ==> #[trigger] dv[j] == orig[j].deep_view(),
            out@.len() + rest@.len() == n,
            forall|j: int| 0 <= j < rest@.len() ==> #[trigger] rest@[j] == orig[n - 1 - j],
            out.deep_view() == dv.take(out@.len() as int),
        decreases rest@.len(),
    {
        let ghost k = out@.len() as int;
        let x = rest.pop().unwrap();
        assert(x == orig[k]);
        let y = x.into_owned();
        let ghost before = out.deep_view();
        out.push(y);
        assert(out.deep_view() =~= dv.take(k + 1));
    }
    assert(dv.take(n as int) =~= dv);
    out
}

/// Copy each item out of its buffer, in order.
fn bucket_floats_into_owned<'a>(v: Vec<BucketFloat<'a>>) -> (r: Vec<owned::BucketFloat>)
    ensures
        r.deep_view() == v.deep_view(),
{
    let ghost orig = v@;
    let ghost dv = v.deep_view();
    let n = v.len();
    let mut rest = reversed(v);
    let mut out: Vec<owned::BucketFloat> = Vec::new();
    while rest.len() > 0
        invariant
            n == orig.len(),
            dv.len() == n,
            forall|j: int| 0 <= j < n ==> #[trigger] dv[j] == orig[j].deep_view(),
            out@.len() + rest@.len() == n,
            forall|j: int| 0 <= j < rest@.len() ==> #[trigger] rest@[j] == orig[n - 1 - j],
            out.deep_view() == dv.take(out@.len() as int),
        decreases rest@.len(),
    {
        let ghost k = out@.len() as int;
        let x = rest.pop().unwrap();
        assert(x == orig[k]);
        let y = x.into_owned();
        let ghost before = out.deep_view();
        out.push(y);
        assert(out.deep_view() =~= dv.take(k + 1));
    }
    assert(dv.take(n as int) =~= dv);
    out
}

/// Copy each item out of its buffer, in order.
fn states_into_owned<'a>(v: Vec<State<'a>>) -> (r: Vec<owned::State>)
    ensures
        r.deep_view() == v.deep_view(),
{
    let ghost orig = v@;
    let ghost dv = v.deep_view();
    let n = v.len();
    let mut rest = reversed(v);
    let mut out: Vec<owned::State> = Vec::new();
    while rest.len() > 0
        invariant
            n == orig.len(),
            dv.len() == n,
            forall|j: int| 0 <= j < n ==> #[trigger] dv[j] == orig[j].deep_view(),
            out@.len() + rest@.len() == n,
            forall|j: int| 0 <= j < rest@.len() ==> #[trigger] rest@[j] == orig[n - 1 - j],
            out.deep_view() == dv.take(out@.len() as int),
        decreases rest@.len(),
    {
        let ghost k = out@.len() as int;
        let x = rest.pop().unwrap();
        assert(x == orig[k]);
        let y = x.into_owned();
        let ghost before = out.deep_view();
        out.push(y);
        assert(out.deep_view() =~= dv.take(k + 1));
    }
    assert(dv.take(n as int) =~= dv);
    out
}

/// Copy each item out of its buffer, in order.
fn metrics_into_owned<'a>(v: Vec<Metric<'a>>) -> (r: Vec<owned::Metric>)
    ensures
        r.deep_view() == v.deep_view(),
{
    let ghost orig = v@;
    let ghost dv = v.deep_view();
    let n = v.len();
    let mut rest = reversed(v);
    let mut out: Vec<owned::Metric> = Vec::new();
    while rest.len() > 0
        invariant
            n == orig.len(),
            dv.len() == n,
            forall|j: int| 0 <= j < n ==> #[trigger] dv[j] == orig[j].deep_view(),
            out@.len() + rest@.len() == n,
            forall|j: int| 0 <= j < rest@.len() ==> #[trigger] rest@[j] == orig[n - 1 - j],
            out.deep_view() == dv.take(out@.len() as int),
        decreases rest@.len(),
    {
        let ghost k = out@.len() as int;
        let x = rest.pop().unwrap();
        assert(x == orig[k]);
        let y = x.into_owned();
        let ghost before = out.deep_view();
        out.push(y);
        assert(out.deep_view() =~= dv.take(k + 1));
    }
    assert(dv.take(n as int) =~= dv);
    out
}

impl<'a> LabelPair<'a> {
    /// The same label, copied out of the buffer.
    pub fn into_owned(self) -> (r: owned::LabelPair)
        ensures
            r.deep_view() == self.deep_view(),
    {
        owned::LabelPair { name: cow_into_owned(self.name), value: cow_into_owned(self.value) }
    }
}

impl<'a> Exemplar<'a> {
    /// The same exemplar, copied out of the buffer.
    pub fn into_owned(self) -> (r: owned::Exemplar)
        ensures
            r.deep_view() == self.deep_view(),
    {
        owned::Exemplar { label: labels_into_owned(self.label), value: self.value, timestamp: self.timestamp }
    }
}

fn opt_exemplar_into_owned(e: Option<Exemplar<'_>>) -> (r: Option<owned::Exemplar>)
    ensures
        r.deep_view() == e.deep_view(),
{
    match e {
        Some(e) => Some(e.into_owned()),
        None => None,
    }
}

impl<'a> Counter<'a> {
    /// The same counter, copied out of the buffer.
    pub fn into_owned(self) -> (r: owned::Counter)
        ensures
            r.deep_view() == self.deep_view(),
    {
        owned::Counter {
            value: self.value,
            exemplar: opt_exemplar_into_owned(self.exemplar),
            created_timestamp: self.created_timestamp,
        }
    }
}

impl<'a> BucketInt<'a> {
    /// The same bucket, copied out of the buffer.
    pub fn into_owned(self) -> (r: owned::BucketInt)
        ensures
            r.deep_view() == self.deep_view(),
    {
        owned::BucketInt {
            cumulative_count: self.cumulative_count,
            upper_bound: self.upper_bound,
            exemplar: opt_exemplar_into_owned(self.exemplar),
        }
    }
}

impl<'a> BucketFloat<'a> {
    /// The same bucket, copied out of the buffer.
    pub fn into_owned(self) -> (r: owned::BucketFloat)
        ensures
            r.deep_view() == self.deep_view(),
    {
        owned::BucketFloat {
            cumulative_count: self.cumulative_count,
            upper_bound: self.upper_bound,
            exemplar: opt_exemplar_into_owned(self.exemplar),
        }
    }
}

impl<'a> BucketCount<'a> {
    /// The same bucket counts, copied out of the buffer.
    pub fn into_owned(self) -> (r: owned::BucketCount)
        ensures
            r.deep_view() == self.deep_view(),
    {
        match self {
            BucketCount::Int { sample_count, buckets } => owned::BucketCount::Int {
                sample_count,
                buckets: bucket_ints_into_owned(buckets),
            },
            BucketCount::Float { sample_count, buckets } => owned::BucketCount::Float {
                sample_count,
                buckets: bucket_floats_into_owned(buckets),
            },
        }
    }
}

impl<'a> Histogram<'a> {
    /// The same histogram, copied out of the buffer.
    pub fn into_owned(self) -> (r: owned::Histogram)
        ensures
            r.deep_view() == self.deep_view(),
    {
        owned::Histogram {
            sample_sum: self.sample_sum,
            counts: self.counts.into_owned(),
            created_timestamp: self.created_timestamp,
        }
    }
}

impl<'a> NativeHistogram<'a> {
    /// The same native histogram, copied out of the buffer.
    pub fn into_owned(self) -> (r: owned::NativeHistogram)
        ensures
            r.deep_view() == self.deep_view(),
    {
        owned::NativeHistogram {
            schema: self.schema,
            zero_threshold: self.zero_threshold,
            sample_sum: self.sample_sum,
            counts: self.counts,
            exemplars: exemplars_into_owned(self.exemplars),
            created_timestamp: self.created_timestamp,
        }
    }
}

impl<'a> Info<'a> {
    /// The same info payload, copied out of the buffer.
    pub fn into_owned(self) -> (r: owned::Info)
        ensures
            r.labels.deep_view() == self.labels.deep_view(),
    {
        owned::Info { labels: labels_into_owned(self.labels) }
    }
}

impl<'a> State<'a> {
    /// The same state, copied out of the buffer.
    pub fn into_owned(self) -> (r: owned::State)
        ensures
            r.deep_view() == self.deep_view(),
    {
        owned::State { name: cow_into_owned(self.name), value: self.value }
    }
}

impl<'a> StateSet<'a> {
    /// The same state set, copied out of the buffer.
    pub fn into_owned(self) -> (r: owned::StateSet)
        ensures
            r.states.deep_view() == self.states.deep_view(),
    {
        owned::StateSet { states: states_into_owned(self.states) }
    }
}

impl<'a> MetricValue<'a> {
    /// The same value, copied out of the buffer.
    pub fn into_owned(self) -> (r: owned::MetricValue)
        ensures
            r.deep_view() == self.deep_view(),
    {
        match self {
            MetricValue::Counter(c) => owned::MetricValue::Counter(c.into_owned()),
            MetricValue::Gauge(n) => owned::MetricValue::Gauge(n),
            MetricValue::Summary(s) => owned::MetricValue::Summary(s),
            MetricValue::Untyped(n) => owned::MetricValue::Untyped(n),
            MetricValue::Histogram(h) => owned::MetricValue::Histogram(h.into_owned()),
            MetricValue::GaugeHistogram(h) => owned::MetricValue::GaugeHistogram(h.into_owned()),
            MetricValue::NativeHistogram(h) => owned::MetricValue::NativeHistogram(h.into_owned()),
            MetricValue::HybridHistogram { classic, native } => owned::MetricValue::HybridHistogram {
                classic: classic.into_owned(),
                native: native.into_owned(),
            },
            MetricValue::StateSet(s) => owned::MetricValue::StateSet(s.into_owned()),
            MetricValue::Info(i) => owned::MetricValue::Info(i.into_owned()),
        }
    }
}

impl<'a> Metric<'a> {
    /// The same metric, copied out of the buffer.
    pub fn into_owned(self) -> (r: owned::Metric)
        ensures
            r.deep_view() == self.deep_view(),
    {
        owned::Metric { label: labels_into_owned(self.label), value: self.value.into_owned(), timestamp: self.timestamp }
    }
}

impl<'a> MetricFamily<'a> {
    /// The same family, with every string copied out of the input buffer:
    /// both denote the same model value.
    pub fn into_owned(self) -> (r: owned::MetricFamily)
        ensures
            r.deep_view() == self.deep_view(),
    {
        owned::MetricFamily {
            name: cow_into_owned(self.name),
            help: opt_owned(self.help),
            metric_type: self.metric_type,
            metric: metrics_into_owned(self.metric),
            unit: opt_owned(self.unit),
        }
    }
}

} // verus!
