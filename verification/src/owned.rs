//! The owned data model: every value here owns its data and so outlives the
//! buffer it was parsed from.
//!
//! Floating-point values are kept as they were written ([`FloatValue`]) and
//! text timestamps together with the unit they are read in
//! ([`TimestampValue`]); turning those into `f64` and instants is left to the
//! consumer.

use vstd::prelude::*;
use vstd::utf8::encode_utf8;

use crate::model::{
    SpecBucketCount, SpecBucketFloat, SpecBucketInt, SpecCounter, SpecExemplar, SpecFamily, SpecFloat,
    SpecHistogram, SpecLabel, SpecMetric, SpecNativeCounts, SpecNativeHistogram, SpecNumber,
    SpecQuantile, SpecState, SpecSummary, SpecTs, SpecUnsigned, SpecValue,
};

verus! {

/// A timestamp as seconds and nanoseconds since the Unix epoch.
#[derive(Debug, Clone, Copy, PartialEq, Eq, Structural)]
pub struct Timestamp {
    pub seconds: i64,
    pub nanos: i32,
}

/// How a numeric timestamp token is to be read.
#[derive(Debug, Clone, Copy, PartialEq, Eq, Structural)]
pub enum TimeUnit {
    /// Seconds since the Unix epoch (possibly fractional).
    Seconds,
    /// Milliseconds since the Unix epoch.
    Milliseconds,
    /// An integer whose unit is unknown: read as seconds or as milliseconds,
    /// whichever lands closer to the current time (a tie favours seconds).
    Nearest,
}

/// A floating-point value, as it was written.
#[derive(Debug, Clone)]
pub enum FloatValue {
    /// The `f64` that this decimal literal parses to.
    Decimal(String),
    /// The `f64` with this IEEE-754 bit pattern.
    Bits(u64),
    /// The `f64` nearest this integer.
    Unsigned(u64),
}

impl DeepView for FloatValue {
    type V = SpecFloat;

    open spec fn deep_view(&self) -> SpecFloat {
        match self {
            FloatValue::Decimal(s) => SpecFloat::Decimal(encode_utf8(s@)),
            FloatValue::Bits(b) => SpecFloat::Bits(*b),
            FloatValue::Unsigned(u) => SpecFloat::Unsigned(*u),
        }
    }
}

/// A point in time.
#[derive(Debug, Clone)]
pub enum TimestampValue {
    Exact(Timestamp),
    /// A numeric token and the unit it is read in.
    Decimal { text: String, unit: TimeUnit },
}

impl DeepView for TimestampValue {
    type V = SpecTs;

    open spec fn deep_view(&self) -> SpecTs {
        match self {
            TimestampValue::Exact(t) => SpecTs::Exact(*t),
            TimestampValue::Decimal { text, unit } => SpecTs::Decimal(encode_utf8(text@), *unit),
        }
    }
}

/// A signed number that keeps whether it was written as an integer.
#[derive(Debug, Clone)]
pub enum Number {
    Int(i64),
    Float(FloatValue),
}

impl DeepView for Number {
    type V = SpecNumber;

    open spec fn deep_view(&self) -> SpecNumber {
        match self {
            Number::Int(i) => SpecNumber::Int(*i),
            Number::Float(f) => SpecNumber::Float(f.deep_view()),
        }
    }
}

/// An unsigned number that keeps whether it was written as an integer.
#[derive(Debug, Clone)]
pub enum UnsignedNumber {
    Uint(u64),
    Float(FloatValue),
}

impl DeepView for UnsignedNumber {
    type V = SpecUnsigned;

    open spec fn deep_view(&self) -> SpecUnsigned {
        match self {
            UnsignedNumber::Uint(u) => SpecUnsigned::Uint(*u),
            UnsignedNumber::Float(f) => SpecUnsigned::Float(f.deep_view()),
        }
    }
}

#[derive(Debug)]
pub struct LabelPair {
    pub name: String,
    pub value: String,
}

impl DeepView for LabelPair {
    type V = SpecLabel;

    open spec fn deep_view(&self) -> SpecLabel {
        SpecLabel { name: encode_utf8(self.name@), value: encode_utf8(self.value@) }
    }
}

#[derive(Debug)]
pub struct Exemplar {
    pub label: Vec<LabelPair>,
    pub value: FloatValue,
    pub timestamp: Option<TimestampValue>,
}

impl DeepView for Exemplar {
    type V = SpecExemplar;

    open spec fn deep_view(&self) -> SpecExemplar {
        SpecExemplar {
            label: self.label.deep_view(),
            value: self.value.deep_view(),
            timestamp: self.timestamp.deep_view(),
        }
    }
}

#[derive(Debug)]
pub struct Counter {
    pub value: UnsignedNumber,
    pub exemplar: Option<Exemplar>,
    pub created_timestamp: Option<TimestampValue>,
}

impl DeepView for Counter {
    type V = SpecCounter;

    open spec fn deep_view(&self) -> SpecCounter {
        SpecCounter {
            value: self.value.deep_view(),
            exemplar: self.exemplar.deep_view(),
            created_timestamp: self.created_timestamp.deep_view(),
        }
    }
}

#[derive(Debug)]
pub struct Quantile {
    pub quantile: FloatValue,
    pub value: FloatValue,
}

impl DeepView for Quantile {
    type V = SpecQuantile;

    open spec fn deep_view(&self) -> SpecQuantile {
        SpecQuantile { quantile: self.quantile.deep_view(), value: self.value.deep_view() }
    }
}

/// A summary. A text count written as a float is kept as written (it reads
/// as that float cast to `u64`).
#[derive(Debug)]
pub struct Summary {
    pub sample_count: Option<UnsignedNumber>,
    pub sample_sum: Option<Number>,
    pub quantile: Vec<Quantile>,
    pub created_timestamp: Option<TimestampValue>,
}

impl DeepView for Summary {
    type V = SpecSummary;

    open spec fn deep_view(&self) -> SpecSummary {
        SpecSummary {
            sample_count: self.sample_count.deep_view(),
            sample_sum: self.sample_sum.deep_view(),
            quantile: self.quantile.deep_view(),
            created_timestamp: self.created_timestamp.deep_view(),
        }
    }
}

#[derive(Debug)]
pub struct BucketInt {
    pub cumulative_count: u64,
    pub upper_bound: FloatValue,
    pub exemplar: Option<Exemplar>,
}

impl DeepView for BucketInt {
    type V = SpecBucketInt;

    open spec fn deep_view(&self) -> SpecBucketInt {
        SpecBucketInt {
            cumulative_count: self.cumulative_count,
            upper_bound: self.upper_bound.deep_view(),
            exemplar: self.exemplar.deep_view(),
        }
    }
}

#[derive(Debug)]
pub struct BucketFloat {
    pub cumulative_count: FloatValue,
    pub upper_bound: FloatValue,
    pub exemplar: Option<Exemplar>,
}

impl DeepView for BucketFloat {
    type V = SpecBucketFloat;

    open spec fn deep_view(&self) -> SpecBucketFloat {
        SpecBucketFloat {
            cumulative_count: self.cumulative_count.deep_view(),
            upper_bound: self.upper_bound.deep_view(),
            exemplar: self.exemplar.deep_view(),
        }
    }
}

#[derive(Debug)]
pub enum BucketCount {
    Int { sample_count: Option<u64>, buckets: Vec<BucketInt> },
    Float { sample_count: Option<FloatValue>, buckets: Vec<BucketFloat> },
}

impl DeepView for BucketCount {
    type V = SpecBucketCount;

    open spec fn deep_view(&self) -> SpecBucketCount {
        match self {
            BucketCount::Int { sample_count, buckets } => SpecBucketCount::Int {
                sample_count: *sample_count,
                buckets: buckets.deep_view(),
            },
            BucketCount::Float { sample_count, buckets } => SpecBucketCount::Float {
                sample_count: sample_count.deep_view(),
                buckets: buckets.deep_view(),
            },
        }
    }
}

#[derive(Debug)]
pub struct Histogram {
    pub sample_sum: Option<Number>,
    pub counts: BucketCount,
    pub created_timestamp: Option<TimestampValue>,
}

impl DeepView for Histogram {
    type V = SpecHistogram;

    open spec fn deep_view(&self) -> SpecHistogram {
        SpecHistogram {
            sample_sum: self.sample_sum.deep_view(),
            counts: self.counts.deep_view(),
            created_timestamp: self.created_timestamp.deep_view(),
        }
    }
}

#[derive(Debug, Clone, Copy, PartialEq, Eq, Structural)]
pub struct BucketSpan {
    pub offset: i32,
    pub length: u32,
}

#[derive(Debug)]
pub enum NativeCounts {
    Int {
        sample_count: Option<u64>,
        zero_count: u64,
        positive_spans: Vec<BucketSpan>,
        positive_deltas: Vec<i64>,
        negative_spans: Vec<BucketSpan>,
        negative_deltas: Vec<i64>,
    },
    Float {
        sample_count: Option<FloatValue>,
        zero_count: FloatValue,
        positive_spans: Vec<BucketSpan>,
        positive_counts: Vec<FloatValue>,
        negative_spans: Vec<BucketSpan>,
        negative_counts: Vec<FloatValue>,
    },
}

impl DeepView for NativeCounts {
    type V = SpecNativeCounts;

    open spec fn deep_view(&self) -> SpecNativeCounts {
        match self {
            NativeCounts::Int {
                sample_count,
                zero_count,
                positive_spans,
                positive_deltas,
                negative_spans,
                negative_deltas,
            } => SpecNativeCounts::Int {
                sample_count: *sample_count,
                zero_count: *zero_count,
                positive_spans: positive_spans@,
                positive_deltas: positive_deltas@,
                negative_spans: negative_spans@,
                negative_deltas: negative_deltas@,
            },
            NativeCounts::Float {
                sample_count,
                zero_count,
                positive_spans,
                positive_counts,
                negative_spans,
                negative_counts,
            } => SpecNativeCounts::Float {
                sample_count: sample_count.deep_view(),
                zero_count: zero_count.deep_view(),
                positive_spans: positive_spans@,
                positive_counts: positive_counts.deep_view(),
                negative_spans: negative_spans@,
                negative_counts: negative_counts.deep_view(),
            },
        }
    }
}

#[derive(Debug)]
pub struct NativeHistogram {
    pub schema: i32,
    pub zero_threshold: FloatValue,
    pub sample_sum: Option<Number>,
    pub counts: NativeCounts,
    pub exemplars: Vec<Exemplar>,
    pub created_timestamp: Option<TimestampValue>,
}

impl DeepView for NativeHistogram {
    type V = SpecNativeHistogram;

    open spec fn deep_view(&self) -> SpecNativeHistogram {
        SpecNativeHistogram {
            schema: self.schema,
            zero_threshold: self.zero_threshold.deep_view(),
            sample_sum: self.sample_sum.deep_view(),
            counts: self.counts.deep_view(),
            exemplars: self.exemplars.deep_view(),
            created_timestamp: self.created_timestamp.deep_view(),
        }
    }
}

#[derive(Debug)]
pub struct Info {
    /// The info label set (the payload). The sample value is always 1.
    pub labels: Vec<LabelPair>,
}

/// One state of a state set, with the sample value that says whether it is
/// enabled (any value other than zero).
#[derive(Debug)]
pub struct State {
    pub name: String,
    pub value: Number,
}

impl DeepView for State {
    type V = SpecState;

    open spec fn deep_view(&self) -> SpecState {
        SpecState { name: encode_utf8(self.name@), value: self.value.deep_view() }
    }
}

#[derive(Debug)]
pub struct StateSet {
    pub states: Vec<State>,
}

#[derive(Debug)]
pub enum MetricValue {
    Counter(Counter),
    Gauge(Number),
    Summary(Summary),
    Untyped(Number),
    Histogram(Histogram),
    GaugeHistogram(Histogram),
    NativeHistogram(NativeHistogram),
    HybridHistogram { classic: Histogram, native: NativeHistogram },
    StateSet(StateSet),
    Info(Info),
}

impl DeepView for MetricValue {
    type V = SpecValue;

    open spec fn deep_view(&self) -> SpecValue {
        match self {
            MetricValue::Counter(c) => SpecValue::Counter(c.deep_view()),
            MetricValue::Gauge(n) => SpecValue::Gauge(n.deep_view()),
            MetricValue::Summary(s) => SpecValue::Summary(s.deep_view()),
            MetricValue::Untyped(n) => SpecValue::Untyped(n.deep_view()),
            MetricValue::Histogram(h) => SpecValue::Histogram(h.deep_view()),
            MetricValue::GaugeHistogram(h) => SpecValue::GaugeHistogram(h.deep_view()),
            MetricValue::NativeHistogram(h) => SpecValue::NativeHistogram(h.deep_view()),
            MetricValue::HybridHistogram { classic, native } => SpecValue::HybridHistogram(
                classic.deep_view(),
                native.deep_view(),
            ),
            MetricValue::StateSet(s) => SpecValue::StateSet(s.states.deep_view()),
            MetricValue::Info(i) => SpecValue::Info(i.labels.deep_view()),
        }
    }
}

/// The kind of a metric family.
#[derive(Debug, Clone, Copy, PartialEq, Eq, Structural)]
pub enum MetricType {
    Counter,
    Gauge,
    Summary,
    Untyped,
    Histogram,
    GaugeHistogram,
    NativeHistogram,
    HybridHistogram,
    StateSet,
    Info,
}

#[derive(Debug)]
pub struct Metric {
    pub label: Vec<LabelPair>,
    pub value: MetricValue,
    pub timestamp: Option<TimestampValue>,
}

impl DeepView for Metric {
    type V = SpecMetric;

    open spec fn deep_view(&self) -> SpecMetric {
        SpecMetric {
            label: self.label.deep_view(),
            value: self.value.deep_view(),
            timestamp: self.timestamp.deep_view(),
        }
    }
}

/// A group of metrics sharing a name, type, and metadata.
#[derive(Debug)]
pub struct MetricFamily {
    pub name: String,
    pub help: Option<String>,
    pub metric_type: MetricType,
    pub metric: Vec<Metric>,
    pub unit: Option<String>,
}

impl DeepView for MetricFamily {
    type V = SpecFamily;

    open spec fn deep_view(&self) -> SpecFamily {
        SpecFamily {
            name: encode_utf8(self.name@),
            help: match self.help {
                Some(h) => Some(encode_utf8(h@)),
                None => None,
            },
            typ: self.metric_type,
            metric: self.metric.deep_view(),
            unit: match self.unit {
                Some(u) => Some(encode_utf8(u@)),
                None => None,
            },
        }
    }
}

} // verus!
