//! The mathematical model of a parsed metric family: what a borrowed or an
//! owned family denotes, with every string taken as its UTF-8 bytes.
//!
//! The borrowed ([`crate::borrowed`]) and owned ([`crate::owned`]) data models
//! both view into these types, which is how the contracts say that copying a
//! family out of its buffer changes nothing it says.

use vstd::prelude::*;

use crate::owned::{BucketSpan, MetricType, TimeUnit, Timestamp};

verus! {

/// A floating-point value, as it was written: the decimal text it is parsed
/// from, an IEEE-754 bit pattern, or an unsigned integer converted to `f64`.
pub enum SpecFloat {
    Decimal(Seq<u8>),
    Bits(u64),
    Unsigned(u64),
}

/// A point in time: exact, or a numeric token read in a unit.
pub enum SpecTs {
    Exact(Timestamp),
    Decimal(Seq<u8>, TimeUnit),
}

pub enum SpecNumber {
    Int(i64),
    Float(SpecFloat),
}

pub enum SpecUnsigned {
    Uint(u64),
    Float(SpecFloat),
}

pub struct SpecLabel {
    pub name: Seq<u8>,
    pub value: Seq<u8>,
}

pub struct SpecExemplar {
    pub label: Seq<SpecLabel>,
    pub value: SpecFloat,
    pub timestamp: Option<SpecTs>,
}

pub struct SpecCounter {
    pub value: SpecUnsigned,
    pub exemplar: Option<SpecExemplar>,
    pub created_timestamp: Option<SpecTs>,
}

pub struct SpecQuantile {
    pub quantile: SpecFloat,
    pub value: SpecFloat,
}

pub struct SpecSummary {
    pub sample_count: Option<SpecUnsigned>,
    pub sample_sum: Option<SpecNumber>,
    pub quantile: Seq<SpecQuantile>,
    pub created_timestamp: Option<SpecTs>,
}

pub struct SpecBucketInt {
    pub cumulative_count: u64,
    pub upper_bound: SpecFloat,
    pub exemplar: Option<SpecExemplar>,
}

pub struct SpecBucketFloat {
    pub cumulative_count: SpecFloat,
    pub upper_bound: SpecFloat,
    pub exemplar: Option<SpecExemplar>,
}

pub enum SpecBucketCount {
    Int { sample_count: Option<u64>, buckets: Seq<SpecBucketInt> },
    Float { sample_count: Option<SpecFloat>, buckets: Seq<SpecBucketFloat> },
}

pub struct SpecHistogram {
    pub sample_sum: Option<SpecNumber>,
    pub counts: SpecBucketCount,
    pub created_timestamp: Option<SpecTs>,
}

pub enum SpecNativeCounts {
    Int {
        sample_count: Option<u64>,
        zero_count: u64,
        positive_spans: Seq<BucketSpan>,
        positive_deltas: Seq<i64>,
        negative_spans: Seq<BucketSpan>,
        negative_deltas: Seq<i64>,
    },
    Float {
        sample_count: Option<SpecFloat>,
        zero_count: SpecFloat,
        positive_spans: Seq<BucketSpan>,
        positive_counts: Seq<SpecFloat>,
        negative_spans: Seq<BucketSpan>,
        negative_counts: Seq<SpecFloat>,
    },
}

pub struct SpecNativeHistogram {
    pub schema: i32,
    pub zero_threshold: SpecFloat,
    pub sample_sum: Option<SpecNumber>,
    pub counts: SpecNativeCounts,
    pub exemplars: Seq<SpecExemplar>,
    pub created_timestamp: Option<SpecTs>,
}

pub struct SpecState {
    pub name: Seq<u8>,
    pub value: SpecNumber,
}

pub enum SpecValue {
    Counter(SpecCounter),
    Gauge(SpecNumber),
    Summary(SpecSummary),
    Untyped(SpecNumber),
    Histogram(SpecHistogram),
    GaugeHistogram(SpecHistogram),
    NativeHistogram(SpecNativeHistogram),
    HybridHistogram(SpecHistogram, SpecNativeHistogram),
    StateSet(Seq<SpecState>),
    Info(Seq<SpecLabel>),
}

pub struct SpecMetric {
    pub label: Seq<SpecLabel>,
    pub value: SpecValue,
    pub timestamp: Option<SpecTs>,
}

pub struct SpecFamily {
    pub name: Seq<u8>,
    pub help: Option<Seq<u8>>,
    pub typ: MetricType,
    pub metric: Seq<SpecMetric>,
    pub unit: Option<Seq<u8>>,
}

} // verus!
