//! The messages of the `io.prometheus.client` schema, decoded from their
//! wire records into plain values.
//!
//! `double` fields are kept as their IEEE-754 bit patterns. A singular
//! message field that never occurs is unset (`is_set` false) and its other
//! fields are not read. Field numbers follow `metrics.proto`:
//!
//! * `MetricFamily`: name 1, help 2, type 3, metric 4, unit 5;
//! * `Metric`: label 1, gauge 2, counter 3, summary 4, untyped 5,
//!   timestamp_ms 6, histogram 7;
//! * `LabelPair`: name 1, value 2; `Gauge` / `Untyped`: value 1;
//! * `Counter`: value 1, exemplar 2, created_timestamp 3;
//! * `Quantile`: quantile 1, value 2;
//! * `Summary`: sample_count 1, sample_sum 2, quantile 3, created_timestamp 4;
//! * `Histogram`: sample_count 1, sample_sum 2, bucket 3, sample_count_float 4,
//!   schema 5, zero_threshold 6, zero_count 7, zero_count_float 8,
//!   negative_span 9, negative_delta 10, negative_count 11, positive_span 12,
//!   positive_delta 13, positive_count 14, created_timestamp 15, exemplars 16;
//! * `Bucket`: cumulative_count 1, upper_bound 2, exemplar 3,
//!   cumulative_count_float 4; `BucketSpan`: offset 1, length 2;
//! * `Exemplar`: label 1, value 2, timestamp 3;
//! * `google.protobuf.Timestamp`: seconds 1, nanos 2.

use vstd::prelude::*;
use vstd::string::StringSliceAdditionalSpecFns;
use vstd::utf8::*;

use std::borrow::Cow;

use crate::borrowed::opt_borrows;

use super::wire::{
    decode_wire, fixed64_field, fixed64_list, message_field, message_list, payloads, spec_fixed64_field,
    spec_fixed64_list, spec_message_field, spec_string_field, spec_varint_field, spec_varint_list, string_field,
    typed, varint_field, varint_list, wire_fields, opt_payload_bytes, Payload, WireKind, merged_field, opt_fields,
    spec_merged_field, SpecWireField, WireField,
};

verus! {

// ---------------------------------------------------------------------------
// Scalars from varints
// ---------------------------------------------------------------------------

/// `int64`: the two's-complement reading of the 64 bits.
pub open spec fn int64_of(v: u64) -> i64 {
    if v < 0x8000_0000_0000_0000 {
        v as i64
    } else {
        (v - 0x1_0000_0000_0000_0000) as i64
    }
}

/// `int32`: the two's-complement reading of the low 32 bits.
pub open spec fn int32_of(v: u64) -> i32 {
    let w = v % 0x1_0000_0000;
    if w < 0x8000_0000 {
        w as i32
    } else {
        (w - 0x1_0000_0000) as i32
    }
}

/// `uint32`: the low 32 bits.
pub open spec fn uint32_of(v: u64) -> u32 {
    (v % 0x1_0000_0000) as u32
}

/// `sint32`: the zigzag reading of the low 32 bits.
pub open spec fn sint32_of(v: u64) -> i32 {
    let w = v % 0x1_0000_0000;
    if w % 2 == 0 {
        (w / 2) as i32
    } else {
        (-(w / 2) - 1) as i32
    }
}

/// `sint64`: the zigzag reading of the 64 bits.
pub open spec fn sint64_of(v: u64) -> i64 {
    if v % 2 == 0 {
        (v / 2) as i64
    } else {
        (-(v / 2) - 1) as i64
    }
}

pub fn int64_from(v: u64) -> (r: i64)
    ensures
        r == int64_of(v),
{
    if v < 0x8000_0000_0000_0000 {
        v as i64
    } else {
        -((u64::MAX - v) as i64) - 1
    }
}

pub fn int32_from(v: u64) -> (r: i32)
    ensures
        r == int32_of(v),
{
    let w = (v % 0x1_0000_0000) as u32;
    if w < 0x8000_0000 {
        w as i32
    } else {
        -((u32::MAX - w) as i32) - 1
    }
}

pub fn uint32_from(v: u64) -> (r: u32)
    ensures
        r == uint32_of(v),
{
    (v % 0x1_0000_0000) as u32
}

pub fn sint32_from(v: u64) -> (r: i32)
    ensures
        r == sint32_of(v),
{
    let w = (v % 0x1_0000_0000) as u32;
    let h = (w / 2) as i32;
    if w % 2 == 0 {
        h
    } else {
        -h - 1
    }
}

pub fn sint64_from(v: u64) -> (r: i64)
    ensures
        r == sint64_of(v),
{
    let h = (v / 2) as i64;
    if v % 2 == 0 {
        h
    } else {
        -h - 1
    }
}

pub open spec fn opt_map_i32(o: Option<u64>, zig: bool) -> Option<i32> {
    match o {
        Some(v) => Some(if zig { sint32_of(v) } else { int32_of(v) }),
        None => None,
    }
}

pub open spec fn opt_string_bytes(o: Option<Cow<'_, str>>) -> Option<Seq<u8>> {
    match o {
        Some(s) => Some(encode_utf8(s@)),
        None => None,
    }
}

pub open spec fn or_zero(o: Option<u64>) -> u64 {
    match o {
        Some(v) => v,
        None => 0,
    }
}

// ---------------------------------------------------------------------------
// Timestamp
// ---------------------------------------------------------------------------

/// A `google.protobuf.Timestamp` field: unset, or seconds and nanoseconds
/// (absent scalars read as zero).
#[derive(Clone, Copy)]
pub struct TimestampView {
    pub is_set: bool,
    pub seconds: i64,
    pub nanos: i32,
}

pub open spec fn timestamp_decodes(m: Option<Seq<u8>>) -> bool {
    match m {
        None => true,
        Some(b) => match wire_fields(b) {
            Some(fs) => spec_varint_field(fs, 1) is Some && spec_varint_field(fs, 2) is Some,
            None => false,
        },
    }
}

pub open spec fn timestamp_ok(m: Option<Seq<u8>>, v: TimestampView) -> bool {
    match m {
        None => !v.is_set,
        Some(b) => match wire_fields(b) {
            Some(fs) => {
                &&& v.is_set
                &&& spec_varint_field(fs, 1) matches Some(s) && v.seconds == int64_of(or_zero(s))
                &&& spec_varint_field(fs, 2) matches Some(n) && v.nanos == int32_of(or_zero(n))
            },
            None => false,
        },
    }
}

pub fn decode_timestamp(m: Option<Payload<'_>>) -> (r: Result<TimestampView, buffa::DecodeError>)
    ensures
        match r {
            Ok(v) => timestamp_ok(opt_payload_bytes(m), v),
            Err(_) => !timestamp_decodes(opt_payload_bytes(m)),
        },
{
    match m {
        None => Ok(TimestampView { is_set: false, seconds: 0, nanos: 0 }),
        Some(b) => {
            let fs = decode_wire(b.as_slice())?;
            let s = varint_field(&fs, 1)?;
            let n = varint_field(&fs, 2)?;
            let seconds = int64_from(match s { Some(v) => v, None => 0 });
            let nanos = int32_from(match n { Some(v) => v, None => 0 });
            Ok(TimestampView { is_set: true, seconds, nanos })
        },
    }
}

// ---------------------------------------------------------------------------
// LabelPair
// ---------------------------------------------------------------------------

pub struct LabelPairView<'a> {
    pub name: Option<Cow<'a, str>>,
    pub value: Option<Cow<'a, str>>,
}

pub open spec fn label_decodes(b: Seq<u8>) -> bool {
    match wire_fields(b) {
        Some(fs) => spec_string_field(fs, 1) is Some && spec_string_field(fs, 2) is Some,
        None => false,
    }
}

pub open spec fn label_ok(b: Seq<u8>, v: LabelPairView<'_>) -> bool {
    match wire_fields(b) {
        Some(fs) => {
            &&& spec_string_field(fs, 1) == Some(opt_string_bytes(v.name))
            &&& spec_string_field(fs, 2) == Some(opt_string_bytes(v.value))
        },
        None => false,
    }
}

pub fn decode_label<'a>(b: &'a [u8]) -> (r: Result<LabelPairView<'a>, buffa::DecodeError>)
    ensures
        match r {
            Ok(v) => label_ok(b@, v),
            Err(_) => !label_decodes(b@),
        },
        r is Ok ==> opt_borrows(r->Ok_0.name) && opt_borrows(r->Ok_0.value),
{
    let fs = decode_wire(b)?;
    let name = borrowed_text(string_field(&fs, 1)?);
    let value = borrowed_text(string_field(&fs, 2)?);
    Ok(LabelPairView { name, value })
}

fn borrowed_text<'a>(s: Option<&'a str>) -> (r: Option<Cow<'a, str>>)
    ensures
        opt_borrows(r),
        opt_string_bytes(r) == match s {
            Some(x) => Some(x.spec_bytes()),
            None => None::<Seq<u8>>,
        },
{
    match s {
        Some(x) => Some(Cow::Borrowed(x)),
        None => None,
    }
}

/// Every label view's name and value borrow the input.
pub open spec fn label_views_borrow(ls: Seq<LabelPairView<'_>>) -> bool {
    forall|i: int| 0 <= i < ls.len() ==> opt_borrows(#[trigger] ls[i].name) && opt_borrows(ls[i].value)
}

pub open spec fn exemplar_view_borrows(e: ExemplarView<'_>) -> bool {
    label_views_borrow(e.label@)
}

pub open spec fn exemplar_views_borrow(es: Seq<ExemplarView<'_>>) -> bool {
    forall|i: int| 0 <= i < es.len() ==> exemplar_view_borrows(#[trigger] es[i])
}

pub open spec fn bucket_views_borrow(bs: Seq<BucketView<'_>>) -> bool {
    forall|i: int| 0 <= i < bs.len() ==> exemplar_view_borrows(#[trigger] bs[i].exemplar)
}

pub open spec fn histogram_view_borrows(h: HistogramView<'_>) -> bool {
    bucket_views_borrow(h.bucket@) && exemplar_views_borrow(h.exemplars@)
}

/// Every label of the metric, its exemplars' included, borrows the body.
pub open spec fn metric_view_borrows(m: MetricView<'_>) -> bool {
    &&& label_views_borrow(m.label@)
    &&& exemplar_view_borrows(m.counter.exemplar)
    &&& histogram_view_borrows(m.histogram)
}

pub open spec fn metric_views_borrow(ms: Seq<MetricView<'_>>) -> bool {
    forall|i: int| 0 <= i < ms.len() ==> metric_view_borrows(#[trigger] ms[i])
}

pub open spec fn labels_decode(ps: Seq<Seq<u8>>) -> bool {
    forall|i: int| 0 <= i < ps.len() ==> label_decodes(#[trigger] ps[i])
}

pub open spec fn labels_ok(ps: Seq<Seq<u8>>, vs: Seq<LabelPairView<'_>>) -> bool {
    ps.len() == vs.len() && forall|i: int| 0 <= i < ps.len() ==> label_ok(#[trigger] ps[i], vs[i])
}

pub fn decode_labels<'a>(ps: &Vec<&'a [u8]>) -> (r: Result<Vec<LabelPairView<'a>>, buffa::DecodeError>)
    ensures
        match r {
            Ok(v) => labels_ok(ps.deep_view(), v@),
            Err(_) => !labels_decode(ps.deep_view()),
        },
        r is Ok ==> label_views_borrow(r->Ok_0@),
{
    let ghost pv = ps.deep_view();
    let mut out: Vec<LabelPairView<'a>> = Vec::new();
    let mut i: usize = 0;
    while i < ps.len()
        invariant
            pv == ps.deep_view(),
            i <= pv.len(),
            out@.len() == i,
            forall|j: int| 0 <= j < i ==> label_ok(#[trigger] pv[j], out@[j]),
            label_views_borrow(out@),
        decreases pv.len() - i,
    {
        assert(pv[i as int] == ps@[i as int]@);
        match decode_label(ps[i]) {
            Ok(v) => out.push(v),
            Err(e) => return Err(e),
        }
        i = i + 1;
    }
    Ok(out)
}

// ---------------------------------------------------------------------------
// Exemplar
// ---------------------------------------------------------------------------

pub struct ExemplarView<'a> {
    pub is_set: bool,
    pub label: Vec<LabelPairView<'a>>,
    pub value: Option<u64>,
    pub timestamp: TimestampView,
}

pub open spec fn exemplar_fields_decode(fs: Seq<SpecWireField>) -> bool {
    &&& typed(fs, 1, WireKind::LengthDelimited)
    &&& labels_decode(payloads(fs, 1))
    &&& spec_fixed64_field(fs, 2) is Some
    &&& spec_message_field(fs, 3) matches Some(t) && timestamp_decodes(t)
}

pub open spec fn exemplar_fields_ok(fs: Seq<SpecWireField>, v: ExemplarView<'_>) -> bool {
    &&& v.is_set
    &&& typed(fs, 1, WireKind::LengthDelimited)
    &&& labels_ok(payloads(fs, 1), v.label@)
    &&& spec_fixed64_field(fs, 2) == Some(v.value)
    &&& spec_message_field(fs, 3) matches Some(t) && timestamp_ok(t, v.timestamp)
}

pub open spec fn exemplar_body_decodes(b: Seq<u8>) -> bool {
    match wire_fields(b) {
        Some(fs) => exemplar_fields_decode(fs),
        None => false,
    }
}

pub open spec fn exemplar_body_ok(b: Seq<u8>, v: ExemplarView<'_>) -> bool {
    match wire_fields(b) {
        Some(fs) => exemplar_fields_ok(fs, v),
        None => false,
    }
}

pub fn decode_exemplar_body<'a>(b: &'a [u8]) -> (r: Result<ExemplarView<'a>, buffa::DecodeError>)
    ensures
        match r {
            Ok(v) => exemplar_body_ok(b@, v),
            Err(_) => !exemplar_body_decodes(b@),
        },
        r is Ok ==> exemplar_view_borrows(r->Ok_0),
{
    let fs = decode_wire(b)?;
    decode_exemplar_fields(&fs)
}

pub fn decode_exemplar_fields<'a>(fs: &Vec<WireField<'a>>) -> (r: Result<ExemplarView<'a>, buffa::DecodeError>)
    ensures
        match r {
            Ok(v) => exemplar_fields_ok(fs.deep_view(), v),
            Err(_) => !exemplar_fields_decode(fs.deep_view()),
        },
        r is Ok ==> exemplar_view_borrows(r->Ok_0),
{
    let fs = fs;
    let lp = message_list(fs, 1)?;
    let label = decode_labels(&lp)?;
    let value = fixed64_field(fs, 2)?;
    let t = message_field(fs, 3)?;
    let timestamp = decode_timestamp(t)?;
    Ok(ExemplarView { is_set: true, label, value, timestamp })
}

/// An exemplar field: unset, or the records of its merged occurrences.
pub open spec fn exemplar_decodes(m: Option<Seq<SpecWireField>>) -> bool {
    match m {
        None => true,
        Some(fs) => exemplar_fields_decode(fs),
    }
}

pub open spec fn exemplar_ok(m: Option<Seq<SpecWireField>>, v: ExemplarView<'_>) -> bool {
    match m {
        None => !v.is_set,
        Some(fs) => exemplar_fields_ok(fs, v),
    }
}

pub fn decode_exemplar<'a>(m: Option<Vec<WireField<'a>>>) -> (r: Result<ExemplarView<'a>, buffa::DecodeError>)
    ensures
        match r {
            Ok(v) => exemplar_ok(opt_fields(m), v),
            Err(_) => !exemplar_decodes(opt_fields(m)),
        },
        r is Ok ==> exemplar_view_borrows(r->Ok_0),
{
    match m {
        None => Ok(ExemplarView {
            is_set: false,
            label: Vec::new(),
            value: None,
            timestamp: TimestampView { is_set: false, seconds: 0, nanos: 0 },
        }),
        Some(fs) => decode_exemplar_fields(&fs),
    }
}

pub open spec fn exemplars_decode(ps: Seq<Seq<u8>>) -> bool {
    forall|i: int| 0 <= i < ps.len() ==> exemplar_body_decodes(#[trigger] ps[i])
}

pub open spec fn exemplars_ok(ps: Seq<Seq<u8>>, vs: Seq<ExemplarView<'_>>) -> bool {
    ps.len() == vs.len() && forall|i: int| 0 <= i < ps.len() ==> exemplar_body_ok(#[trigger] ps[i], vs[i])
}

pub fn decode_exemplars<'a>(ps: &Vec<&'a [u8]>) -> (r: Result<Vec<ExemplarView<'a>>, buffa::DecodeError>)
    ensures
        match r {
            Ok(v) => exemplars_ok(ps.deep_view(), v@),
            Err(_) => !exemplars_decode(ps.deep_view()),
        },
        r is Ok ==> exemplar_views_borrow(r->Ok_0@),
{
    let ghost pv = ps.deep_view();
    let mut out: Vec<ExemplarView<'a>> = Vec::new();
    let mut i: usize = 0;
    while i < ps.len()
        invariant
            pv == ps.deep_view(),
            i <= pv.len(),
            out@.len() == i,
            forall|j: int| 0 <= j < i ==> exemplar_body_ok(#[trigger] pv[j], out@[j]),
            exemplar_views_borrow(out@),
        decreases pv.len() - i,
    {
        assert(pv[i as int] == ps@[i as int]@);
        match decode_exemplar_body(ps[i]) {
            Ok(v) => out.push(v),
            Err(e) => return Err(e),
        }
        i = i + 1;
    }
    Ok(out)
}

// ---------------------------------------------------------------------------
// Histogram
// ---------------------------------------------------------------------------

pub struct BucketView<'a> {
    pub cumulative_count: Option<u64>,
    pub cumulative_count_float: Option<u64>,
    pub upper_bound: Option<u64>,
    pub exemplar: ExemplarView<'a>,
}

pub open spec fn bucket_decodes(b: Seq<u8>) -> bool {
    match wire_fields(b) {
        Some(fs) => {
            &&& spec_varint_field(fs, 1) is Some
            &&& spec_fixed64_field(fs, 4) is Some
            &&& spec_fixed64_field(fs, 2) is Some
            &&& spec_merged_field(fs, 3) matches Some(e) && exemplar_decodes(e)
        },
        None => false,
    }
}

pub open spec fn bucket_ok(b: Seq<u8>, v: BucketView<'_>) -> bool {
    match wire_fields(b) {
        Some(fs) => {
            &&& spec_varint_field(fs, 1) == Some(v.cumulative_count)
            &&& spec_fixed64_field(fs, 4) == Some(v.cumulative_count_float)
            &&& spec_fixed64_field(fs, 2) == Some(v.upper_bound)
            &&& spec_merged_field(fs, 3) matches Some(e) && exemplar_ok(e, v.exemplar)
        },
        None => false,
    }
}

pub fn decode_bucket<'a>(b: &'a [u8]) -> (r: Result<BucketView<'a>, buffa::DecodeError>)
    ensures
        match r {
            Ok(v) => bucket_ok(b@, v),
            Err(_) => !bucket_decodes(b@),
        },
        r is Ok ==> exemplar_view_borrows(r->Ok_0.exemplar),
{
    let fs = decode_wire(b)?;
    let cumulative_count = varint_field(&fs, 1)?;
    let cumulative_count_float = fixed64_field(&fs, 4)?;
    let upper_bound = fixed64_field(&fs, 2)?;
    let e = merged_field(&fs, 3)?;
    let exemplar = decode_exemplar(e)?;
    Ok(BucketView { cumulative_count, cumulative_count_float, upper_bound, exemplar })
}

pub open spec fn buckets_decode(ps: Seq<Seq<u8>>) -> bool {
    forall|i: int| 0 <= i < ps.len() ==> bucket_decodes(#[trigger] ps[i])
}

pub open spec fn buckets_ok(ps: Seq<Seq<u8>>, vs: Seq<BucketView<'_>>) -> bool {
    ps.len() == vs.len() && forall|i: int| 0 <= i < ps.len() ==> bucket_ok(#[trigger] ps[i], vs[i])
}

pub fn decode_buckets<'a>(ps: &Vec<&'a [u8]>) -> (r: Result<Vec<BucketView<'a>>, buffa::DecodeError>)
    ensures
        match r {
            Ok(v) => buckets_ok(ps.deep_view(), v@),
            Err(_) => !buckets_decode(ps.deep_view()),
        },
        r is Ok ==> bucket_views_borrow(r->Ok_0@),
{
    let ghost pv = ps.deep_view();
    let mut out: Vec<BucketView<'a>> = Vec::new();
    let mut i: usize = 0;
    while i < ps.len()
        invariant
            pv == ps.deep_view(),
            i <= pv.len(),
            out@.len() == i,
            forall|j: int| 0 <= j < i ==> bucket_ok(#[trigger] pv[j], out@[j]),
            bucket_views_borrow(out@),
        decreases pv.len() - i,
    {
        assert(pv[i as int] == ps@[i as int]@);
        match decode_bucket(ps[i]) {
            Ok(v) => out.push(v),
            Err(e) => return Err(e),
        }
        i = i + 1;
    }
    Ok(out)
}

pub struct BucketSpanView {
    pub offset: Option<i32>,
    pub length: Option<u32>,
}

pub open spec fn span_decodes(b: Seq<u8>) -> bool {
    match wire_fields(b) {
        Some(fs) => spec_varint_field(fs, 1) is Some && spec_varint_field(fs, 2) is Some,
        None => false,
    }
}

pub open spec fn span_ok(b: Seq<u8>, v: BucketSpanView) -> bool {
    match wire_fields(b) {
        Some(fs) => {
            &&& spec_varint_field(fs, 1) matches Some(o) && v.offset == opt_map_i32(o, true)
            &&& spec_varint_field(fs, 2) matches Some(l) && v.length == match l {
                Some(x) => Some(uint32_of(x)),
                None => None,
            }
        },
        None => false,
    }
}

pub fn decode_span(b: &[u8]) -> (r: Result<BucketSpanView, buffa::DecodeError>)
    ensures
        match r {
            Ok(v) => span_ok(b@, v),
            Err(_) => !span_decodes(b@),
        },
{
    let fs = decode_wire(b)?;
    let o = varint_field(&fs, 1)?;
    let l = varint_field(&fs, 2)?;
    let offset = match o {
        Some(x) => Some(sint32_from(x)),
        None => None,
    };
    let length = match l {
        Some(x) => Some(uint32_from(x)),
        None => None,
    };
    Ok(BucketSpanView { offset, length })
}

pub open spec fn spans_decode(ps: Seq<Seq<u8>>) -> bool {
    forall|i: int| 0 <= i < ps.len() ==> span_decodes(#[trigger] ps[i])
}

pub open spec fn spans_ok(ps: Seq<Seq<u8>>, vs: Seq<BucketSpanView>) -> bool {
    ps.len() == vs.len() && forall|i: int| 0 <= i < ps.len() ==> span_ok(#[trigger] ps[i], vs[i])
}

pub fn decode_spans(ps: &Vec<&[u8]>) -> (r: Result<Vec<BucketSpanView>, buffa::DecodeError>)
    ensures
        match r {
            Ok(v) => spans_ok(ps.deep_view(), v@),
            Err(_) => !spans_decode(ps.deep_view()),
        },
{
    let ghost pv = ps.deep_view();
    let mut out: Vec<BucketSpanView> = Vec::new();
    let mut i: usize = 0;
    while i < ps.len()
        invariant
            pv == ps.deep_view(),
            i <= pv.len(),
            out@.len() == i,
            forall|j: int| 0 <= j < i ==> span_ok(#[trigger] pv[j], out@[j]),
        decreases pv.len() - i,
    {
        assert(pv[i as int] == ps@[i as int]@);
        match decode_span(ps[i]) {
            Ok(v) => out.push(v),
            Err(e) => return Err(e),
        }
        i = i + 1;
    }
    Ok(out)
}

pub open spec fn sints64(s: Seq<u64>) -> Seq<i64> {
    Seq::new(s.len(), |i: int| sint64_of(s[i]))
}

fn zigzag_all(v: Vec<u64>) -> (r: Vec<i64>)
    ensures
        r@ == sints64(v@),
{
    let mut out: Vec<i64> = Vec::new();
    let mut i: usize = 0;
    while i < v.len()
        invariant
            i <= v@.len(),
            out@ == sints64(v@.take(i as int)),
        decreases v@.len() - i,
    {
        out.push(sint64_from(v[i]));
        assert(sints64(v@.take(i + 1)) =~= sints64(v@.take(i as int)).push(sint64_of(v@[i as int])));
        i = i + 1;
    }
    assert(v@.take(v@.len() as int) =~= v@);
    out
}

pub struct HistogramView<'a> {
    pub is_set: bool,
    pub sample_count: Option<u64>,
    pub sample_count_float: Option<u64>,
    pub sample_sum: Option<u64>,
    pub bucket: Vec<BucketView<'a>>,
    pub created_timestamp: TimestampView,
    pub schema: Option<i32>,
    pub zero_threshold: Option<u64>,
    pub zero_count: Option<u64>,
    pub zero_count_float: Option<u64>,
    pub negative_span: Vec<BucketSpanView>,
    pub negative_delta: Vec<i64>,
    pub negative_count: Vec<u64>,
    pub positive_span: Vec<BucketSpanView>,
    pub positive_delta: Vec<i64>,
    pub positive_count: Vec<u64>,
    pub exemplars: Vec<ExemplarView<'a>>,
}

pub open spec fn histogram_fields_decode(fs: Seq<SpecWireField>) -> bool {
    {
        {
            &&& spec_varint_field(fs, 1) is Some
            &&& spec_fixed64_field(fs, 4) is Some
            &&& spec_fixed64_field(fs, 2) is Some
            &&& typed(fs, 3, WireKind::LengthDelimited) && buckets_decode(payloads(fs, 3))
            &&& spec_message_field(fs, 15) matches Some(t) && timestamp_decodes(t)
            &&& spec_varint_field(fs, 5) is Some
            &&& spec_fixed64_field(fs, 6) is Some
            &&& spec_varint_field(fs, 7) is Some
            &&& spec_fixed64_field(fs, 8) is Some
            &&& typed(fs, 9, WireKind::LengthDelimited) && spans_decode(payloads(fs, 9))
            &&& spec_varint_list(fs, 10) is Some
            &&& spec_fixed64_list(fs, 11) is Some
            &&& typed(fs, 12, WireKind::LengthDelimited) && spans_decode(payloads(fs, 12))
            &&& spec_varint_list(fs, 13) is Some
            &&& spec_fixed64_list(fs, 14) is Some
            &&& typed(fs, 16, WireKind::LengthDelimited) && exemplars_decode(payloads(fs, 16))
        }
    }
}

pub open spec fn histogram_fields_ok(fs: Seq<SpecWireField>, v: HistogramView<'_>) -> bool {
    {
        {
            &&& v.is_set
            &&& spec_varint_field(fs, 1) == Some(v.sample_count)
            &&& spec_fixed64_field(fs, 4) == Some(v.sample_count_float)
            &&& spec_fixed64_field(fs, 2) == Some(v.sample_sum)
            &&& typed(fs, 3, WireKind::LengthDelimited) && buckets_ok(payloads(fs, 3), v.bucket@)
            &&& spec_message_field(fs, 15) matches Some(t) && timestamp_ok(t, v.created_timestamp)
            &&& spec_varint_field(fs, 5) matches Some(sc) && v.schema == opt_map_i32(sc, true)
            &&& spec_fixed64_field(fs, 6) == Some(v.zero_threshold)
            &&& spec_varint_field(fs, 7) == Some(v.zero_count)
            &&& spec_fixed64_field(fs, 8) == Some(v.zero_count_float)
            &&& typed(fs, 9, WireKind::LengthDelimited) && spans_ok(payloads(fs, 9), v.negative_span@)
            &&& spec_varint_list(fs, 10) matches Some(d) && v.negative_delta@ == sints64(d)
            &&& spec_fixed64_list(fs, 11) == Some(v.negative_count@)
            &&& typed(fs, 12, WireKind::LengthDelimited) && spans_ok(payloads(fs, 12), v.positive_span@)
            &&& spec_varint_list(fs, 13) matches Some(d) && v.positive_delta@ == sints64(d)
            &&& spec_fixed64_list(fs, 14) == Some(v.positive_count@)
            &&& typed(fs, 16, WireKind::LengthDelimited) && exemplars_ok(payloads(fs, 16), v.exemplars@)
        }
    }
}

pub fn decode_histogram_fields<'a>(fs: &Vec<WireField<'a>>) -> (r: Result<HistogramView<'a>, buffa::DecodeError>)
    ensures
        match r {
            Ok(v) => histogram_fields_ok(fs.deep_view(), v),
            Err(_) => !histogram_fields_decode(fs.deep_view()),
        },
        r is Ok ==> histogram_view_borrows(r->Ok_0),
{
    let sample_count = varint_field(fs, 1)?;
    let sample_count_float = fixed64_field(fs, 4)?;
    let sample_sum = fixed64_field(fs, 2)?;
    let bp = message_list(fs, 3)?;
    let bucket = decode_buckets(&bp)?;
    let t = message_field(fs, 15)?;
    let created_timestamp = decode_timestamp(t)?;
    let sc = varint_field(fs, 5)?;
    let schema = match sc {
        Some(x) => Some(sint32_from(x)),
        None => None,
    };
    let zero_threshold = fixed64_field(fs, 6)?;
    let zero_count = varint_field(fs, 7)?;
    let zero_count_float = fixed64_field(fs, 8)?;
    let nsp = message_list(fs, 9)?;
    let negative_span = decode_spans(&nsp)?;
    let negative_delta = zigzag_all(varint_list(fs, 10)?);
    let negative_count = fixed64_list(fs, 11)?;
    let psp = message_list(fs, 12)?;
    let positive_span = decode_spans(&psp)?;
    let positive_delta = zigzag_all(varint_list(fs, 13)?);
    let positive_count = fixed64_list(fs, 14)?;
    let ep = message_list(fs, 16)?;
    let exemplars = decode_exemplars(&ep)?;
    Ok(HistogramView {
        is_set: true,
        sample_count,
        sample_count_float,
        sample_sum,
        bucket,
        created_timestamp,
        schema,
        zero_threshold,
        zero_count,
        zero_count_float,
        negative_span,
        negative_delta,
        negative_count,
        positive_span,
        positive_delta,
        positive_count,
        exemplars,
    })
}

fn unset_histogram<'a>() -> (r: HistogramView<'a>)
    ensures
        !r.is_set,
        histogram_view_borrows(r),
{
    HistogramView {
        is_set: false,
        sample_count: None,
        sample_count_float: None,
        sample_sum: None,
        bucket: Vec::new(),
        created_timestamp: TimestampView { is_set: false, seconds: 0, nanos: 0 },
        schema: None,
        zero_threshold: None,
        zero_count: None,
        zero_count_float: None,
        negative_span: Vec::new(),
        negative_delta: Vec::new(),
        negative_count: Vec::new(),
        positive_span: Vec::new(),
        positive_delta: Vec::new(),
        positive_count: Vec::new(),
        exemplars: Vec::new(),
    }
}

// ---------------------------------------------------------------------------
// Summary, gauge, untyped, counter
// ---------------------------------------------------------------------------

pub struct QuantileView {
    pub quantile: Option<u64>,
    pub value: Option<u64>,
}

pub open spec fn quantile_decodes(b: Seq<u8>) -> bool {
    match wire_fields(b) {
        Some(fs) => spec_fixed64_field(fs, 1) is Some && spec_fixed64_field(fs, 2) is Some,
        None => false,
    }
}

pub open spec fn quantile_ok(b: Seq<u8>, v: QuantileView) -> bool {
    match wire_fields(b) {
        Some(fs) => spec_fixed64_field(fs, 1) == Some(v.quantile) && spec_fixed64_field(fs, 2) == Some(v.value),
        None => false,
    }
}

pub fn decode_quantile(b: &[u8]) -> (r: Result<QuantileView, buffa::DecodeError>)
    ensures
        match r {
            Ok(v) => quantile_ok(b@, v),
            Err(_) => !quantile_decodes(b@),
        },
{
    let fs = decode_wire(b)?;
    let quantile = fixed64_field(&fs, 1)?;
    let value = fixed64_field(&fs, 2)?;
    Ok(QuantileView { quantile, value })
}

pub open spec fn quantiles_decode(ps: Seq<Seq<u8>>) -> bool {
    forall|i: int| 0 <= i < ps.len() ==> quantile_decodes(#[trigger] ps[i])
}

pub open spec fn quantiles_ok(ps: Seq<Seq<u8>>, vs: Seq<QuantileView>) -> bool {
    ps.len() == vs.len() && forall|i: int| 0 <= i < ps.len() ==> quantile_ok(#[trigger] ps[i], vs[i])
}

pub fn decode_quantiles(ps: &Vec<&[u8]>) -> (r: Result<Vec<QuantileView>, buffa::DecodeError>)
    ensures
        match r {
            Ok(v) => quantiles_ok(ps.deep_view(), v@),
            Err(_) => !quantiles_decode(ps.deep_view()),
        },
{
    let ghost pv = ps.deep_view();
    let mut out: Vec<QuantileView> = Vec::new();
    let mut i: usize = 0;
    while i < ps.len()
        invariant
            pv == ps.deep_view(),
            i <= pv.len(),
            out@.len() == i,
            forall|j: int| 0 <= j < i ==> quantile_ok(#[trigger] pv[j], out@[j]),
        decreases pv.len() - i,
    {
        assert(pv[i as int] == ps@[i as int]@);
        match decode_quantile(ps[i]) {
            Ok(v) => out.push(v),
            Err(e) => return Err(e),
        }
        i = i + 1;
    }
    Ok(out)
}

pub struct SummaryView {
    pub is_set: bool,
    pub sample_count: Option<u64>,
    pub sample_sum: Option<u64>,
    pub quantile: Vec<QuantileView>,
    pub created_timestamp: TimestampView,
}

pub open spec fn summary_decodes(m: Option<Seq<u8>>) -> bool {
    match m {
        None => true,
        Some(b) => match wire_fields(b) {
            Some(fs) => {
                &&& spec_varint_field(fs, 1) is Some
                &&& spec_fixed64_field(fs, 2) is Some
                &&& typed(fs, 3, WireKind::LengthDelimited) && quantiles_decode(payloads(fs, 3))
                &&& spec_message_field(fs, 4) matches Some(t) && timestamp_decodes(t)
            },
            None => false,
        },
    }
}

pub open spec fn summary_ok(m: Option<Seq<u8>>, v: SummaryView) -> bool {
    match m {
        None => !v.is_set,
        Some(b) => match wire_fields(b) {
            Some(fs) => {
                &&& v.is_set
                &&& spec_varint_field(fs, 1) == Some(v.sample_count)
                &&& spec_fixed64_field(fs, 2) == Some(v.sample_sum)
                &&& typed(fs, 3, WireKind::LengthDelimited) && quantiles_ok(payloads(fs, 3), v.quantile@)
                &&& spec_message_field(fs, 4) matches Some(t) && timestamp_ok(t, v.created_timestamp)
            },
            None => false,
        },
    }
}

pub fn decode_summary(m: Option<Payload<'_>>) -> (r: Result<SummaryView, buffa::DecodeError>)
    ensures
        match r {
            Ok(v) => summary_ok(opt_payload_bytes(m), v),
            Err(_) => !summary_decodes(opt_payload_bytes(m)),
        },
{
    match m {
        None => Ok(SummaryView {
            is_set: false,
            sample_count: None,
            sample_sum: None,
            quantile: Vec::new(),
            created_timestamp: TimestampView { is_set: false, seconds: 0, nanos: 0 },
        }),
        Some(b) => {
            let fs = decode_wire(b.as_slice())?;
            let sample_count = varint_field(&fs, 1)?;
            let sample_sum = fixed64_field(&fs, 2)?;
            let qp = message_list(&fs, 3)?;
            let quantile = decode_quantiles(&qp)?;
            let t = message_field(&fs, 4)?;
            let created_timestamp = decode_timestamp(t)?;
            Ok(SummaryView { is_set: true, sample_count, sample_sum, quantile, created_timestamp })
        },
    }
}

/// A `Gauge` or `Untyped` field: unset, or its value.
pub struct ValueView {
    pub is_set: bool,
    pub value: Option<u64>,
}

pub open spec fn value_decodes(m: Option<Seq<u8>>) -> bool {
    match m {
        None => true,
        Some(b) => match wire_fields(b) {
            Some(fs) => spec_fixed64_field(fs, 1) is Some,
            None => false,
        },
    }
}

pub open spec fn value_ok(m: Option<Seq<u8>>, v: ValueView) -> bool {
    match m {
        None => !v.is_set,
        Some(b) => match wire_fields(b) {
            Some(fs) => v.is_set && spec_fixed64_field(fs, 1) == Some(v.value),
            None => false,
        },
    }
}

pub fn decode_value(m: Option<Payload<'_>>) -> (r: Result<ValueView, buffa::DecodeError>)
    ensures
        match r {
            Ok(v) => value_ok(opt_payload_bytes(m), v),
            Err(_) => !value_decodes(opt_payload_bytes(m)),
        },
{
    match m {
        None => Ok(ValueView { is_set: false, value: None }),
        Some(b) => {
            let fs = decode_wire(b.as_slice())?;
            let value = fixed64_field(&fs, 1)?;
            Ok(ValueView { is_set: true, value })
        },
    }
}

pub struct CounterView<'a> {
    pub is_set: bool,
    pub value: Option<u64>,
    pub exemplar: ExemplarView<'a>,
    pub created_timestamp: TimestampView,
}

/// A counter field: unset, or the records of its merged occurrences.
pub open spec fn counter_decodes(m: Option<Seq<SpecWireField>>) -> bool {
    match m {
        None => true,
        Some(fs) => {
            &&& spec_fixed64_field(fs, 1) is Some
            &&& spec_merged_field(fs, 2) matches Some(e) && exemplar_decodes(e)
            &&& spec_message_field(fs, 3) matches Some(t) && timestamp_decodes(t)
        },
    }
}

pub open spec fn counter_ok(m: Option<Seq<SpecWireField>>, v: CounterView<'_>) -> bool {
    match m {
        None => !v.is_set,
        Some(fs) => {
            &&& v.is_set
            &&& spec_fixed64_field(fs, 1) == Some(v.value)
            &&& spec_merged_field(fs, 2) matches Some(e) && exemplar_ok(e, v.exemplar)
            &&& spec_message_field(fs, 3) matches Some(t) && timestamp_ok(t, v.created_timestamp)
        },
    }
}

pub fn decode_counter<'a>(m: Option<Vec<WireField<'a>>>) -> (r: Result<CounterView<'a>, buffa::DecodeError>)
    ensures
        match r {
            Ok(v) => counter_ok(opt_fields(m), v),
            Err(_) => !counter_decodes(opt_fields(m)),
        },
        r is Ok ==> exemplar_view_borrows(r->Ok_0.exemplar),
{
    match m {
        None => {
            let e = decode_exemplar(None)?;
            Ok(CounterView {
                is_set: false,
                value: None,
                exemplar: e,
                created_timestamp: TimestampView { is_set: false, seconds: 0, nanos: 0 },
            })
        },
        Some(fs) => {
            let value = fixed64_field(&fs, 1)?;
            let e = merged_field(&fs, 2)?;
            let exemplar = decode_exemplar(e)?;
            let t = message_field(&fs, 3)?;
            let created_timestamp = decode_timestamp(t)?;
            Ok(CounterView { is_set: true, value, exemplar, created_timestamp })
        },
    }
}

/// A histogram field: unset, or the records of its merged occurrences.
pub open spec fn histogram_decodes(m: Option<Seq<SpecWireField>>) -> bool {
    match m {
        None => true,
        Some(fs) => histogram_fields_decode(fs),
    }
}

pub open spec fn histogram_ok(m: Option<Seq<SpecWireField>>, v: HistogramView<'_>) -> bool {
    match m {
        None => !v.is_set,
        Some(fs) => histogram_fields_ok(fs, v),
    }
}

pub fn decode_histogram<'a>(m: Option<Vec<WireField<'a>>>) -> (r: Result<HistogramView<'a>, buffa::DecodeError>)
    ensures
        match r {
            Ok(v) => histogram_ok(opt_fields(m), v),
            Err(_) => !histogram_decodes(opt_fields(m)),
        },
        r is Ok ==> histogram_view_borrows(r->Ok_0),
{
    match m {
        None => Ok(unset_histogram()),
        Some(fs) => decode_histogram_fields(&fs),
    }
}

// ---------------------------------------------------------------------------
// Metric and MetricFamily
// ---------------------------------------------------------------------------

pub struct MetricView<'a> {
    pub label: Vec<LabelPairView<'a>>,
    pub gauge: ValueView,
    pub counter: CounterView<'a>,
    pub summary: SummaryView,
    pub untyped: ValueView,
    pub timestamp_ms: Option<i64>,
    pub histogram: HistogramView<'a>,
}

pub open spec fn metric_decodes(b: Seq<u8>) -> bool {
    match wire_fields(b) {
        Some(fs) => {
            &&& typed(fs, 1, WireKind::LengthDelimited) && labels_decode(payloads(fs, 1))
            &&& spec_message_field(fs, 2) matches Some(g) && value_decodes(g)
            &&& spec_merged_field(fs, 3) matches Some(c) && counter_decodes(c)
            &&& spec_message_field(fs, 4) matches Some(s) && summary_decodes(s)
            &&& spec_message_field(fs, 5) matches Some(u) && value_decodes(u)
            &&& spec_varint_field(fs, 6) is Some
            &&& spec_merged_field(fs, 7) matches Some(h) && histogram_decodes(h)
        },
        None => false,
    }
}

pub open spec fn metric_ok(b: Seq<u8>, v: MetricView<'_>) -> bool {
    match wire_fields(b) {
        Some(fs) => {
            &&& typed(fs, 1, WireKind::LengthDelimited) && labels_ok(payloads(fs, 1), v.label@)
            &&& spec_message_field(fs, 2) matches Some(g) && value_ok(g, v.gauge)
            &&& spec_merged_field(fs, 3) matches Some(c) && counter_ok(c, v.counter)
            &&& spec_message_field(fs, 4) matches Some(s) && summary_ok(s, v.summary)
            &&& spec_message_field(fs, 5) matches Some(u) && value_ok(u, v.untyped)
            &&& spec_varint_field(fs, 6) matches Some(t) && v.timestamp_ms == match t {
                Some(x) => Some(int64_of(x)),
                None => None,
            }
            &&& spec_merged_field(fs, 7) matches Some(h) && histogram_ok(h, v.histogram)
        },
        None => false,
    }
}

pub fn decode_metric<'a>(b: &'a [u8]) -> (r: Result<MetricView<'a>, buffa::DecodeError>)
    ensures
        match r {
            Ok(v) => metric_ok(b@, v),
            Err(_) => !metric_decodes(b@),
        },
        r is Ok ==> metric_view_borrows(r->Ok_0),
{
    let fs = decode_wire(b)?;
    let lp = message_list(&fs, 1)?;
    let label = decode_labels(&lp)?;
    let gauge = decode_value(message_field(&fs, 2)?)?;
    let counter = decode_counter(merged_field(&fs, 3)?)?;
    let summary = decode_summary(message_field(&fs, 4)?)?;
    let untyped = decode_value(message_field(&fs, 5)?)?;
    let t = varint_field(&fs, 6)?;
    let timestamp_ms = match t {
        Some(x) => Some(int64_from(x)),
        None => None,
    };
    let histogram = decode_histogram(merged_field(&fs, 7)?)?;
    Ok(MetricView { label, gauge, counter, summary, untyped, timestamp_ms, histogram })
}

pub open spec fn metrics_decode(ps: Seq<Seq<u8>>) -> bool {
    forall|i: int| 0 <= i < ps.len() ==> metric_decodes(#[trigger] ps[i])
}

pub open spec fn metrics_ok(ps: Seq<Seq<u8>>, vs: Seq<MetricView<'_>>) -> bool {
    ps.len() == vs.len() && forall|i: int| 0 <= i < ps.len() ==> metric_ok(#[trigger] ps[i], vs[i])
}

pub fn decode_metrics<'a>(ps: &Vec<&'a [u8]>) -> (r: Result<Vec<MetricView<'a>>, buffa::DecodeError>)
    ensures
        match r {
            Ok(v) => metrics_ok(ps.deep_view(), v@),
            Err(_) => !metrics_decode(ps.deep_view()),
        },
        r is Ok ==> metric_views_borrow(r->Ok_0@),
{
    let ghost pv = ps.deep_view();
    let mut out: Vec<MetricView<'a>> = Vec::new();
    let mut i: usize = 0;
    while i < ps.len()
        invariant
            pv == ps.deep_view(),
            i <= pv.len(),
            out@.len() == i,
            forall|j: int| 0 <= j < i ==> metric_ok(#[trigger] pv[j], out@[j]),
            metric_views_borrow(out@),
        decreases pv.len() - i,
    {
        assert(pv[i as int] == ps@[i as int]@);
        match decode_metric(ps[i]) {
            Ok(v) => out.push(v),
            Err(e) => return Err(e),
        }
        i = i + 1;
    }
    Ok(out)
}

/// The schema's metric family types.
#[derive(Clone, Copy, PartialEq, Eq, Structural)]
pub enum ProtoType {
    Counter,
    Gauge,
    Summary,
    Untyped,
    Histogram,
    GaugeHistogram,
}

/// The enum value a varint names; a value outside the schema reads as
/// absent.
pub open spec fn proto_type_of(v: u64) -> Option<ProtoType> {
    let x = int32_of(v);
    if x == 0 {
        Some(ProtoType::Counter)
    } else if x == 1 {
        Some(ProtoType::Gauge)
    } else if x == 2 {
        Some(ProtoType::Summary)
    } else if x == 3 {
        Some(ProtoType::Untyped)
    } else if x == 4 {
        Some(ProtoType::Histogram)
    } else if x == 5 {
        Some(ProtoType::GaugeHistogram)
    } else {
        None
    }
}

fn proto_type_from(v: u64) -> (r: Option<ProtoType>)
    ensures
        r == proto_type_of(v),
{
    let x = int32_from(v);
    if x == 0 {
        Some(ProtoType::Counter)
    } else if x == 1 {
        Some(ProtoType::Gauge)
    } else if x == 2 {
        Some(ProtoType::Summary)
    } else if x == 3 {
        Some(ProtoType::Untyped)
    } else if x == 4 {
        Some(ProtoType::Histogram)
    } else if x == 5 {
        Some(ProtoType::GaugeHistogram)
    } else {
        None
    }
}

pub struct FamilyView<'a> {
    pub name: Option<Cow<'a, str>>,
    pub help: Option<Cow<'a, str>>,
    pub metric_type: Option<ProtoType>,
    pub metric: Vec<MetricView<'a>>,
    pub unit: Option<Cow<'a, str>>,
}

/// Whether a `MetricFamily` message body decodes.
pub open spec fn family_decodes(b: Seq<u8>) -> bool {
    match wire_fields(b) {
        Some(fs) => {
            &&& spec_string_field(fs, 1) is Some
            &&& spec_string_field(fs, 2) is Some
            &&& spec_varint_field(fs, 3) is Some
            &&& typed(fs, 4, WireKind::LengthDelimited) && metrics_decode(payloads(fs, 4))
            &&& spec_string_field(fs, 5) is Some
        },
        None => false,
    }
}

/// `v` is what the `MetricFamily` message body `b` holds.
pub open spec fn family_ok(b: Seq<u8>, v: FamilyView<'_>) -> bool {
    match wire_fields(b) {
        Some(fs) => {
            &&& spec_string_field(fs, 1) == Some(opt_string_bytes(v.name))
            &&& spec_string_field(fs, 2) == Some(opt_string_bytes(v.help))
            &&& spec_varint_field(fs, 3) matches Some(t) && v.metric_type == match t {
                Some(x) => proto_type_of(x),
                None => None,
            }
            &&& typed(fs, 4, WireKind::LengthDelimited) && metrics_ok(payloads(fs, 4), v.metric@)
            &&& spec_string_field(fs, 5) == Some(opt_string_bytes(v.unit))
        },
        None => false,
    }
}

/// Decode a `MetricFamily` message body.
pub fn decode_family<'a>(b: &'a [u8]) -> (r: Result<FamilyView<'a>, buffa::DecodeError>)
    ensures
        match r {
            Ok(v) => family_ok(b@, v),
            Err(_) => !family_decodes(b@),
        },
        r is Ok ==> opt_borrows(r->Ok_0.name) && opt_borrows(r->Ok_0.help) && opt_borrows(r->Ok_0.unit) && metric_views_borrow(r->Ok_0.metric@),
{
    let fs = decode_wire(b)?;
    let name = borrowed_text(string_field(&fs, 1)?);
    let help = borrowed_text(string_field(&fs, 2)?);
    let t = varint_field(&fs, 3)?;
    let metric_type = match t {
        Some(x) => proto_type_from(x),
        None => None,
    };
    let mp = message_list(&fs, 4)?;
    let metric = decode_metrics(&mp)?;
    let unit = borrowed_text(string_field(&fs, 5)?);
    Ok(FamilyView { name, help, metric_type, metric, unit })
}

} // verus!
