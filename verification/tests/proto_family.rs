use prometheus_scraper::owned::{BucketCount, FloatValue, MetricType, MetricValue, NativeCounts, Number, TimestampValue};
use prometheus_scraper::proto::view::{decode_family, ProtoType};
use prometheus_scraper::{proto_parse_family, ParseError};

fn fv(v: &FloatValue) -> f64 {
    match v {
        FloatValue::Decimal(s) => s.parse().unwrap(),
        FloatValue::Bits(b) => f64::from_bits(*b),
        FloatValue::Unsigned(u) => *u as f64,
    }
}

fn varint(mut v: u64, out: &mut Vec<u8>) {
    loop {
        let mut b = (v & 0x7f) as u8;
        v >>= 7;
        if v != 0 {
            b |= 0x80;
        }
        out.push(b);
        if v == 0 {
            break;
        }
    }
}

fn tag(n: u32, wt: u64, out: &mut Vec<u8>) {
    varint(((n as u64) << 3) | wt, out);
}

fn bytes_field(n: u32, body: &[u8]) -> Vec<u8> {
    let mut out = Vec::new();
    tag(n, 2, &mut out);
    varint(body.len() as u64, &mut out);
    out.extend_from_slice(body);
    out
}

fn varint_field(n: u32, v: u64) -> Vec<u8> {
    let mut out = Vec::new();
    tag(n, 0, &mut out);
    varint(v, &mut out);
    out
}

fn zigzag(v: i64) -> u64 {
    ((v << 1) ^ (v >> 63)) as u64
}

fn sint_field(n: u32, v: i64) -> Vec<u8> {
    varint_field(n, zigzag(v))
}

fn double_field(n: u32, v: f64) -> Vec<u8> {
    let mut out = Vec::new();
    tag(n, 1, &mut out);
    out.extend_from_slice(&v.to_le_bytes());
    out
}

fn cat(parts: &[Vec<u8>]) -> Vec<u8> {
    parts.concat()
}

const HISTOGRAM: u64 = 4;
const GAUGE_HISTOGRAM: u64 = 5;

fn family_with_histogram(family_type: u64, histogram: Vec<u8>) -> Vec<u8> {
    let metric = bytes_field(7, &histogram);
    cat(&[bytes_field(1, b"test_histogram"), varint_field(3, family_type), bytes_field(4, &metric)])
}

fn translate_histogram(family_type: u64, histogram: Vec<u8>) -> MetricValue {
    let bytes = family_with_histogram(family_type, histogram);
    let family = proto_parse_family(&bytes).unwrap().into_owned();
    family.metric.into_iter().next().unwrap().value
}

fn bucket(count: Option<u64>, count_float: Option<f64>, upper: f64) -> Vec<u8> {
    let mut b = Vec::new();
    if let Some(c) = count {
        b.extend(varint_field(1, c));
    }
    if let Some(c) = count_float {
        b.extend(double_field(4, c));
    }
    b.extend(double_field(2, upper));
    bytes_field(3, &b)
}

fn span(field: u32, offset: i32, length: u32) -> Vec<u8> {
    bytes_field(field, &cat(&[sint_field(1, offset as i64), varint_field(2, length as u64)]))
}

#[test]
fn metric_family_decodes_as_zero_copy_view() {
    let label = cat(&[bytes_field(1, b"method"), bytes_field(2, b"GET")]);
    let gauge = double_field(1, 1.0);
    let metric = cat(&[bytes_field(1, &label), bytes_field(2, &gauge)]);
    let bytes = cat(&[
        bytes_field(1, b"http_requests_total"),
        bytes_field(2, b"Total HTTP requests"),
        varint_field(3, 0),
        bytes_field(4, &metric),
        bytes_field(5, b"seconds"),
    ]);
    let view = decode_family(&bytes).unwrap();
    assert_eq!(view.name.as_deref(), Some("http_requests_total"));
    assert_eq!(view.unit.as_deref(), Some("seconds"));
    assert_eq!(view.metric.len(), 1);
    assert!(matches!(view.metric_type, Some(ProtoType::Counter)));
    let l = &view.metric[0].label[0];
    assert_eq!(l.name.as_deref(), Some("method"));
    assert_eq!(l.value.as_deref(), Some("GET"));

    // The view is zero-copy: the decoded strings point inside the input
    // buffer rather than at fresh copies.
    let buf = bytes.as_ptr_range();
    assert!(buf.contains(&view.name.as_deref().unwrap().as_ptr()));
    assert!(buf.contains(&l.value.as_deref().unwrap().as_ptr()));
    let fam = proto_parse_family(&bytes).unwrap();
    assert!(buf.contains(&fam.name.as_ptr()));
    assert!(buf.contains(&fam.metric[0].label[0].name.as_ptr()));
}

#[test]
fn classic_integer_histogram() {
    let value = translate_histogram(
        HISTOGRAM,
        cat(&[varint_field(1, 3), double_field(2, 6.5), bucket(Some(1), None, 1.0), bucket(Some(3), None, f64::INFINITY)]),
    );
    let MetricValue::Histogram(h) = value else {
        panic!("expected a classic histogram");
    };
    assert!(matches!(&h.sample_sum, Some(Number::Float(v)) if fv(v) == 6.5));
    let BucketCount::Int { sample_count, buckets } = h.counts else {
        panic!("expected integer bucket counts");
    };
    assert_eq!(sample_count, Some(3));
    assert_eq!(buckets.len(), 2);
    assert_eq!(buckets[0].cumulative_count, 1);
    assert_eq!(fv(&buckets[0].upper_bound), 1.0);
    assert_eq!(buckets[1].cumulative_count, 3);
    assert!(fv(&buckets[1].upper_bound).is_infinite());
}

#[test]
fn classic_float_histogram() {
    let value = translate_histogram(
        HISTOGRAM,
        cat(&[double_field(4, 3.0), double_field(2, 6.5), bucket(None, Some(2.5), 1.0)]),
    );
    let MetricValue::Histogram(h) = value else {
        panic!("expected a classic histogram");
    };
    let BucketCount::Float { sample_count, buckets } = h.counts else {
        panic!("expected float bucket counts");
    };
    assert_eq!(sample_count.as_ref().map(fv), Some(3.0));
    assert_eq!(fv(&buckets[0].cumulative_count), 2.5);
}

#[test]
fn gauge_histogram_distinguished_by_family_type() {
    let value = translate_histogram(GAUGE_HISTOGRAM, cat(&[varint_field(1, 1), bucket(Some(1), None, f64::INFINITY)]));
    assert!(matches!(value, MetricValue::GaugeHistogram(_)));
}

#[test]
fn native_integer_histogram() {
    let value = translate_histogram(
        HISTOGRAM,
        cat(&[
            sint_field(5, 2),
            double_field(6, 0.001),
            varint_field(7, 4),
            varint_field(1, 10),
            double_field(2, 42.0),
            span(12, 1, 2),
            sint_field(13, 3),
            sint_field(13, -1),
        ]),
    );
    let MetricValue::NativeHistogram(h) = value else {
        panic!("expected a native histogram");
    };
    assert_eq!(h.schema, 2);
    assert_eq!(fv(&h.zero_threshold), 0.001);
    let NativeCounts::Int { sample_count, zero_count, positive_spans, positive_deltas, .. } = h.counts else {
        panic!("expected integer native counts");
    };
    assert_eq!(sample_count, Some(10));
    assert_eq!(zero_count, 4);
    assert_eq!(positive_spans.len(), 1);
    assert_eq!(positive_spans[0].offset, 1);
    assert_eq!(positive_spans[0].length, 2);
    assert_eq!(positive_deltas, vec![3, -1]);
}

#[test]
fn native_float_histogram() {
    let value = translate_histogram(
        HISTOGRAM,
        cat(&[sint_field(5, 0), double_field(8, 1.5), double_field(4, 5.0), span(12, 0, 1), double_field(14, 2.5)]),
    );
    let MetricValue::NativeHistogram(h) = value else {
        panic!("expected a native histogram");
    };
    let NativeCounts::Float { sample_count, zero_count, positive_counts, .. } = h.counts else {
        panic!("expected float native counts");
    };
    assert_eq!(sample_count.as_ref().map(fv), Some(5.0));
    assert_eq!(fv(&zero_count), 1.5);
    assert_eq!(positive_counts.iter().map(fv).collect::<Vec<_>>(), vec![2.5]);
}

#[test]
fn hybrid_histogram() {
    let value = translate_histogram(
        HISTOGRAM,
        cat(&[
            varint_field(1, 7),
            double_field(2, 12.0),
            bucket(Some(7), None, f64::INFINITY),
            sint_field(5, 3),
            varint_field(7, 1),
            span(12, 0, 1),
            sint_field(13, 2),
        ]),
    );
    let MetricValue::HybridHistogram { classic, native } = value else {
        panic!("expected a hybrid histogram");
    };
    assert!(matches!(classic.counts, BucketCount::Int { .. }));
    assert_eq!(native.schema, 3);
    assert!(matches!(native.counts, NativeCounts::Int { .. }));
}

// ---- beyond the scenarios above ----

#[test]
fn packed_repeated_fields_decode() {
    // Deltas packed as zigzag varints, counts packed as little-endian doubles.
    let mut deltas = Vec::new();
    for d in [5i64, -3, 300] {
        varint(zigzag(d), &mut deltas);
    }
    let value = translate_histogram(HISTOGRAM, cat(&[sint_field(5, 1), bytes_field(13, &deltas)]));
    let MetricValue::NativeHistogram(h) = value else {
        panic!("expected a native histogram");
    };
    let NativeCounts::Int { positive_deltas, .. } = h.counts else {
        panic!("expected integer native counts");
    };
    assert_eq!(positive_deltas, vec![5, -3, 300]);

    let mut counts = Vec::new();
    for c in [1.5f64, 2.25] {
        counts.extend_from_slice(&c.to_le_bytes());
    }
    let value = translate_histogram(HISTOGRAM, cat(&[sint_field(5, -2), bytes_field(11, &counts)]));
    let MetricValue::NativeHistogram(h) = value else {
        panic!("expected a native histogram");
    };
    assert_eq!(h.schema, -2);
    let NativeCounts::Float { negative_counts, .. } = h.counts else {
        panic!("expected float native counts");
    };
    assert_eq!(negative_counts.iter().map(fv).collect::<Vec<_>>(), vec![1.5, 2.25]);
}

#[test]
fn missing_fields_are_reported_in_order() {
    // No type.
    let err = proto_parse_family(&bytes_field(1, b"x")).unwrap_err();
    assert!(matches!(&err, ParseError::MissingField(m) if m == "MetricFamily: type"));
    // No name.
    let err = proto_parse_family(&varint_field(3, 1)).unwrap_err();
    assert!(matches!(&err, ParseError::MissingField(m) if m == "MetricFamily: name"));
    // A metric with no value field.
    let bytes = cat(&[bytes_field(1, b"x"), varint_field(3, 1), bytes_field(4, &[])]);
    let err = proto_parse_family(&bytes).unwrap_err();
    assert!(matches!(&err, ParseError::MissingField(m) if m == "Metric: gauge, counter, summary, histogram, or untyped"));
    // A gauge with no value.
    let bytes = cat(&[bytes_field(1, b"x"), varint_field(3, 1), bytes_field(4, &bytes_field(2, &[]))]);
    let err = proto_parse_family(&bytes).unwrap_err();
    assert!(matches!(&err, ParseError::MissingField(m) if m == "Gauge: value"));
    // A label with no name (reported before the value).
    let metric = cat(&[bytes_field(1, &bytes_field(2, b"v")), bytes_field(2, &[])]);
    let bytes = cat(&[bytes_field(1, b"x"), varint_field(3, 1), bytes_field(4, &metric)]);
    let err = proto_parse_family(&bytes).unwrap_err();
    assert!(matches!(&err, ParseError::MissingField(m) if m == "LabelPair: name"));
    // A native histogram with no schema: classic with no buckets instead.
    let value = translate_histogram(HISTOGRAM, varint_field(1, 0));
    assert!(matches!(value, MetricValue::Histogram(_)));
}

#[test]
fn wire_errors_are_decode_errors() {
    // A string field given as a varint.
    let err = proto_parse_family(&varint_field(1, 7)).unwrap_err();
    assert!(matches!(err, ParseError::ProtoDecodeError(_)));
    // A name that is not UTF-8.
    let err = proto_parse_family(&bytes_field(1, &[0xff])).unwrap_err();
    assert!(matches!(err, ParseError::ProtoDecodeError(_)));
    // A truncated body.
    let err = proto_parse_family(&[0x0a, 0x05, b'a']).unwrap_err();
    assert!(matches!(err, ParseError::ProtoDecodeError(_)));
}

#[test]
fn counter_summary_untyped_and_timestamps() {
    let ts = cat(&[varint_field(1, 1_600_000_000), varint_field(2, 1_500_000_000)]);
    let counter = cat(&[double_field(1, 7.0), bytes_field(3, &ts)]);
    let q = cat(&[double_field(1, 0.5), double_field(2, 0.25)]);
    let summary = cat(&[varint_field(1, 9), double_field(2, 4.5), bytes_field(3, &q)]);
    let m1 = cat(&[bytes_field(3, &counter), varint_field(6, (-1500i64) as u64)]);
    let m2 = bytes_field(4, &summary);
    let m3 = bytes_field(5, &double_field(1, -2.0));
    let bytes = cat(&[bytes_field(1, b"mix"), varint_field(3, 0), bytes_field(4, &m1), bytes_field(4, &m2), bytes_field(4, &m3)]);
    let fam = proto_parse_family(&bytes).unwrap().into_owned();
    assert_eq!(fam.metric_type, MetricType::Counter);
    let MetricValue::Counter(c) = &fam.metric[0].value else {
        panic!("expected a counter");
    };
    // 1.5e9 nanoseconds carry into the seconds.
    assert!(matches!(c.created_timestamp, Some(TimestampValue::Exact(t)) if t.seconds == 1_600_000_001 && t.nanos == 500_000_000));
    // -1500 ms is -2 s + 500 ms.
    assert!(matches!(fam.metric[0].timestamp, Some(TimestampValue::Exact(t)) if t.seconds == -2 && t.nanos == 500_000_000));
    let MetricValue::Summary(s) = &fam.metric[1].value else {
        panic!("expected a summary");
    };
    assert_eq!(s.quantile.len(), 1);
    assert_eq!(fv(&s.quantile[0].value), 0.25);
    assert!(matches!(&fam.metric[2].value, MetricValue::Untyped(Number::Float(v)) if fv(v) == -2.0));
}

#[test]
fn repeated_singular_message_fields_merge() {
    // Two occurrences of the gauge field merge; the later value wins.
    let metric = cat(&[bytes_field(2, &double_field(1, 1.0)), bytes_field(2, &double_field(1, 2.0))]);
    let bytes = cat(&[bytes_field(1, b"g"), varint_field(3, 1), bytes_field(4, &metric)]);
    let fam = proto_parse_family(&bytes).unwrap();
    assert!(matches!(&fam.metric[0].value, prometheus_scraper::borrowed::MetricValue::Gauge(Number::Float(v)) if fv(v) == 2.0));
}

#[test]
fn a_body_always_parses_to_the_same_family() {
    let metric = cat(&[
        bytes_field(1, &cat(&[bytes_field(1, b"code"), bytes_field(2, b"200")])),
        bytes_field(3, &double_field(1, 7.0)),
        varint_field(6, 1_600_000_000_123),
    ]);
    let bytes = cat(&[bytes_field(1, b"reqs"), bytes_field(2, b"Requests"), varint_field(3, 0), bytes_field(4, &metric)]);
    let a = format!("{:?}", proto_parse_family(&bytes).unwrap().into_owned());
    let b = format!("{:?}", proto_parse_family(&bytes).unwrap().into_owned());
    assert_eq!(a, b);
    let fam = proto_parse_family(&bytes).unwrap();
    assert_eq!(fam.name, "reqs");
    assert_eq!(fam.metric_type, MetricType::Counter);
    assert_eq!(fam.metric.len(), 1);
}

#[test]
fn merged_counter_keeps_its_exemplar_labels() {
    // The counter field occurs twice: the first occurrence carries the
    // exemplar, the second the value. They merge into one counter.
    let label = cat(&[bytes_field(1, b"trace_id"), bytes_field(2, b"abc")]);
    let exemplar = cat(&[bytes_field(1, &label), double_field(2, 0.5)]);
    let metric = cat(&[
        bytes_field(3, &bytes_field(2, &exemplar)),
        bytes_field(3, &double_field(1, 9.0)),
    ]);
    let bytes = cat(&[bytes_field(1, b"c"), varint_field(3, 0), bytes_field(4, &metric)]);
    let fam = proto_parse_family(&bytes).unwrap().into_owned();
    let MetricValue::Counter(c) = &fam.metric[0].value else {
        panic!("expected a counter");
    };
    let e = c.exemplar.as_ref().expect("exemplar kept");
    assert_eq!(e.label[0].name, "trace_id");
    assert_eq!(e.label[0].value, "abc");
    assert_eq!(fv(&e.value), 0.5);
}

fn fixed32_field(n: u32, v: u32) -> Vec<u8> {
    let mut out = Vec::new();
    tag(n, 5, &mut out);
    out.extend_from_slice(&v.to_le_bytes());
    out
}

fn group_field(n: u32, body: &[u8]) -> Vec<u8> {
    let mut out = Vec::new();
    tag(n, 3, &mut out);
    out.extend_from_slice(body);
    tag(n, 4, &mut out);
    out
}

#[test]
fn unknown_fields_of_every_wire_type_are_skipped() {
    let metric = cat(&[bytes_field(2, &double_field(1, 3.0)), fixed32_field(40, 7)]);
    let bytes = cat(&[
        varint_field(100, 12345),
        bytes_field(1, b"g"),
        double_field(101, 1.5),
        fixed32_field(102, 0xdead_beef),
        group_field(103, &cat(&[varint_field(1, 5), bytes_field(2, b"x")])),
        bytes_field(104, b"ignored"),
        varint_field(3, 1),
        bytes_field(4, &metric),
    ]);
    let fam = proto_parse_family(&bytes).unwrap();
    assert_eq!(fam.name, "g");
    assert_eq!(fam.metric_type, MetricType::Gauge);
    assert_eq!(fam.metric.len(), 1);
    assert!(matches!(
        &fam.metric[0].value,
        prometheus_scraper::borrowed::MetricValue::Gauge(Number::Float(v)) if fv(v) == 3.0
    ));
}

#[test]
fn malformed_records_are_decode_errors() {
    // An end-group tag with no group open.
    let mut stray = bytes_field(1, b"g");
    tag(9, 4, &mut stray);
    assert!(matches!(proto_parse_family(&stray), Err(ParseError::ProtoDecodeError(_))));
    // A group that never ends.
    let mut open = bytes_field(1, b"g");
    tag(9, 3, &mut open);
    assert!(matches!(proto_parse_family(&open), Err(ParseError::ProtoDecodeError(_))));
    // A fixed32 value cut short.
    let mut short = bytes_field(1, b"g");
    tag(9, 5, &mut short);
    short.extend_from_slice(&[1, 2]);
    assert!(matches!(proto_parse_family(&short), Err(ParseError::ProtoDecodeError(_))));
    // Field number zero.
    let zero = [0x00u8, 0x01];
    assert!(matches!(proto_parse_family(&zero), Err(ParseError::ProtoDecodeError(_))));
    // Wire type 6 does not exist.
    let mut bad = Vec::new();
    tag(1, 6, &mut bad);
    assert!(matches!(proto_parse_family(&bad), Err(ParseError::ProtoDecodeError(_))));
}

#[test]
fn a_record_may_not_run_across_merged_occurrences() {
    // The gauge field occurs twice; a double record starts in the first
    // occurrence and ends in the second. Occurrences merge one by one, so
    // the first does not read as whole records and the family fails.
    let record = double_field(1, 3.0);
    let (head, tail) = record.split_at(4);
    let metric = cat(&[bytes_field(2, head), bytes_field(2, tail)]);
    let bytes = cat(&[bytes_field(1, b"g"), varint_field(3, 1), bytes_field(4, &metric)]);
    assert!(matches!(proto_parse_family(&bytes), Err(ParseError::ProtoDecodeError(_))));
}

#[test]
fn empty_float_classic_histogram_is_float() {
    // A float sample count of zero still marks the histogram as float: the
    // presence of a float count, not its value, decides.
    let value = translate_histogram(HISTOGRAM, cat(&[double_field(4, 0.0), bucket(None, Some(0.0), f64::INFINITY)]));
    let MetricValue::Histogram(h) = value else {
        panic!("expected a classic histogram");
    };
    let BucketCount::Float { sample_count, buckets } = h.counts else {
        panic!("expected float bucket counts");
    };
    assert_eq!(sample_count.as_ref().map(fv), Some(0.0));
    assert_eq!(buckets.len(), 1);
    assert_eq!(fv(&buckets[0].cumulative_count), 0.0);
    assert!(fv(&buckets[0].upper_bound).is_infinite());
    assert!(buckets[0].exemplar.is_none());
}

#[test]
fn merged_occurrences_keep_exemplar_labels_borrowed() {
    // The counter field occurs twice and its exemplar lives in the first
    // occurrence: merging occurrence by occurrence keeps the exemplar's
    // label text pointing into the input.
    let label = cat(&[bytes_field(1, b"trace_id"), bytes_field(2, b"abc")]);
    let exemplar = cat(&[bytes_field(1, &label), double_field(2, 0.5)]);
    let metric = cat(&[bytes_field(3, &bytes_field(2, &exemplar)), bytes_field(3, &double_field(1, 9.0))]);
    let bytes = cat(&[bytes_field(1, b"c"), varint_field(3, 0), bytes_field(4, &metric)]);
    let fam = proto_parse_family(&bytes).unwrap();
    let prometheus_scraper::borrowed::MetricValue::Counter(c) = &fam.metric[0].value else {
        panic!("expected a counter");
    };
    let e = c.exemplar.as_ref().expect("exemplar kept");
    assert!(matches!(e.label[0].name, std::borrow::Cow::Borrowed(_)));
    assert!(matches!(e.label[0].value, std::borrow::Cow::Borrowed(_)));
    let buf = bytes.as_ptr_range();
    assert!(buf.contains(&e.label[0].value.as_ptr()));
}
