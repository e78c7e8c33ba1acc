use std::borrow::Cow;
use prometheus_scraper::borrowed::MetricFamily;
use prometheus_scraper::owned::MetricType;
use prometheus_scraper::payload::{parse_frame, Families};
use prometheus_scraper::{parse_payload, Decoder, Format, ParseError, TextFormat};

const PAYLOAD: &str = "# TYPE a counter\na_total 1\n\
                       # TYPE b gauge\nb 2\n\
                       # TYPE c counter\nc_total 3\n";

fn om() -> Format {
    Format::Text(TextFormat::OpenMetrics)
}

fn all<'a>(mut it: Families<'a>) -> Vec<Result<MetricFamily<'a>, ParseError>> {
    let mut out = Vec::new();
    while let Some(r) = it.next() {
        out.push(r);
    }
    out
}

#[test]
fn parse_yields_each_family() {
    let fams: Vec<_> = all(parse_payload(PAYLOAD.as_bytes(), om())).into_iter().map(|r| r.unwrap()).collect();
    assert_eq!(fams.len(), 3);
    assert_eq!(fams[0].name, "a");
    assert_eq!(fams[0].metric_type, MetricType::Counter);
    assert_eq!(fams[1].name, "b");
    assert_eq!(fams[1].metric_type, MetricType::Gauge);
    assert_eq!(fams[2].name, "c");
}

#[test]
fn malformed_family_is_isolated() {
    let payload = "# TYPE a gauge\na 1\n# TYPE b gauge\nb nope\n# TYPE c gauge\nc 3\n";
    let results = all(parse_payload(payload.as_bytes(), om()));
    assert_eq!(results.len(), 3);
    assert!(results[0].is_ok());
    assert!(matches!(results[1], Err(ParseError::InvalidLine(_))));
    assert!(results[2].is_ok());
}

#[test]
fn decoder_one_shot_matches_parse() {
    let mut dec = Decoder::new(om());
    dec.push(PAYLOAD.as_bytes());
    dec.finish();
    let names: Vec<_> = dec.iter_owned().into_iter().map(|r| r.unwrap().name).collect();
    assert_eq!(names, ["a", "b", "c"]);
}

#[test]
fn decoder_is_chunk_invariant() {
    let expected: Vec<String> =
        all(parse_payload(PAYLOAD.as_bytes(), om())).into_iter().map(|r| r.unwrap().name.into_owned()).collect();
    let bytes = PAYLOAD.as_bytes();
    for split in 0..=bytes.len() {
        let mut dec = Decoder::new(om());
        let mut got = Vec::new();
        dec.push(&bytes[..split]);
        while let Some(r) = dec.next_owned() {
            got.push(r.unwrap().name);
        }
        dec.push(&bytes[split..]);
        dec.finish();
        while let Some(r) = dec.next_owned() {
            got.push(r.unwrap().name);
        }
        assert_eq!(got, expected, "mismatch when split at byte {split}");
    }
}

#[test]
fn next_family_is_zero_copy_lending() {
    let mut dec = Decoder::new(om());
    dec.push(PAYLOAD.as_bytes());
    dec.finish();
    let mut count = 0;
    while let Some(r) = dec.next_family() {
        assert!(r.is_ok());
        count += 1;
    }
    assert_eq!(count, 3);
}

// ---- protobuf ------------------------------------------------------

fn varint(mut v: u64, out: &mut Vec<u8>) {
    loop {
        let mut b = (v & 0x7f) as u8;
        v >>= 7;
        if v != 0 {
            b |= 0x80;
        }
        out.push(b);
        if v == 0 {
            break;
        }
    }
}

fn field_bytes(n: u32, body: &[u8]) -> Vec<u8> {
    let mut out = Vec::new();
    varint(((n as u64) << 3) | 2, &mut out);
    varint(body.len() as u64, &mut out);
    out.extend_from_slice(body);
    out
}

fn field_varint(n: u32, v: u64) -> Vec<u8> {
    let mut out = Vec::new();
    varint((n as u64) << 3, &mut out);
    varint(v, &mut out);
    out
}

fn field_double(n: u32, v: f64) -> Vec<u8> {
    let mut out = Vec::new();
    varint(((n as u64) << 3) | 1, &mut out);
    out.extend_from_slice(&v.to_le_bytes());
    out
}

fn proto_family(name: &str, value: f64) -> Vec<u8> {
    let gauge = field_double(1, value);
    let metric = field_bytes(2, &gauge);
    let mut fam = field_bytes(1, name.as_bytes());
    fam.extend(field_varint(3, 1));
    fam.extend(field_bytes(4, &metric));
    fam
}

fn delimit(msg: &[u8]) -> Vec<u8> {
    let mut out = Vec::new();
    varint(msg.len() as u64, &mut out);
    out.extend_from_slice(msg);
    out
}

fn proto_stream() -> Vec<u8> {
    let mut buf = Vec::new();
    for (n, v) in [("a", 1.0), ("b", 2.0), ("c", 3.0)] {
        buf.extend(delimit(&proto_family(n, v)));
    }
    buf
}

#[test]
fn proto_parse_yields_each_family() {
    let buf = proto_stream();
    let names: Vec<_> =
        all(parse_payload(&buf, Format::Protobuf)).into_iter().map(|r| r.unwrap().name.into_owned()).collect();
    assert_eq!(names, ["a", "b", "c"]);
}

#[test]
fn proto_decoder_is_chunk_invariant() {
    let buf = proto_stream();
    let expected = ["a", "b", "c"];
    for split in 0..=buf.len() {
        let mut dec = Decoder::new(Format::Protobuf);
        let mut got = Vec::new();
        dec.push(&buf[..split]);
        while let Some(r) = dec.next_owned() {
            got.push(r.unwrap().name);
        }
        dec.push(&buf[split..]);
        dec.finish();
        while let Some(r) = dec.next_owned() {
            got.push(r.unwrap().name);
        }
        assert_eq!(got, expected, "mismatch when split at byte {split}");
    }
}

#[test]
fn proto_truncated_final_frame_errors() {
    let mut buf = delimit(&proto_family("a", 1.0));
    buf.pop();
    let results = all(parse_payload(&buf, Format::Protobuf));
    assert_eq!(results.len(), 1);
    assert!(matches!(results[0], Err(ParseError::IncompleteFrame)));
}

#[test]
fn proto_corrupt_body_resyncs() {
    let mut buf = delimit(&[0xff, 0xff, 0xff]);
    buf.extend(delimit(&proto_family("ok", 1.0)));
    let results = all(parse_payload(&buf, Format::Protobuf));
    assert_eq!(results.len(), 2);
    assert!(results[0].is_err());
    assert_eq!(results[1].as_ref().unwrap().name, "ok");
}

// ---- beyond the scenarios above ----

#[test]
fn decoder_is_chunk_invariant_byte_by_byte() {
    // Law: any chunking gives the items of the whole payload.
    for fmt in [om(), Format::Protobuf] {
        let buf: Vec<u8> = if fmt == Format::Protobuf { proto_stream() } else { PAYLOAD.as_bytes().to_vec() };
        let mut dec = Decoder::new(fmt);
        let mut got = Vec::new();
        for b in &buf {
            dec.push(std::slice::from_ref(b));
            got.extend(dec.iter_owned().into_iter().map(|r| r.unwrap().name));
        }
        dec.finish();
        got.extend(dec.iter_owned().into_iter().map(|r| r.unwrap().name));
        assert_eq!(got, ["a", "b", "c"]);
    }
}

#[test]
fn invalid_utf8_text_frame_is_an_error() {
    let r = parse_frame(om(), &[0x61, 0x20, 0xff, 0x0a]);
    assert!(matches!(r, Err(ParseError::InvalidUtf8(_))));
    let results = all(parse_payload(b"# TYPE a gauge\na 1\n# TYPE b gauge\nb\xff 2\n", om()));
    assert_eq!(results.len(), 2);
    assert!(results[0].is_ok());
    assert!(matches!(results[1], Err(ParseError::InvalidUtf8(_))));
}

#[test]
fn unrecoverable_prefix_ends_the_stream() {
    let mut buf = vec![0x80u8; 11];
    buf.extend(delimit(&proto_family("a", 1.0)));
    let results = all(parse_payload(&buf, Format::Protobuf));
    assert_eq!(results.len(), 1);
    assert!(matches!(results[0], Err(ParseError::IncompleteFrame)));
    let mut dec = Decoder::new(Format::Protobuf);
    dec.push(&buf);
    assert!(matches!(dec.next_owned(), Some(Err(ParseError::IncompleteFrame))));
    assert!(dec.next_owned().is_none());
    dec.finish();
    assert!(dec.next_owned().is_none());
}

#[test]
fn decoder_waits_for_the_trailing_text_family() {
    let mut dec = Decoder::new(om());
    dec.push(b"# TYPE a gauge\na 1\n");
    assert!(dec.next_owned().is_none());
    dec.finish();
    let fam = dec.next_owned().unwrap().unwrap();
    assert_eq!(fam.name, "a");
    assert!(dec.next_owned().is_none());
}

#[test]
fn text_eof_marker_stops_the_payload() {
    let results = all(parse_payload(b"# TYPE a gauge\na 1\n# EOF\n# TYPE b gauge\nb 2\n", om()));
    assert_eq!(results.len(), 1);
    assert_eq!(results[0].as_ref().unwrap().name, "a");
}

#[test]
fn parsed_strings_borrow_the_input_unless_escaped() {
    let body = b"# TYPE c counter\n# HELP c Requests.\nc_total{code=\"200\"} 1 # {trace=\"x\"} 1\n\
                 # TYPE s stateset\ns{s=\"on\"} 1\n\
                 # TYPE e gauge\n# HELP e A \\\"quoted\\\" help.\ne{v=\"a\\\\b\"} 1\n";
    let fams: Vec<_> = all(parse_payload(body, Format::Text(TextFormat::OpenMetrics))).into_iter().map(|r| r.unwrap()).collect();
    assert_eq!(fams.len(), 3);
    let c = &fams[0];
    assert!(matches!(c.name, Cow::Borrowed(_)));
    assert!(matches!(c.help, Some(Cow::Borrowed(_))));
    assert!(matches!(c.metric[0].label[0].value, Cow::Borrowed(_)));
    let prometheus_scraper::borrowed::MetricValue::Counter(ctr) = &c.metric[0].value else {
        panic!("expected a counter");
    };
    assert!(matches!(ctr.exemplar.as_ref().unwrap().label[0].value, Cow::Borrowed(_)));
    let prometheus_scraper::borrowed::MetricValue::StateSet(ss) = &fams[1].metric[0].value else {
        panic!("expected a state set");
    };
    assert!(matches!(ss.states[0].name, Cow::Borrowed(_)));
    // Escapes force a copy.
    let e = &fams[2];
    assert!(matches!(e.help, Some(Cow::Owned(_))));
    assert_eq!(e.help.as_deref(), Some("A \"quoted\" help."));
    assert!(matches!(e.metric[0].label[0].value, Cow::Owned(_)));
    assert_eq!(e.metric[0].label[0].value, "a\\b");
    assert!(matches!(e.metric[0].label[0].name, Cow::Borrowed(_)));
}

#[test]
fn cursor_ends_for_good_within_the_payload_length() {
    let mut buf = delimit(&proto_family("a", 1.0));
    buf.extend([0x80u8; 11]);
    buf.extend(delimit(&proto_family("b", 2.0)));
    let mut it = parse_payload(&buf, Format::Protobuf);
    let mut n = 0;
    while it.next().is_some() {
        n += 1;
    }
    assert_eq!(n, 2);
    assert!(n <= buf.len());
    assert!(it.next().is_none());
    assert!(it.next().is_none());
}

#[test]
fn text_dialects_frame_alike_and_differ_in_timestamp_units() {
    let body: &[u8] = b"# TYPE a gauge\na 1 1000\n# TYPE b gauge\nb{ 2\n# TYPE c gauge\nc 3\n";
    let p = all(parse_payload(body, Format::Text(TextFormat::Prometheus)));
    let o = all(parse_payload(body, om()));
    assert_eq!(p.len(), 3);
    assert_eq!(o.len(), 3);
    for (x, y) in p.iter().zip(o.iter()) {
        assert_eq!(x.is_ok(), y.is_ok());
        if let (Ok(x), Ok(y)) = (x, y) {
            assert_eq!(x.name, y.name);
            assert_eq!(x.metric.len(), y.metric.len());
        }
    }
    let unit = |r: &Result<MetricFamily<'_>, ParseError>| match &r.as_ref().unwrap().metric[0].timestamp {
        Some(prometheus_scraper::owned::TimestampValue::Decimal { text, unit }) => (text.clone(), *unit),
        other => panic!("unexpected timestamp {other:?}"),
    };
    assert_eq!(unit(&p[0]), ("1000".to_string(), prometheus_scraper::owned::TimeUnit::Milliseconds));
    assert_eq!(unit(&o[0]), ("1000".to_string(), prometheus_scraper::owned::TimeUnit::Seconds));
    match (&p[1], &o[1]) {
        (Err(ParseError::InvalidLine(a)), Err(ParseError::InvalidLine(b))) => assert_eq!(a, b),
        _ => panic!("expected the same invalid line in both dialects"),
    }
}
