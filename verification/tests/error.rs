use prometheus_scraper::payload::parse_frame;
use prometheus_scraper::{proto_parse_family, Decoder, Format, ParseError, TextFormat};

#[test]
fn messages_name_the_problem() {
    assert_eq!(
        ParseError::MissingField("LabelPair: name".to_string()).message(),
        "missing required field: LabelPair: name"
    );
    assert_eq!(
        ParseError::InvalidFieldValue(("MetricFamily: type".to_string(), "42".to_string())).message(),
        "invalid field value: MetricFamily: type = 42"
    );
    assert_eq!(
        ParseError::InvalidLine("a b c".to_string()).message(),
        "invalid text exposition line: a b c"
    );
    assert_eq!(ParseError::IncompleteFrame.message(), "incomplete or malformed frame");
}

#[test]
fn messages_of_wrapped_errors_keep_their_prefix() {
    let err = proto_parse_family(&[0x0a, 0x05, b'a']).unwrap_err();
    assert!(matches!(err, ParseError::ProtoDecodeError(_)));
    let m = err.message();
    assert!(m.starts_with("protobuf decode error: "));
    assert!(m.len() > "protobuf decode error: ".len());

    let err = parse_frame(Format::Text(TextFormat::OpenMetrics), &[0x61, 0x20, 0xff, 0x0a]).unwrap_err();
    assert!(matches!(err, ParseError::InvalidUtf8(_)));
    assert!(err.message().starts_with("invalid UTF-8 in text frame: "));
}

#[test]
fn buffered_counts_unframed_bytes() {
    let mut dec = Decoder::new(Format::Text(TextFormat::OpenMetrics));
    assert_eq!(dec.buffered(), 0);
    dec.push(b"# TYPE a gauge\na 1\n");
    assert_eq!(dec.buffered(), 19);
    dec.push(b"# TYPE b gauge\n");
    let first = dec.next_owned().unwrap().unwrap();
    assert_eq!(first.name, "a");
    assert_eq!(dec.buffered(), 15);
}

#[test]
fn wire_type_mismatch_names_field_and_types() {
    // Field 1 (the family name, a string) given as a varint.
    let err = proto_parse_family(&[0x08, 0x07]).unwrap_err();
    assert!(matches!(err, ParseError::ProtoDecodeError(_)));
    assert_eq!(err.message(), "protobuf decode error: wire type mismatch on field 1: expected 2, got 0");
}
