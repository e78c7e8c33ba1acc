use prometheus_scraper::client::{accept_header, detect_format, on_body_event, BodyEvent};
use prometheus_scraper::{Decoder, Format, ParseError, TextFormat};

#[test]
fn detects_format_from_content_type() {
    assert_eq!(detect_format("application/openmetrics-text; version=1.0.0"), Format::Text(TextFormat::OpenMetrics));
    assert_eq!(detect_format("text/plain; version=0.0.4; charset=utf-8"), Format::Text(TextFormat::Prometheus));
    assert_eq!(detect_format("application/vnd.google.protobuf; encoding=delimited"), Format::Protobuf);
    assert_eq!(detect_format("Application/OpenMetrics-Text"), Format::Text(TextFormat::OpenMetrics));
    assert_eq!(detect_format("application/json"), Format::Text(TextFormat::Guess));
    assert_eq!(detect_format(""), Format::Text(TextFormat::Guess));
}

#[test]
fn accept_header_lists_protobuf_first_when_asked() {
    assert_eq!(
        accept_header(false),
        "application/openmetrics-text; version=1.0.0, text/plain; version=0.0.4; q=0.9, */*; q=0.1"
    );
    assert_eq!(
        accept_header(true),
        "application/vnd.google.protobuf; proto=io.prometheus.client.MetricFamily; encoding=delimited, \
         application/openmetrics-text; version=1.0.0, text/plain; version=0.0.4; q=0.9, */*; q=0.1"
    );
}

const BODY: &[u8] = b"# TYPE a gauge\na 1\n# TYPE b gauge\nb{ 2\n# TYPE c gauge\nc 3\n";

fn names(fs: &[Result<prometheus_scraper::owned::MetricFamily, ParseError>]) -> Vec<String> {
    fs.iter().map(|r| match r {
        Ok(f) => f.name.clone(),
        Err(_) => "<err>".to_string(),
    }).collect()
}

#[test]
fn body_events_hand_out_families_as_they_complete() {
    for split in 0..=BODY.len() {
        let mut d = Decoder::new(Format::Text(TextFormat::OpenMetrics));
        let mut got = Vec::new();
        for chunk in [&BODY[..split], &BODY[split..]] {
            let step = on_body_event(&mut d, BodyEvent::Chunk(chunk));
            assert!(!step.done);
            got.extend(step.families);
        }
        let step = on_body_event(&mut d, BodyEvent::Ended);
        assert!(step.done);
        got.extend(step.families);
        assert_eq!(names(&got), ["a", "<err>", "c"], "split at {split}");
    }
}

#[test]
fn a_failed_body_read_stops_without_flushing() {
    let mut d = Decoder::new(Format::Text(TextFormat::OpenMetrics));
    let step = on_body_event(&mut d, BodyEvent::Chunk(b"# TYPE a gauge\na 1\n"));
    assert!(step.families.is_empty());
    let step = on_body_event(&mut d, BodyEvent::Failed);
    assert!(step.done);
    assert!(step.families.is_empty());
    assert_eq!(d.buffered(), 19);
}
