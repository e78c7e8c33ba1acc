use std::borrow::Cow;

use prometheus_scraper::borrowed::{BucketCount, Metric, MetricValue};
use prometheus_scraper::owned::{FloatValue, MetricType, Number, TimeUnit, TimestampValue, UnsignedNumber};
use prometheus_scraper::text::header::parse_header;
use prometheus_scraper::{text_parse_family as parse_family, ParseError, TextFormat};

/// The `f64` a float value denotes.
fn fv(v: &FloatValue) -> f64 {
    match v {
        FloatValue::Decimal(s) => s.parse().unwrap(),
        FloatValue::Bits(b) => f64::from_bits(*b),
        FloatValue::Unsigned(u) => *u as f64,
    }
}

fn seconds_to_ts(secs: f64) -> (i64, i64) {
    if !secs.is_finite() {
        return (0, 0);
    }
    let whole = secs.floor();
    let mut seconds = whole as i64;
    let mut nanos = ((secs - whole) * 1_000_000_000.0).round() as i64;
    if nanos >= 1_000_000_000 {
        seconds = seconds.saturating_add(1);
        nanos -= 1_000_000_000;
    }
    if nanos < 0 {
        nanos = 0;
    }
    (seconds, nanos)
}

/// The instant a timestamp denotes, as seconds and nanoseconds.
fn instant(t: &Option<TimestampValue>) -> Option<(i64, i64)> {
    let t = t.as_ref()?;
    Some(match t {
        TimestampValue::Exact(ts) => (ts.seconds, ts.nanos as i64),
        TimestampValue::Decimal { text, unit } => {
            let f: f64 = text.parse().unwrap();
            let secs = match unit {
                TimeUnit::Seconds => f,
                TimeUnit::Milliseconds => f / 1000.0,
                TimeUnit::Nearest => {
                    let now = std::time::SystemTime::now()
                        .duration_since(std::time::UNIX_EPOCH)
                        .unwrap()
                        .as_secs_f64();
                    if (f / 1000.0 - now).abs() < (f - now).abs() { f / 1000.0 } else { f }
                },
            };
            seconds_to_ts(secs)
        },
    })
}

fn header(input: &str) -> (prometheus_scraper::text::header::FamilyHeader<'_>, &str) {
    let (h, rest) = parse_header(input, input.as_bytes(), 0);
    (h, &input[rest..])
}

// ---- header --------------------------------------------------------

#[test]
fn parses_canonical_order() {
    let input = "# TYPE foo_seconds histogram\n\
                 # UNIT foo_seconds seconds\n\
                 # HELP foo_seconds A histogram.\n\
                 foo_seconds_count 5\n";
    let (h, rest) = header(input);
    assert_eq!(h.name.as_deref(), Some("foo_seconds"));
    assert_eq!(h.typ, Some(MetricType::Histogram));
    assert_eq!(h.unit.as_deref(), Some("seconds"));
    assert_eq!(h.help.as_deref(), Some("A histogram."));
    assert_eq!(rest, "foo_seconds_count 5\n");
}

#[test]
fn order_independent_help_before_type() {
    let input = "# HELP x docs\n# TYPE x counter\nx_total 1\n";
    let (h, rest) = header(input);
    assert_eq!(h.help.as_deref(), Some("docs"));
    assert_eq!(h.typ, Some(MetricType::Counter));
    assert_eq!(rest, "x_total 1\n");
}

#[test]
fn missing_type_is_none() {
    let input = "# HELP x docs\nx 1\n";
    let (h, _rest) = header(input);
    assert_eq!(h.typ, None);
    assert_eq!(h.help.as_deref(), Some("docs"));
}

#[test]
fn unknown_untyped_and_garbage_map_to_untyped() {
    for kw in ["unknown", "untyped", "UNKNOWN", "weirdtype"] {
        let input = format!("# TYPE x {kw}\n");
        let (h, _r) = header(&input);
        assert_eq!(h.typ, Some(MetricType::Untyped), "kw={kw}");
    }
}

#[test]
fn escaped_help_allocates_and_resolves() {
    let input = "# HELP x line\\none\\\\two \\\"q\\\"\n";
    let (h, _r) = header(input);
    assert_eq!(h.help.as_deref(), Some("line\none\\two \"q\""));
    assert!(matches!(h.help, Some(Cow::Owned(_))));
}

// ---- helpers -------------------------------------------------------

fn one<'a, 'b>(metrics: &'a [Metric<'b>]) -> &'a Metric<'b> {
    assert_eq!(metrics.len(), 1, "expected exactly one metric");
    &metrics[0]
}

fn label<'a>(m: &'a Metric<'_>, name: &str) -> Option<&'a str> {
    m.label.iter().find(|l| l.name == name).map(|l| l.value.as_ref())
}

// ---- full family parsing ------------------------------------------

#[test]
fn gauge_int_vs_float() {
    let text = "# TYPE temp gauge\n\
                # HELP temp Temperature\n\
                temp{room=\"kitchen\"} 21.5\n\
                temp{room=\"bath\"} 19\n";
    let fam = parse_family(text, TextFormat::OpenMetrics).unwrap();
    assert_eq!(fam.name, "temp");
    assert_eq!(fam.metric_type, MetricType::Gauge);
    assert_eq!(fam.help.as_deref(), Some("Temperature"));
    assert_eq!(fam.metric.len(), 2);
    assert_eq!(label(&fam.metric[0], "room"), Some("kitchen"));
    assert!(matches!(&fam.metric[0].value, MetricValue::Gauge(Number::Float(v)) if fv(v) == 21.5));
    assert!(matches!(fam.metric[1].value, MetricValue::Gauge(Number::Int(19))));
}

#[test]
fn untyped_without_header_derives_name() {
    let fam = parse_family("foo_bar 42\n", TextFormat::Prometheus).unwrap();
    assert_eq!(fam.name, "foo_bar");
    assert_eq!(fam.metric_type, MetricType::Untyped);
    assert!(matches!(one(&fam.metric).value, MetricValue::Untyped(Number::Int(42))));
}

#[test]
fn counter_classic_and_openmetrics_with_exemplar_and_created() {
    let text = "# TYPE http_requests counter\n\
                http_requests_total{code=\"200\"} 1027 # {trace_id=\"abc\"} 1.0\n\
                http_requests_created{code=\"200\"} 1605.5\n";
    let fam = parse_family(text, TextFormat::OpenMetrics).unwrap();
    let m = one(&fam.metric);
    assert_eq!(label(m, "code"), Some("200"));
    let MetricValue::Counter(c) = &m.value else {
        panic!("expected counter");
    };
    assert!(matches!(c.value, UnsignedNumber::Uint(1027)));
    let ex = c.exemplar.as_ref().expect("exemplar");
    assert_eq!(fv(&ex.value), 1.0);
    assert_eq!(ex.label[0].name, "trace_id");
    assert_eq!(ex.label[0].value, "abc");
    assert!(c.created_timestamp.is_some());
}

#[test]
fn classic_counter_bare_name() {
    let fam = parse_family("# TYPE foo counter\nfoo 5\n", TextFormat::Prometheus).unwrap();
    let MetricValue::Counter(c) = &one(&fam.metric).value else {
        panic!("expected counter");
    };
    assert!(matches!(c.value, UnsignedNumber::Uint(5)));
}

#[test]
fn histogram_buckets_sum_count() {
    let text = "# TYPE rt histogram\n\
                rt_bucket{le=\"0.1\"} 1\n\
                rt_bucket{le=\"+Inf\"} 3\n\
                rt_sum 0.35\n\
                rt_count 3\n";
    let fam = parse_family(text, TextFormat::OpenMetrics).unwrap();
    let MetricValue::Histogram(h) = &one(&fam.metric).value else {
        panic!("expected histogram");
    };
    assert!(matches!(&h.sample_sum, Some(Number::Float(v)) if fv(v) == 0.35));
    let BucketCount::Int { sample_count, buckets } = &h.counts else {
        panic!("expected integer buckets");
    };
    assert_eq!(*sample_count, Some(3));
    assert_eq!(buckets.len(), 2);
    assert_eq!(fv(&buckets[0].upper_bound), 0.1);
    assert_eq!(buckets[0].cumulative_count, 1);
    assert!(fv(&buckets[1].upper_bound).is_infinite());
    assert_eq!(buckets[1].cumulative_count, 3);
}

#[test]
fn histogram_groups_by_outer_labels() {
    let text = "# TYPE rt histogram\n\
                rt_bucket{path=\"/a\",le=\"0.1\"} 1\n\
                rt_bucket{path=\"/a\",le=\"+Inf\"} 2\n\
                rt_count{path=\"/a\"} 2\n\
                rt_bucket{path=\"/b\",le=\"+Inf\"} 5\n\
                rt_count{path=\"/b\"} 5\n";
    let fam = parse_family(text, TextFormat::OpenMetrics).unwrap();
    assert_eq!(fam.metric.len(), 2);
    assert_eq!(label(&fam.metric[0], "path"), Some("/a"));
    assert_eq!(label(&fam.metric[1], "path"), Some("/b"));
    assert_eq!(label(&fam.metric[0], "le"), None);
}

#[test]
fn float_histogram_detected_from_fractional_count() {
    let text = "# TYPE fh histogram\nfh_bucket{le=\"+Inf\"} 2.5\nfh_count 2.5\n";
    let fam = parse_family(text, TextFormat::OpenMetrics).unwrap();
    let MetricValue::Histogram(h) = &one(&fam.metric).value else {
        panic!("expected histogram");
    };
    let BucketCount::Float { sample_count, buckets } = &h.counts else {
        panic!("expected float buckets");
    };
    assert_eq!(sample_count.as_ref().map(fv), Some(2.5));
    assert_eq!(fv(&buckets[0].cumulative_count), 2.5);
}

#[test]
fn gauge_histogram_uses_gsum_gcount() {
    let text = "# TYPE gh gaugehistogram\n\
                gh_bucket{le=\"1\"} 2\n\
                gh_bucket{le=\"+Inf\"} 5\n\
                gh_gsum 8.0\n\
                gh_gcount 5\n";
    let fam = parse_family(text, TextFormat::OpenMetrics).unwrap();
    let MetricValue::GaugeHistogram(h) = &one(&fam.metric).value else {
        panic!("expected gauge histogram");
    };
    assert!(matches!(&h.sample_sum, Some(Number::Float(v)) if fv(v) == 8.0));
    let BucketCount::Int { sample_count, .. } = &h.counts else {
        panic!("expected integer buckets");
    };
    assert_eq!(*sample_count, Some(5));
}

#[test]
fn summary_quantiles_sum_count() {
    let text = "# TYPE lat summary\n\
                lat{quantile=\"0.5\"} 0.2\n\
                lat{quantile=\"0.9\"} 0.5\n\
                lat_sum 12.3\n\
                lat_count 100\n";
    let fam = parse_family(text, TextFormat::OpenMetrics).unwrap();
    let MetricValue::Summary(s) = &one(&fam.metric).value else {
        panic!("expected summary");
    };
    assert!(matches!(s.sample_count, Some(UnsignedNumber::Uint(100))));
    assert!(matches!(&s.sample_sum, Some(Number::Float(v)) if fv(v) == 12.3));
    assert_eq!(s.quantile.len(), 2);
    assert_eq!(fv(&s.quantile[0].quantile), 0.5);
    assert_eq!(fv(&s.quantile[0].value), 0.2);
    assert_eq!(fv(&s.quantile[1].quantile), 0.9);
}

/// Whether a state is enabled: its sample value is not zero.
fn enabled(n: &Number) -> bool {
    match n {
        Number::Int(i) => *i != 0,
        Number::Float(f) => fv(f) != 0.0,
    }
}

#[test]
fn stateset_collects_states() {
    let text = "# TYPE myset stateset\nmyset{myset=\"a\"} 1\nmyset{myset=\"b\"} 0\n";
    let fam = parse_family(text, TextFormat::OpenMetrics).unwrap();
    let m = one(&fam.metric);
    assert!(m.label.is_empty());
    let MetricValue::StateSet(ss) = &m.value else {
        panic!("expected stateset");
    };
    assert_eq!(ss.states.len(), 2);
    assert_eq!(ss.states[0].name, "a");
    assert!(enabled(&ss.states[0].value));
    assert_eq!(ss.states[1].name, "b");
    assert!(!enabled(&ss.states[1].value));
}

#[test]
fn stateset_groups_by_identity_labels() {
    let text = "# TYPE feature stateset\n\
                feature{env=\"prod\",feature=\"x\"} 1\n\
                feature{env=\"prod\",feature=\"y\"} 0\n";
    let fam = parse_family(text, TextFormat::OpenMetrics).unwrap();
    let m = one(&fam.metric);
    assert_eq!(label(m, "env"), Some("prod"));
    let MetricValue::StateSet(ss) = &m.value else {
        panic!("expected stateset");
    };
    assert_eq!(ss.states.len(), 2);
}

#[test]
fn info_labels_become_payload() {
    let text = "# TYPE build info\nbuild_info{version=\"1.2.3\",branch=\"main\"} 1\n";
    let fam = parse_family(text, TextFormat::OpenMetrics).unwrap();
    let m = one(&fam.metric);
    assert!(m.label.is_empty());
    let MetricValue::Info(info) = &m.value else {
        panic!("expected info");
    };
    assert_eq!(info.labels.len(), 2);
    assert_eq!(info.labels[0].name, "version");
    assert_eq!(info.labels[0].value, "1.2.3");
}

#[test]
fn utf8_name_in_braces_form() {
    let text = "# TYPE \"my.gauge\" gauge\n{\"my.gauge\",room=\"k\"} 3.5\n";
    let fam = parse_family(text, TextFormat::OpenMetrics).unwrap();
    assert_eq!(fam.name, "my.gauge");
    let m = one(&fam.metric);
    assert_eq!(label(m, "room"), Some("k"));
    assert!(matches!(&m.value, MetricValue::Gauge(Number::Float(v)) if fv(v) == 3.5));
}

#[test]
fn label_value_escapes_and_eof() {
    let text = "# TYPE m gauge\nm{path=\"C:\\\\dir\",msg=\"a\\nb\"} 1\n# EOF\nignored 9\n";
    let fam = parse_family(text, TextFormat::OpenMetrics).unwrap();
    let m = one(&fam.metric);
    assert_eq!(label(m, "path"), Some("C:\\dir"));
    assert_eq!(label(m, "msg"), Some("a\nb"));
}

#[test]
fn no_labels_and_trailing_timestamp() {
    let fam = parse_family("# TYPE g gauge\ng 12.47 1604676851\n", TextFormat::OpenMetrics).unwrap();
    let m = one(&fam.metric);
    assert!(m.label.is_empty());
    assert!(m.timestamp.is_some());
}

#[test]
fn timestamp_units_differ_by_format() {
    let prom = parse_family("# TYPE g gauge\ng 1 1604676851000\n", TextFormat::Prometheus).unwrap();
    let om = parse_family("# TYPE g gauge\ng 1 1604676851\n", TextFormat::OpenMetrics).unwrap();
    assert!(prom.metric[0].timestamp.is_some());
    assert_eq!(instant(&prom.metric[0].timestamp), instant(&om.metric[0].timestamp));
}

#[test]
fn guess_resolves_each_unit_by_proximity_to_now() {
    let now_s = std::time::SystemTime::now().duration_since(std::time::UNIX_EPOCH).unwrap().as_secs();
    let secs_text = format!("# TYPE g gauge\ng 1 {now_s}\n");
    let millis_text = format!("# TYPE g gauge\ng 1 {}\n", now_s * 1000);
    let secs = parse_family(&secs_text, TextFormat::Guess).unwrap();
    let millis = parse_family(&millis_text, TextFormat::Guess).unwrap();
    assert!(secs.metric[0].timestamp.is_some());
    assert_eq!(instant(&secs.metric[0].timestamp), instant(&millis.metric[0].timestamp));
    let explicit = parse_family(&secs_text, TextFormat::OpenMetrics).unwrap();
    assert_eq!(instant(&secs.metric[0].timestamp), instant(&explicit.metric[0].timestamp));
}

#[test]
fn guess_reads_fractional_timestamp_as_seconds() {
    let text = "# TYPE g gauge\ng 1 1700000000000.5\n";
    let guessed = parse_family(text, TextFormat::Guess).unwrap();
    let as_seconds = parse_family(text, TextFormat::OpenMetrics).unwrap();
    let as_millis = parse_family(text, TextFormat::Prometheus).unwrap();
    assert_eq!(instant(&guessed.metric[0].timestamp), instant(&as_seconds.metric[0].timestamp));
    assert_ne!(instant(&guessed.metric[0].timestamp), instant(&as_millis.metric[0].timestamp));
}

#[test]
fn malformed_value_is_an_error() {
    let err = parse_family("# TYPE g gauge\ng abc\n", TextFormat::OpenMetrics).unwrap_err();
    assert!(matches!(err, ParseError::InvalidLine(_)));
}

#[test]
fn blank_lines_are_ignored() {
    let fam = parse_family("# TYPE g gauge\n\ng 1\n\n", TextFormat::OpenMetrics).unwrap();
    assert_eq!(fam.metric.len(), 1);
}

// ---- beyond the scenarios above ----

#[test]
fn invalid_line_carries_the_line() {
    let err = parse_family("# TYPE g gauge\ng 1\ng{x=\"1\" 2\r\n", TextFormat::OpenMetrics).unwrap_err();
    let ParseError::InvalidLine(line) = err else {
        panic!("expected an invalid line");
    };
    assert_eq!(line, "g{x=\"1\" 2");
}

#[test]
fn counter_without_value_line_counts_zero() {
    let fam = parse_family("# TYPE c counter\nc_created 12\n", TextFormat::OpenMetrics).unwrap();
    let MetricValue::Counter(c) = &one(&fam.metric).value else {
        panic!("expected counter");
    };
    assert!(matches!(c.value, UnsignedNumber::Uint(0)));
    assert!(matches!(&c.created_timestamp, Some(TimestampValue::Decimal { text, unit: TimeUnit::Seconds }) if text == "12"));
}

#[test]
fn grouping_ignores_label_order_and_keeps_first_timestamp() {
    let text = "# TYPE s summary\n\
                s{a=\"1\",b=\"2\",quantile=\"0.5\"} 1 100\n\
                s{b=\"2\",a=\"1\",quantile=\"0.9\"} 2 200\n\
                s_count{b=\"2\",a=\"1\"} 3\n";
    let fam = parse_family(text, TextFormat::Prometheus).unwrap();
    let m = one(&fam.metric);
    assert!(matches!(&m.timestamp, Some(TimestampValue::Decimal { text, unit: TimeUnit::Milliseconds }) if text == "100"));
    let MetricValue::Summary(s) = &m.value else {
        panic!("expected summary");
    };
    assert_eq!(s.quantile.len(), 2);
    assert!(matches!(s.sample_count, Some(UnsignedNumber::Uint(3))));
}

#[test]
fn bucket_with_unparsable_bound_is_dropped() {
    let text = "# TYPE h histogram\nh_bucket{le=\"x\"} 1\nh_bucket{le=\"1e3\"} 2\n";
    let fam = parse_family(text, TextFormat::OpenMetrics).unwrap();
    let MetricValue::Histogram(h) = &one(&fam.metric).value else {
        panic!("expected histogram");
    };
    let BucketCount::Int { buckets, sample_count } = &h.counts else {
        panic!("expected integer buckets");
    };
    assert_eq!(*sample_count, None);
    assert_eq!(buckets.len(), 1);
    assert_eq!(fv(&buckets[0].upper_bound), 1000.0);
}

#[test]
fn numbers_keep_integer_and_float_forms() {
    let fam = parse_family("g 18446744073709551615\nh -7\ni 1e3\nj NaN\n", TextFormat::OpenMetrics).unwrap();
    assert!(matches!(&fam.metric[0].value, MetricValue::Untyped(Number::Float(v)) if fv(v) == 18446744073709551615.0));
    assert!(matches!(fam.metric[1].value, MetricValue::Untyped(Number::Int(-7))));
    assert!(matches!(&fam.metric[2].value, MetricValue::Untyped(Number::Float(v)) if fv(v) == 1000.0));
    assert!(matches!(&fam.metric[3].value, MetricValue::Untyped(Number::Float(v)) if fv(v).is_nan()));
}

#[test]
fn guess_marks_integer_timestamps_nearest() {
    let fam = parse_family("g 1 1700000000\n", TextFormat::Guess).unwrap();
    assert!(matches!(&fam.metric[0].timestamp, Some(TimestampValue::Decimal { unit: TimeUnit::Nearest, .. })));
    let fam = parse_family("g 1 1700000000.25\n", TextFormat::Guess).unwrap();
    assert!(matches!(&fam.metric[0].timestamp, Some(TimestampValue::Decimal { unit: TimeUnit::Seconds, .. })));
}

#[test]
fn into_owned_keeps_the_family() {
    let text = "# TYPE rt histogram\n# HELP rt \\\\help\nrt_bucket{path=\"/a\\\"\",le=\"1\"} 1 # {t=\"x\"} 0.5 17\nrt_count{path=\"/a\\\"\"} 1\n";
    let fam = parse_family(text, TextFormat::OpenMetrics).unwrap();
    let before = format!("{fam:?}");
    let owned = fam.into_owned();
    assert_eq!(format!("{owned:?}"), before);
    assert_eq!(owned.help.as_deref(), Some("\\help"));
}

// ---- laws on concrete values ---------------------------------------------

#[test]
fn text_never_yields_native_histograms() {
    for ty in ["histogram", "nativehistogram", "hybridhistogram", "gaugehistogram"] {
        let block = format!(
            "# TYPE h {ty}\nh_bucket{{le=\"1\"}} 1\nh_bucket{{le=\"+Inf\"}} 2\nh_count 2\nh_sum 3\n"
        );
        let f = parse_family(&block, TextFormat::OpenMetrics).unwrap();
        assert!(!matches!(f.metric_type, MetricType::NativeHistogram | MetricType::HybridHistogram));
        for m in &f.metric {
            assert!(!matches!(
                m.value,
                MetricValue::NativeHistogram(_) | MetricValue::HybridHistogram { .. }
            ));
        }
    }
}

#[test]
fn dialects_differ_only_in_timestamp_units() {
    let block = "# TYPE c counter\nc_total{a=\"x\"} 4 1700000000\nc_created{a=\"x\"} 1600000000\n\
                 c_total{a=\"y\"} 5 1700000001\n";
    let om = parse_family(block, TextFormat::OpenMetrics).unwrap();
    let prom = parse_family(block, TextFormat::Prometheus).unwrap();
    assert_eq!(om.name, prom.name);
    assert_eq!(om.metric_type, prom.metric_type);
    assert_eq!(om.metric.len(), prom.metric.len());
    for (a, b) in om.metric.iter().zip(prom.metric.iter()) {
        assert_eq!(a.label.len(), b.label.len());
        match (&a.timestamp, &b.timestamp) {
            (
                Some(TimestampValue::Decimal { text: t1, unit: u1 }),
                Some(TimestampValue::Decimal { text: t2, unit: u2 }),
            ) => {
                assert_eq!(t1, t2);
                assert_eq!(*u1, TimeUnit::Seconds);
                assert_eq!(*u2, TimeUnit::Milliseconds);
            }
            _ => panic!("expected decimal timestamps"),
        }
        let (MetricValue::Counter(x), MetricValue::Counter(y)) = (&a.value, &b.value) else {
            panic!("expected counters");
        };
        assert_eq!(x.created_timestamp.is_some(), y.created_timestamp.is_some());
    }
}

#[test]
fn label_order_does_not_split_a_metric() {
    let block = "# TYPE c counter\nc_total{a=\"1\",b=\"2\"} 4\nc_created{b=\"2\",a=\"1\"} 1600000000\n\
                 c_total{a=\"1\",b=\"3\"} 5\n";
    let f = parse_family(block, TextFormat::OpenMetrics).unwrap();
    assert_eq!(f.metric.len(), 2);
    let MetricValue::Counter(c) = &f.metric[0].value else {
        panic!("expected a counter");
    };
    assert!(c.created_timestamp.is_some());
    let MetricValue::Counter(c) = &f.metric[1].value else {
        panic!("expected a counter");
    };
    assert!(c.created_timestamp.is_none());
}
