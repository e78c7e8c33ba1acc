use prometheus_scraper::frame::FrameStep;
use prometheus_scraper::text::scan::text_next_frame;

fn frame(buf: &str, at_eof: bool) -> FrameStep<'_> {
    text_next_frame(buf.as_bytes(), at_eof)
}

fn as_str(step: FrameStep<'_>) -> &str {
    match step {
        FrameStep::Frame { bytes, .. } => std::str::from_utf8(bytes).unwrap(),
        FrameStep::NeedMore => "<needmore>",
        FrameStep::Done => "<done>",
        FrameStep::Error { .. } => "<error>",
    }
}

#[test]
fn splits_two_families_on_descriptor() {
    let buf = "# TYPE a counter\na_total 1\n# TYPE b gauge\nb 2\n";
    let FrameStep::Frame { consumed, bytes } = frame(buf, true) else {
        panic!("expected first family");
    };
    assert_eq!(std::str::from_utf8(bytes).unwrap(), "# TYPE a counter\na_total 1\n");
    assert_eq!(as_str(frame(&buf[consumed..], true)), "# TYPE b gauge\nb 2\n");
}

#[test]
fn descriptor_after_sample_starts_new_family() {
    let buf = "# HELP a x\na 1\n# HELP b y\nb 2\n";
    assert_eq!(as_str(frame(buf, true)), "# HELP a x\na 1\n");
}

#[test]
fn histogram_suffixes_stay_in_one_family() {
    let buf = "# TYPE rt histogram\nrt_bucket{le=\"1\"} 1\nrt_sum 2\nrt_count 1\n";
    assert_eq!(as_str(frame(buf, true)), buf);
}

#[test]
fn info_suffix_belongs_to_family() {
    let buf = "# TYPE build info\nbuild_info{v=\"1\"} 1\n";
    assert_eq!(as_str(frame(buf, true)), buf);
}

#[test]
fn eof_marks_end() {
    let buf = "# TYPE a counter\na_total 1\n# EOF\n";
    let FrameStep::Frame { consumed, bytes } = frame(buf, true) else {
        panic!("expected family before EOF");
    };
    assert_eq!(std::str::from_utf8(bytes).unwrap(), "# TYPE a counter\na_total 1\n");
    assert!(matches!(frame(&buf[consumed..], true), FrameStep::Done));
}

#[test]
fn comment_and_blank_lines_dont_split() {
    let buf = "# TYPE a counter\n# a stray comment\n\na_total 1\n";
    assert_eq!(as_str(frame(buf, true)), buf);
}

#[test]
fn streaming_holds_until_next_family_seen() {
    let buf = "# TYPE a counter\na_total 1\n";
    assert!(matches!(frame(buf, false), FrameStep::NeedMore));
    let buf2 = "# TYPE a counter\na_total 1\n# TYPE b gauge\n";
    assert_eq!(as_str(frame(buf2, false)), "# TYPE a counter\na_total 1\n");
}

#[test]
fn partial_last_line_needs_more() {
    let buf = "# TYPE a counter\na_total 1\n# TYPE b ga";
    assert!(matches!(frame(buf, false), FrameStep::NeedMore));
}

#[test]
fn descriptorless_splits_on_base_name_change() {
    let buf = "foo 1\nbar 2\n";
    assert_eq!(as_str(frame(buf, true)), "foo 1\n");
}

// ---- beyond the scenarios above ----

#[test]
fn text_empty_buffer_and_blank_only_input() {
    assert!(matches!(frame("", false), FrameStep::NeedMore));
    assert!(matches!(frame("", true), FrameStep::Done));
    assert!(matches!(frame("\n# just a comment\n\n", true), FrameStep::Done));
}

#[test]
fn text_crlf_lines_and_descriptorless_suffixes() {
    let buf = "foo_total 1\r\nfoo_created 2\r\nbar 3\r\n";
    assert_eq!(as_str(frame(buf, true)), "foo_total 1\r\nfoo_created 2\r\n");
}

#[test]
fn text_different_descriptor_name_splits() {
    let buf = "# HELP a x\n# TYPE b gauge\nb 1\n";
    assert_eq!(as_str(frame(buf, true)), "# HELP a x\n");
}

#[test]
fn text_frame_decision_is_stable_under_more_input() {
    // Law: a frame found before the end of the input is the same frame once
    // more input follows, final or not.
    let buf = "# TYPE a counter\na_total 1\n# TYPE b gauge\n";
    let first = as_str(frame(buf, false)).to_string();
    for extra in ["", "b 2\n", "b 2\n# EOF\n", "garbage"] {
        let longer = format!("{buf}{extra}");
        assert_eq!(as_str(frame(&longer, false)), first);
        assert_eq!(as_str(frame(&longer, true)), first);
    }
}

#[test]
fn text_final_input_is_always_decided() {
    let payload = b"# TYPE a counter\na_total 1\n# TYPE b gauge\nb 2";
    for end in 0..=payload.len() {
        let step = text_next_frame(&payload[..end], true);
        assert!(!matches!(step, FrameStep::NeedMore), "prefix of {end} bytes");
    }
}
