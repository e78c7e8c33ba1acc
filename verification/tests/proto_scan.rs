use prometheus_scraper::frame::FrameStep;
use prometheus_scraper::proto::scan::{proto_next_frame, read_varint, Varint};

fn frame(buf: &[u8], at_eof: bool) -> FrameStep<'_> {
    proto_next_frame(buf, at_eof)
}

fn delimit(msg: &[u8]) -> Vec<u8> {
    let mut out = Vec::new();
    let mut len = msg.len() as u64;
    loop {
        let mut b = (len & 0x7f) as u8;
        len >>= 7;
        if len != 0 {
            b |= 0x80;
        }
        out.push(b);
        if len == 0 {
            break;
        }
    }
    out.extend_from_slice(msg);
    out
}

#[test]
fn frames_a_complete_message() {
    let buf = delimit(b"hello");
    let FrameStep::Frame { consumed, bytes } = frame(&buf, false) else {
        panic!("expected a frame");
    };
    assert_eq!(bytes, b"hello");
    assert_eq!(consumed, buf.len());
}

#[test]
fn waits_for_the_rest_of_the_body() {
    let full = delimit(b"hello");
    assert!(matches!(frame(&full[..3], false), FrameStep::NeedMore));
    assert!(matches!(frame(&full[..3], true), FrameStep::Error { .. }));
}

#[test]
fn empty_buffer() {
    assert!(matches!(frame(&[], false), FrameStep::NeedMore));
    assert!(matches!(frame(&[], true), FrameStep::Done));
}

#[test]
fn back_to_back_frames_via_consumed() {
    let mut buf = delimit(b"aa");
    buf.extend(delimit(b"bbbb"));
    let FrameStep::Frame { consumed, bytes } = frame(&buf, true) else {
        panic!("first frame");
    };
    assert_eq!(bytes, b"aa");
    let FrameStep::Frame { bytes, .. } = frame(&buf[consumed..], true) else {
        panic!("second frame");
    };
    assert_eq!(bytes, b"bbbb");
}

#[test]
fn oversized_varint_is_unrecoverable() {
    let buf = [0x80u8; 11];
    assert!(matches!(frame(&buf, false), FrameStep::Error { consumed: 0, .. }));
}

// ---- beyond the scenarios above ----

#[test]
fn varint_values_and_lengths() {
    assert!(matches!(read_varint(&[0x05]), Varint::Complete { value: 5, len: 1 }));
    assert!(matches!(read_varint(&[0xac, 0x02]), Varint::Complete { value: 300, len: 2 }));
    assert!(matches!(read_varint(&[0xac]), Varint::Incomplete));
    assert!(matches!(read_varint(&[]), Varint::Incomplete));
    assert!(matches!(read_varint(&[0xff; 10]), Varint::Incomplete));
    assert!(matches!(read_varint(&[0xff; 11]), Varint::Invalid));
}

#[test]
fn multi_byte_length_prefix() {
    let body = vec![7u8; 300];
    let buf = delimit(&body);
    assert_eq!(buf.len(), 302);
    let FrameStep::Frame { consumed, bytes } = frame(&buf, true) else {
        panic!("expected a frame");
    };
    assert_eq!(consumed, 302);
    assert_eq!(bytes.len(), 300);
}

#[test]
fn truncated_prefix_at_eof_skips_the_rest() {
    assert!(matches!(frame(&[0x80, 0x80], true), FrameStep::Error { consumed: 2, .. }));
    assert!(matches!(frame(&[0x80, 0x80], false), FrameStep::NeedMore));
}

#[test]
fn proto_final_input_is_always_decided() {
    let payload = [0x03u8, 0x0a, 0x01, b'a', 0x82, 0x01];
    for end in 0..=payload.len() {
        let step = frame(&payload[..end], true);
        assert!(!matches!(step, FrameStep::NeedMore), "prefix of {end} bytes");
    }
}

#[test]
fn varint_round_trips_through_its_encoding() {
    for n in [0u64, 1, 127, 128, 300, 16_383, 16_384, u32::MAX as u64, u64::MAX - 1, u64::MAX] {
        let mut enc = Vec::new();
        let mut v = n;
        loop {
            let mut b = (v & 0x7f) as u8;
            v >>= 7;
            if v != 0 {
                b |= 0x80;
            }
            enc.push(b);
            if v == 0 {
                break;
            }
        }
        let len = enc.len();
        enc.extend_from_slice(&[0xff, 0x00, 0x80]);
        match read_varint(&enc) {
            Varint::Complete { value, len: l } => {
                assert_eq!(value, n);
                assert_eq!(l, len);
            }
            _ => panic!("expected a complete varint for {n}"),
        }
    }
}
