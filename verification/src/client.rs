//! Content negotiation for scraping an endpoint: the `Accept` header to send
//! and the exposition [`Format`] a response's `Content-Type` names.

use vstd::prelude::*;
use vstd::string::*;

use crate::error::ParseError;
use crate::owned;
use crate::payload::{item_matches, spec_drain, spec_payload, Decoder, Format};
use crate::text::lex::ascii_lower;
use crate::text::TextFormat;

verus! {

/// The `Accept` header value, in preference order: protobuf (when asked
/// for), then OpenMetrics text, then classic text, then anything.
pub fn accept_header(protobuf: bool) -> (r: String)
    ensures
        r@ == (if protobuf {
            "application/vnd.google.protobuf; proto=io.prometheus.client.MetricFamily; encoding=delimited, application/openmetrics-text; version=1.0.0, text/plain; version=0.0.4; q=0.9, */*; q=0.1"@
        } else {
            "application/openmetrics-text; version=1.0.0, text/plain; version=0.0.4; q=0.9, */*; q=0.1"@
        }),
{
    if protobuf {
        "application/vnd.google.protobuf; proto=io.prometheus.client.MetricFamily; encoding=delimited, application/openmetrics-text; version=1.0.0, text/plain; version=0.0.4; q=0.9, */*; q=0.1".to_string()
    } else {
        "application/openmetrics-text; version=1.0.0, text/plain; version=0.0.4; q=0.9, */*; q=0.1".to_string()
    }
}

/// `application/openmetrics-text`
pub open spec fn lit_openmetrics() -> Seq<u8> {
    seq![
        0x61u8, 0x70, 0x70, 0x6c, 0x69, 0x63, 0x61, 0x74, 0x69, 0x6f, 0x6e, 0x2f, 0x6f, 0x70, 0x65, 0x6e, 0x6d, 0x65,
        0x74, 0x72, 0x69, 0x63, 0x73, 0x2d, 0x74, 0x65, 0x78, 0x74,
    ]
}

/// `application/vnd.google.protobuf`
pub open spec fn lit_protobuf() -> Seq<u8> {
    seq![
        0x61u8, 0x70, 0x70, 0x6c, 0x69, 0x63, 0x61, 0x74, 0x69, 0x6f, 0x6e, 0x2f, 0x76, 0x6e, 0x64, 0x2e, 0x67, 0x6f,
        0x6f, 0x67, 0x6c, 0x65, 0x2e, 0x70, 0x72, 0x6f, 0x74, 0x6f, 0x62, 0x75, 0x66,
    ]
}

/// `text/plain`
pub open spec fn lit_text_plain() -> Seq<u8> {
    seq![0x74u8, 0x65, 0x78, 0x74, 0x2f, 0x70, 0x6c, 0x61, 0x69, 0x6e]
}

/// The bytes with ASCII letters lowered.
pub open spec fn lowered(s: Seq<u8>) -> Seq<u8> {
    Seq::new(s.len(), |i: int| ascii_lower(s[i]))
}

/// Whether `lit` occurs in `s`.
pub open spec fn occurs(s: Seq<u8>, lit: Seq<u8>) -> bool {
    exists|i: int| 0 <= i && i + lit.len() <= s.len() && #[trigger] s.subrange(i, i + lit.len()) == lit
}

/// The exposition format a `Content-Type` value names, compared without
/// regard to ASCII case: OpenMetrics text, protobuf, or classic text; any
/// other value (the server ignored the `Accept` header) is read with the
/// dialect guessed.
pub open spec fn spec_detect_format(content_type: Seq<u8>) -> Format {
    let l = lowered(content_type);
    if occurs(l, lit_openmetrics()) {
        Format::Text(TextFormat::OpenMetrics)
    } else if occurs(l, lit_protobuf()) {
        Format::Protobuf
    } else if occurs(l, lit_text_plain()) {
        Format::Text(TextFormat::Prometheus)
    } else {
        Format::Text(TextFormat::Guess)
    }
}

fn lower_bytes(b: &[u8]) -> (r: Vec<u8>)
    ensures
        r@ == lowered(b@),
{
    let mut r: Vec<u8> = Vec::new();
    let mut i: usize = 0;
    while i < b.len()
        invariant
            i <= b@.len(),
            r@ == lowered(b@.take(i as int)),
        decreases b@.len() - i,
    {
        let c = b[i];
        let l = if 0x41 <= c && c <= 0x5a { c + 0x20 } else { c };
        r.push(l);
        assert(lowered(b@.take(i + 1)) =~= lowered(b@.take(i as int)).push(ascii_lower(b@[i as int])));
        i = i + 1;
    }
    assert(b@.take(b@.len() as int) =~= b@);
    r
}

fn occurs_in(s: &[u8], lit: &[u8]) -> (r: bool)
    ensures
        r == occurs(s@, lit@),
{
    if lit.len() > s.len() {
        return false;
    }
    if lit.len() == 0 {
        assert(s@.subrange(0int, 0int + lit@.len()) =~= lit@);
        return true;
    }
    let n = s.len();
    let last = n - lit.len();
    let mut i: usize = 0;
    while i <= last
        invariant
            n == s@.len(),
            lit@.len() > 0,
            last == s@.len() - lit@.len(),
            i <= last + 1,
            forall|j: int| 0 <= j < i ==> #[trigger] s@.subrange(j, j + lit@.len()) != lit@,
        decreases last + 1 - i,
    {
        let mut k: usize = 0;
        let mut same = true;
        while k < lit.len()
            invariant
                n == s@.len(),
                i <= last,
                last == s@.len() - lit@.len(),
                k <= lit@.len(),
                same == forall|m: int| 0 <= m < k ==> s@[i + m] == lit@[m],
            decreases lit@.len() - k,
        {
            assert(i + k < n);
            if s[i + k] != lit[k] {
                same = false;
            }
            k = k + 1;
        }
        if same {
            assert(s@.subrange(i as int, i + lit@.len()) =~= lit@);
            return true;
        }
        proof {
            let m0 = choose|m: int| 0 <= m < lit@.len() && s@[i + m] != lit@[m];
            assert(s@.subrange(i as int, i + lit@.len())[m0] != lit@[m0]);
        }
        i = i + 1;
    }
    proof {
        assert forall|j: int| 0 <= j && j + lit@.len() <= s@.len() implies #[trigger] s@.subrange(j, j + lit@.len())
            != lit@ by {
            assert(j < i);
        }
    }
    false
}

/// Resolve the exposition format from a response's `Content-Type` value
/// (empty when the header is missing or not text).
pub fn detect_format(content_type: &str) -> (r: Format)
    ensures
        r == spec_detect_format(content_type.spec_bytes()),
{
    let l = lower_bytes(content_type.as_bytes());
    let om: [u8; 28] = [
        0x61, 0x70, 0x70, 0x6c, 0x69, 0x63, 0x61, 0x74, 0x69, 0x6f, 0x6e, 0x2f, 0x6f, 0x70, 0x65, 0x6e, 0x6d, 0x65,
        0x74, 0x72, 0x69, 0x63, 0x73, 0x2d, 0x74, 0x65, 0x78, 0x74,
    ];
    let pb: [u8; 31] = [
        0x61, 0x70, 0x70, 0x6c, 0x69, 0x63, 0x61, 0x74, 0x69, 0x6f, 0x6e, 0x2f, 0x76, 0x6e, 0x64, 0x2e, 0x67, 0x6f,
        0x6f, 0x67, 0x6c, 0x65, 0x2e, 0x70, 0x72, 0x6f, 0x74, 0x6f, 0x62, 0x75, 0x66,
    ];
    let tp: [u8; 10] = [0x74, 0x65, 0x78, 0x74, 0x2f, 0x70, 0x6c, 0x61, 0x69, 0x6e];
    assert(om@ =~= lit_openmetrics());
    assert(pb@ =~= lit_protobuf());
    assert(tp@ =~= lit_text_plain());
    if occurs_in(l.as_slice(), om.as_slice()) {
        Format::Text(TextFormat::OpenMetrics)
    } else if occurs_in(l.as_slice(), pb.as_slice()) {
        Format::Protobuf
    } else if occurs_in(l.as_slice(), tp.as_slice()) {
        Format::Text(TextFormat::Prometheus)
    } else {
        Format::Text(TextFormat::Guess)
    }
}

/// What a response body delivered next.
pub enum BodyEvent<'c> {
    /// A chunk of the body.
    Chunk(&'c [u8]),
    /// Reading the body failed.
    Failed,
    /// The body ended.
    Ended,
}

/// What a scrape stream does after a body event: hand out `families` in
/// order, then stop (`done`) or wait for the next event.
pub struct StreamStep {
    pub families: Vec<Result<owned::MetricFamily, ParseError>>,
    pub done: bool,
}

/// The decisions of a scrape stream over a response body. A chunk is pushed
/// into the decoder and every family it completes is handed out; a failed
/// read stops the stream at once, without finishing the decoder (the caller
/// reports the read error); the end of the body finishes the decoder and
/// hands out what remains.
pub fn on_body_event(decoder: &mut Decoder, event: BodyEvent<'_>) -> (r: StreamStep)
    requires
        event matches BodyEvent::Chunk(c) ==> old(decoder).contents().len() + c@.len() <= isize::MAX,
    ensures
        final(decoder).format() == old(decoder).format(),
        match event {
            BodyEvent::Chunk(c) => {
                let (items, rest, failed) = spec_drain(
                    old(decoder).format(),
                    old(decoder).contents() + c@,
                    old(decoder).finished(),
                    old(decoder).has_failed(),
                );
                &&& !r.done
                &&& r.families@.len() == items.len()
                &&& forall|i: int|
                    0 <= i < items.len() ==> item_matches(old(decoder).format(), #[trigger] items[i], r.families@[i])
                &&& final(decoder).contents() == rest
                &&& final(decoder).has_failed() == failed
                &&& final(decoder).finished() == old(decoder).finished()
                &&& final(decoder).input() == old(decoder).input() + c@
                &&& final(decoder).yielded() == old(decoder).yielded() + items
                &&& old(decoder).on_track() && !old(decoder).finished() ==> final(decoder).on_track()
            },
            BodyEvent::Failed => r.done && r.families@.len() == 0 && *final(decoder) == *old(decoder),
            BodyEvent::Ended => {
                let (items, rest, failed) = spec_drain(
                    old(decoder).format(),
                    old(decoder).contents(),
                    true,
                    old(decoder).has_failed(),
                );
                &&& r.done
                &&& r.families@.len() == items.len()
                &&& forall|i: int|
                    0 <= i < items.len() ==> item_matches(old(decoder).format(), #[trigger] items[i], r.families@[i])
                &&& final(decoder).contents() == rest
                &&& final(decoder).has_failed() == failed
                &&& final(decoder).finished()
                &&& final(decoder).input() == old(decoder).input()
                &&& final(decoder).yielded() == old(decoder).yielded() + items
                &&& old(decoder).on_track() ==> final(decoder).yielded() == spec_payload(
                    old(decoder).format(),
                    old(decoder).input(),
                )
            },
        },
{
    match event {
        BodyEvent::Chunk(c) => {
            decoder.push(c);
            let families = decoder.iter_owned();
            StreamStep { families, done: false }
        },
        BodyEvent::Failed => StreamStep { families: Vec::new(), done: true },
        BodyEvent::Ended => {
            decoder.finish();
            let families = decoder.iter_owned();
            StreamStep { families, done: true }
        },
    }
}

} // verus!
