//! Whole-payload parsing.
//!
//! A scrape response is a sequence of metric families. This module turns one
//! into the other, on top of the framing scanners and the single-family
//! parsers, in two shapes:
//!
//! * [`parse`]: a lazy, zero-copy cursor over a complete in-memory buffer.
//!   Each family borrows the buffer; a malformed family yields one `Err` and
//!   parsing resumes at the next one.
//! * [`Decoder`]: an incremental, Sans-I/O engine: [`push`](Decoder::push)
//!   bytes as they arrive, [`finish`](Decoder::finish) at the end of the input,
//!   and pull families out.
//!
//! The dialect is selected by [`Format`], so one entry point covers both the
//! text and protobuf exposition formats.

use vstd::prelude::*;
use vstd::utf8::*;

use bytes::BytesMut;

use crate::borrowed::{family_borrows, family_kept, MetricFamily};
use crate::text::lex::plain;
use crate::model::SpecFamily;
use crate::owned;
use crate::error::ParseError;
use crate::frame::{FrameStep, SpecStep};
use crate::proto::scan::{law_proto_step_prefix_stable, law_proto_step_progress, proto_next_frame, spec_proto_step};
use crate::proto::spec_proto_family;
use crate::text::scan::{
    law_text_step_decides_at_end, law_text_step_prefix_stable, law_text_step_progress, spec_text_step, text_next_frame,
};
use crate::text::assemble::unit_free_metric;
use crate::text::{law_dialect_sets_only_timestamp_units, spec_parse_family, str_from_utf8, TextFormat};

verus! {

/// Which exposition format a payload is in. The [`TextFormat`] inside
/// [`Text`](Format::Text) only affects timestamp units; framing is identical
/// across text dialects.
#[derive(Debug, Clone, Copy, PartialEq, Eq, Structural)]
pub enum Format {
    /// The Prometheus / OpenMetrics text exposition format.
    Text(TextFormat),
    /// The Prometheus protobuf exposition format (length-delimited
    /// `MetricFamily` messages).
    Protobuf,
}

// ---------------------------------------------------------------------------
// Framing and parsing one frame
// ---------------------------------------------------------------------------

/// The frame the format's scanner finds at the front of `buf`.
pub open spec fn spec_step(format: Format, buf: Seq<u8>, at_eof: bool) -> SpecStep {
    match format {
        Format::Text(_) => spec_text_step(buf, at_eof),
        Format::Protobuf => spec_proto_step(buf, at_eof),
    }
}

/// Ask the format's scanner for the next family-sized frame of `buf`.
pub fn next_frame<'a>(format: Format, buf: &'a [u8], at_eof: bool) -> (r: FrameStep<'a>)
    ensures
        r.is_step(buf@, spec_step(format, buf@, at_eof)),
{
    match format {
        Format::Text(_) => text_next_frame(buf, at_eof),
        Format::Protobuf => proto_next_frame(buf, at_eof),
    }
}

/// What parsing the frame `bytes` in `format` gives, as a model value: for
/// text, an `InvalidUtf8` error unless the frame is UTF-8 and then what
/// `parse_family` says; for protobuf, what `proto::parse_family` says.
#[verifier::opaque]
pub open spec fn frame_outcome(format: Format, bytes: Seq<u8>, r: Result<SpecFamily, ParseError>) -> bool {
    match format {
        Format::Text(tf) => if !valid_utf8(bytes) {
            r is Err && r->Err_0 is InvalidUtf8
        } else {
            match (r, spec_parse_family(bytes, tf)) {
                (Ok(f), Ok(sf)) => f == sf,
                (Err(ParseError::InvalidLine(x)), Err(line)) => encode_utf8(x@) == line,
                _ => false,
            }
        },
        Format::Protobuf => match (r, spec_proto_family(bytes)) {
            (Ok(f), Some(Ok(sf))) => f == sf,
            (Err(ParseError::MissingField(m)), Some(Err(e))) => m@ == e,
            (Err(ParseError::ProtoDecodeError(_)), None) => true,
            _ => false,
        },
    }
}

/// A parse result as a model value.
pub open spec fn model_of(r: Result<MetricFamily<'_>, ParseError>) -> Result<SpecFamily, ParseError> {
    match r {
        Ok(f) => Ok(f.deep_view()),
        Err(e) => Err(e),
    }
}

/// An owned parse result as a model value.
pub open spec fn owned_model_of(r: Result<owned::MetricFamily, ParseError>) -> Result<SpecFamily, ParseError> {
    match r {
        Ok(f) => Ok(f.deep_view()),
        Err(e) => Err(e),
    }
}

pub open spec fn frame_parsed(format: Format, bytes: Seq<u8>, r: Result<MetricFamily<'_>, ParseError>) -> bool {
    frame_outcome(format, bytes, model_of(r))
}

/// Zero-copy: a protobuf family borrows every string from its frame. A
/// text family does too, string by string, except a string whose text in
/// the frame holds a backslash: that one may be a copy resolving the
/// escapes (see [`family_kept`]); a frame without a backslash is borrowed
/// whole.
pub open spec fn frame_borrows(format: Format, bytes: Seq<u8>, r: Result<MetricFamily<'_>, ParseError>) -> bool {
    match r {
        Ok(f) => match format {
            Format::Text(_) => family_kept(f, bytes) && (plain(bytes) ==> family_borrows(f)),
            Format::Protobuf => family_borrows(f),
        },
        Err(_) => true,
    }
}

/// Parse one already-framed family's bytes.
pub fn parse_frame(format: Format, bytes: &[u8]) -> (r: Result<MetricFamily<'_>, ParseError>)
    ensures
        frame_parsed(format, bytes@, r),
        frame_borrows(format, bytes@, r),
{
    reveal(frame_outcome);
    match format {
        Format::Text(tf) => {
            let text = match str_from_utf8(bytes) {
                Ok(t) => t,
                Err(e) => return Err(ParseError::InvalidUtf8(e)),
            };
            crate::text::parse_family(text, tf)
        },
        Format::Protobuf => crate::proto::parse_family(bytes),
    }
}

/// Every frame lies within the buffer and holds at least one byte; a
/// framing error skips at most the buffer, and nothing unless the input is
/// final.
pub proof fn law_step_progress(format: Format, b: Seq<u8>, e: bool)
    ensures
        match spec_step(format, b, e) {
            SpecStep::Frame { start, end } => 0 <= start <= end <= b.len() && 0 < end,
            SpecStep::Fail { consumed } => 0 <= consumed <= b.len() && (!e ==> consumed == 0),
            _ => true,
        },
{
    match format {
        Format::Text(_) => law_text_step_progress(b, e),
        Format::Protobuf => law_proto_step_progress(b, e),
    }
}

/// A decision the scanner makes before the end of its input (anything but a
/// request for more) is the same in every extension of the buffer, final or
/// not.
pub proof fn law_step_prefix_stable(format: Format, b: Seq<u8>, r: Seq<u8>, e: bool)
    requires
        !(spec_step(format, b, false) is NeedMore),
    ensures
        spec_step(format, b + r, e) == spec_step(format, b, false),
{
    match format {
        Format::Text(_) => law_text_step_prefix_stable(b, r, e),
        Format::Protobuf => law_proto_step_prefix_stable(b, r, e),
    }
}

/// More input is only asked for while the input may still grow: once it is
/// final, the scanner always decides.
pub proof fn law_no_request_for_more_at_end(format: Format, b: Seq<u8>)
    ensures
        !(spec_step(format, b, true) is NeedMore),
{
    law_text_step_decides_at_end(b);
}

/// Framing is the same in every text dialect: the dialect only affects how
/// a frame's timestamps are read.
pub proof fn law_text_framing_ignores_dialect(f1: TextFormat, f2: TextFormat, b: Seq<u8>, e: bool)
    ensures
        spec_step(Format::Text(f1), b, e) == spec_step(Format::Text(f2), b, e),
{
}

// ---------------------------------------------------------------------------
// A complete payload
// ---------------------------------------------------------------------------

/// A lazy cursor over the families of a complete in-memory payload.
pub struct Families<'a> {
    buf: &'a [u8],
    cursor: usize,
    format: Format,
    /// The payload items handed out so far.
    given: Ghost<Seq<SpecItem>>,
}

impl<'a> Families<'a> {
    /// The bytes not yet framed.
    pub closed spec fn rest(&self) -> Seq<u8> {
        self.buf@.subrange(self.cursor as int, self.buf@.len() as int)
    }

    pub closed spec fn format(&self) -> Format {
        self.format
    }

    /// The whole payload the cursor runs over.
    pub closed spec fn source(&self) -> Seq<u8> {
        self.buf@
    }

    /// The payload items the cursor has handed out so far, in order.
    pub closed spec fn yielded(&self) -> Seq<SpecItem> {
        self.given@
    }

    /// The cursor never passes the end of the buffer, and the items handed
    /// out, followed by those of the bytes not yet framed, are the items of
    /// the whole payload.
    #[verifier::type_invariant]
    spec fn inv(&self) -> bool {
        &&& self.cursor <= self.buf@.len()
        &&& spec_payload(self.format, self.buf@) == self.given@ + spec_payload(self.format, self.rest())
    }

    /// The next family, or `None` at the end of the payload. A framing error
    /// that cannot be resynchronized ends the payload after its `Err`.
    ///
    /// The results are the items of [`spec_payload`] over the bytes not yet
    /// framed, one per call, each family borrowing the buffer as
    /// [`frame_borrows`] says; after the last item every call gives `None`.
    pub fn next(&mut self) -> (r: Option<Result<MetricFamily<'a>, ParseError>>)
        ensures
            final(self).format() == old(self).format(),
            match spec_step(old(self).format(), old(self).rest(), true) {
                SpecStep::Frame { start, end } => {
                    &&& r matches Some(x) && frame_parsed(old(self).format(), old(self).rest().subrange(start, end), x)
                        && frame_borrows(old(self).format(), old(self).rest().subrange(start, end), x)
                    &&& final(self).rest() == old(self).rest().subrange(end, old(self).rest().len() as int)
                },
                SpecStep::Fail { consumed } => {
                    &&& r matches Some(x) && x is Err && x->Err_0 is IncompleteFrame
                    &&& final(self).rest() == if consumed == 0 {
                        Seq::<u8>::empty()
                    } else {
                        old(self).rest().subrange(consumed, old(self).rest().len() as int)
                    }
                },
                _ => r is None && final(self).rest() == Seq::<u8>::empty(),
            },
            match r {
                Some(x) => {
                    let items = spec_payload(old(self).format(), old(self).rest());
                    &&& items.len() > 0
                    &&& yields(old(self).format(), items[0], x)
                    &&& spec_payload(old(self).format(), final(self).rest()) == items.drop_first()
                    &&& final(self).rest().len() < old(self).rest().len()
                },
                None => spec_payload(old(self).format(), old(self).rest()).len() == 0 && final(self).rest().len() == 0,
            },
            old(self).rest().len() == 0 ==> r is None && final(self).rest().len() == 0,
            final(self).source() == old(self).source(),
            final(self).yielded() == match r {
                Some(_) => old(self).yielded().push(spec_payload(old(self).format(), old(self).rest())[0]),
                None => old(self).yielded(),
            },
            spec_payload(final(self).format(), final(self).source()) == final(self).yielded() + spec_payload(
                final(self).format(),
                final(self).rest(),
            ),
            r is None ==> final(self).yielded() == spec_payload(final(self).format(), final(self).source()),
    {
        proof {
            use_type_invariant(&*self);
            law_empty_payload_has_no_items(self.format);
        }
        let rest: &'a [u8] = &self.buf[self.cursor..self.buf.len()];
        proof { law_step_progress(self.format, rest@, true); }
        match next_frame(self.format, rest, true) {
            FrameStep::Frame { consumed, bytes } => {
                proof {
                    let tail = rest@.subrange(consumed as int, rest@.len() as int);
                    assert(self.buf@.subrange(self.cursor + consumed, self.buf@.len() as int) =~= tail);
                    assert(spec_payload(self.format, rest@).drop_first() =~= spec_payload(self.format, tail));
                }
                self.advance_to(self.cursor + consumed, Ghost(true));
                proof {
                    assert(self.rest() =~= rest@.subrange(consumed as int, rest@.len() as int));
                }
                Some(parse_frame(self.format, bytes))
            },
            FrameStep::Error { consumed, error } => {
                let to = if consumed == 0 {
                    self.buf.len()
                } else {
                    self.cursor + consumed
                };
                proof {
                    if consumed == 0 {
                        assert(self.buf@.subrange(to as int, self.buf@.len() as int) =~= Seq::<u8>::empty());
                        assert(spec_payload(self.format, rest@).drop_first() =~= Seq::<SpecItem>::empty());
                    } else {
                        let tail = rest@.subrange(consumed as int, rest@.len() as int);
                        assert(self.buf@.subrange(to as int, self.buf@.len() as int) =~= tail);
                        assert(spec_payload(self.format, rest@).drop_first() =~= spec_payload(self.format, tail));
                    }
                }
                self.advance_to(to, Ghost(true));
                Some(Err(error))
            },
            FrameStep::Done | FrameStep::NeedMore => {
                assert(self.buf@.subrange(self.buf@.len() as int, self.buf@.len() as int) =~= Seq::<u8>::empty());
                self.advance_to(self.buf.len(), Ghost(false));
                None
            },
        }
    }

    /// Move the cursor to `to`, handing out the front item of the rest or
    /// none.
    fn advance_to(&mut self, to: usize, Ghost(item): Ghost<bool>)
        requires
            old(self).cursor <= to <= old(self).buf@.len(),
            ({
                let items = spec_payload(old(self).format, old(self).rest());
                let after = spec_payload(old(self).format, old(self).buf@.subrange(to as int, old(self).buf@.len() as int));
                if item {
                    items.len() > 0 && after == items.drop_first()
                } else {
                    after == items
                }
            }),
        ensures
            final(self).cursor == to,
            final(self).buf == old(self).buf,
            final(self).format == old(self).format,
            final(self).given@ == if item {
                old(self).given@.push(spec_payload(old(self).format, old(self).rest())[0])
            } else {
                old(self).given@
            },
    {
        proof { use_type_invariant(&*self); }
        let ghost items = spec_payload(self.format, self.rest());
        let ghost given = if item { self.given@.push(items[0]) } else { self.given@ };
        proof {
            if item {
                assert(self.given@ + items =~= given + items.drop_first());
            }
        }
        *self = Families { buf: self.buf, cursor: to, format: self.format, given: Ghost(given) };
    }
}

/// Parse a complete in-memory payload into a lazy cursor of families.
///
/// Each family borrows `buf` (zero-copy). Errors are per family: a malformed
/// family gives one `Err` and the cursor continues at the next frame, except
/// for an unrecoverable framing error (a corrupt protobuf length prefix),
/// after which the cursor ends.
pub fn parse(buf: &[u8], format: Format) -> (r: Families<'_>)
    ensures
        r.rest() == buf@,
        r.source() == buf@,
        r.yielded() == Seq::<SpecItem>::empty(),
        r.format() == format,
{
    assert(buf@.subrange(0, buf@.len() as int) =~= buf@);
    assert(Seq::<SpecItem>::empty() + spec_payload(format, buf@) =~= spec_payload(format, buf@));
    let r = Families { buf, cursor: 0, format, given: Ghost(Seq::empty()) };
    r
}

// ---------------------------------------------------------------------------
// Streaming
// ---------------------------------------------------------------------------

/// One item of a payload, as framing sees it: the bytes of a family frame,
/// or a framing error.
pub enum SpecItem {
    Frame(Seq<u8>),
    Broken,
}

/// The items of a complete payload, in order: what [`parse`] yields.
pub open spec fn spec_payload(format: Format, b: Seq<u8>) -> Seq<SpecItem>
    decreases b.len(),
{
    match spec_step(format, b, true) {
        SpecStep::Frame { start, end } => if 0 <= start <= end <= b.len() && 0 < end {
            seq![SpecItem::Frame(b.subrange(start, end))] + spec_payload(format, b.subrange(end, b.len() as int))
        } else {
            Seq::empty()
        },
        SpecStep::Fail { consumed } => if consumed == 0 {
            seq![SpecItem::Broken]
        } else if 0 < consumed <= b.len() {
            seq![SpecItem::Broken] + spec_payload(format, b.subrange(consumed, b.len() as int))
        } else {
            Seq::empty()
        },
        _ => Seq::empty(),
    }
}

/// Whether the borrowed result `x` is what the payload item `it` gives: the
/// frame parsed (and borrowed from) as [`parse_frame`] says, or the framing
/// error.
pub open spec fn yields(format: Format, it: SpecItem, x: Result<MetricFamily<'_>, ParseError>) -> bool {
    match it {
        SpecItem::Frame(bytes) => frame_parsed(format, bytes, x) && frame_borrows(format, bytes, x),
        SpecItem::Broken => x is Err && x->Err_0 is IncompleteFrame,
    }
}

/// An empty payload has no items.
pub proof fn law_empty_payload_has_no_items(format: Format)
    ensures
        spec_payload(format, Seq::<u8>::empty()).len() == 0,
{
}

/// A payload of `n` bytes has at most `n` items, since every item consumes
/// at least one byte; so a cursor over it yields at most `n` items before it
/// ends.
pub proof fn law_payload_bounded(format: Format, b: Seq<u8>)
    ensures
        spec_payload(format, b).len() <= b.len(),
    decreases b.len(),
{
    law_step_progress(format, b, true);
    match spec_step(format, b, true) {
        SpecStep::Frame { start, end } => {
            law_payload_bounded(format, b.subrange(end, b.len() as int));
        },
        SpecStep::Fail { consumed } => {
            if consumed > 0 {
                law_payload_bounded(format, b.subrange(consumed, b.len() as int));
            } else {
                assert(b.len() > 0);
            }
        },
        _ => {},
    }
}

/// Pulling items from a decoder holding `b` until it has none to give: the
/// items, what stays buffered, and whether the stream has failed.
pub open spec fn spec_drain(format: Format, b: Seq<u8>, eof: bool, failed: bool) -> (Seq<SpecItem>, Seq<u8>, bool)
    decreases b.len(),
{
    if failed {
        (Seq::empty(), b, true)
    } else {
        match spec_step(format, b, eof) {
            SpecStep::Frame { start, end } => if 0 <= start <= end <= b.len() && 0 < end {
                let (o, rb, f) = spec_drain(format, b.subrange(end, b.len() as int), eof, false);
                (seq![SpecItem::Frame(b.subrange(start, end))] + o, rb, f)
            } else {
                (Seq::empty(), b, false)
            },
            SpecStep::Fail { consumed } => if consumed == 0 {
                (seq![SpecItem::Broken], b, true)
            } else if 0 < consumed <= b.len() {
                let (o, rb, f) = spec_drain(format, b.subrange(consumed, b.len() as int), eof, false);
                (seq![SpecItem::Broken] + o, rb, f)
            } else {
                (Seq::empty(), b, false)
            },
            _ => (Seq::empty(), b, false),
        }
    }
}

/// One pull from a decoder holding `b`: the item it gives, if any, what
/// stays buffered, and whether the stream has failed.
pub open spec fn spec_pull(format: Format, b: Seq<u8>, eof: bool, failed: bool) -> (Option<SpecItem>, Seq<u8>, bool) {
    if failed {
        (None, b, true)
    } else {
        match spec_step(format, b, eof) {
            SpecStep::Frame { start, end } => (
                Some(SpecItem::Frame(b.subrange(start, end))),
                b.subrange(end, b.len() as int),
                false,
            ),
            SpecStep::Fail { consumed } => (
                Some(SpecItem::Broken),
                if consumed == 0 { b } else { b.subrange(consumed, b.len() as int) },
                consumed == 0,
            ),
            _ => (None, b, false),
        }
    }
}

/// Draining a decoder is pulling from it until a pull gives nothing: the
/// first item is what one pull gives, and the rest is what draining the
/// decoder that pull leaves gives.
pub proof fn law_drain_is_repeated_pull(format: Format, b: Seq<u8>, eof: bool, failed: bool)
    ensures
        ({
            let (it, rb, f) = spec_pull(format, b, eof, failed);
            let (items, rest, f_end) = spec_drain(format, b, eof, failed);
            match it {
                None => items.len() == 0 && rest == rb && f_end == f,
                Some(i) => {
                    let (items2, rest2, f2_end) = spec_drain(format, rb, eof, f);
                    &&& items == seq![i] + items2
                    &&& rest == rest2
                    &&& f_end == f2_end
                },
            }
        }),
{
    law_step_progress(format, b, eof);
}

/// The items handed out, followed by the pull item, if any.
pub open spec fn after_pull(given: Seq<SpecItem>, it: Option<SpecItem>) -> Seq<SpecItem> {
    match it {
        Some(i) => given.push(i),
        None => given,
    }
}

/// A decoder that has seen the input `pushed`, handed out `given`, and
/// buffers `b` is on track: for every continuation `x` the input may still
/// get (none once it is final), the items of all of it are those handed
/// out, then those of the buffered bytes and `x` (none once the stream has
/// failed).
pub open spec fn tracks(format: Format, pushed: Seq<u8>, given: Seq<SpecItem>, b: Seq<u8>, eof: bool, failed: bool) -> bool {
    forall|x: Seq<u8>|
        (eof ==> x.len() == 0) ==> #[trigger] spec_payload(format, pushed + x) == given + if failed {
            Seq::<SpecItem>::empty()
        } else {
            spec_payload(format, b + x)
        }
}

/// One pull keeps a decoder on track, the pulled item joining those handed
/// out.
proof fn lemma_pull_tracks(format: Format, pushed: Seq<u8>, given: Seq<SpecItem>, b: Seq<u8>, eof: bool, failed: bool)
    requires
        tracks(format, pushed, given, b, eof, failed),
    ensures
        ({
            let (it, rb, f) = spec_pull(format, b, eof, failed);
            tracks(format, pushed, after_pull(given, it), rb, eof, f)
        }),
{
    let (it, rb, f) = spec_pull(format, b, eof, failed);
    let g2 = after_pull(given, it);
    law_step_progress(format, b, eof);
    law_no_request_for_more_at_end(format, b);
    assert forall|x: Seq<u8>| (eof ==> x.len() == 0) implies #[trigger] spec_payload(format, pushed + x) == g2
        + if f { Seq::<SpecItem>::empty() } else { spec_payload(format, rb + x) } by {
        assert(spec_payload(format, pushed + x) == given + if failed {
            Seq::<SpecItem>::empty()
        } else {
            spec_payload(format, b + x)
        });
        if !failed {
            let st = spec_step(format, b, eof);
            if eof {
                assert(b + x =~= b);
            } else if !(st is NeedMore) {
                law_step_prefix_stable(format, b, x, true);
            }
            match st {
                SpecStep::Frame { start, end } => {
                    assert((b + x).subrange(start, end) =~= b.subrange(start, end));
                    assert((b + x).subrange(end, (b + x).len() as int) =~= rb + x);
                    assert(spec_payload(format, b + x) =~= seq![SpecItem::Frame(b.subrange(start, end))] + spec_payload(format, rb + x));
                    assert(given + spec_payload(format, b + x) =~= g2 + spec_payload(format, rb + x));
                },
                SpecStep::Fail { consumed } => {
                    if consumed == 0 {
                        assert(given + spec_payload(format, b + x) =~= g2 + Seq::<SpecItem>::empty());
                    } else {
                        assert((b + x).subrange(consumed, (b + x).len() as int) =~= rb + x);
                        assert(given + spec_payload(format, b + x) =~= g2 + spec_payload(format, rb + x));
                    }
                },
                _ => {},
            }
        }
    }
}

/// A final decoder on track whose pull gives nothing has handed out every
/// item of its input.
proof fn lemma_tracks_complete(format: Format, pushed: Seq<u8>, given: Seq<SpecItem>, b: Seq<u8>, failed: bool)
    requires
        tracks(format, pushed, given, b, true, failed),
        spec_pull(format, b, true, failed).0 is None,
    ensures
        given == spec_payload(format, pushed),
{
    assert(pushed + Seq::<u8>::empty() =~= pushed);
    assert(b + Seq::<u8>::empty() =~= b);
    assert(spec_payload(format, pushed + Seq::<u8>::empty()) == given + if failed {
        Seq::<SpecItem>::empty()
    } else {
        spec_payload(format, b + Seq::<u8>::empty())
    });
    law_no_request_for_more_at_end(format, b);
    assert(given + Seq::<SpecItem>::empty() =~= given);
}

/// A borrowed pull and an owned pull agree: taking an owned copy of what a
/// borrowed pull gave (the same model value, as `into_owned` keeps it)
/// matches the pulled item just as an owned pull's result does. With
/// [`spec_pull`] deciding both pulls' items and next states alike, a run of
/// `next_family` calls, each result made owned, is a run of `next_owned`
/// calls.
pub proof fn law_owned_copy_matches_pull(
    format: Format,
    it: SpecItem,
    x: Result<MetricFamily<'_>, ParseError>,
    y: Result<owned::MetricFamily, ParseError>,
)
    requires
        yields(format, it, x),
        owned_model_of(y) == model_of(x),
    ensures
        item_matches(format, it, y),
{
}

/// The state of a decoder fed the chunks one after another, draining it
/// after each: the items so far, what stays buffered, and whether the stream
/// has failed.
pub open spec fn spec_feed(format: Format, chunks: Seq<Seq<u8>>) -> (Seq<SpecItem>, Seq<u8>, bool)
    decreases chunks.len(),
{
    if chunks.len() == 0 {
        (Seq::empty(), Seq::empty(), false)
    } else {
        let (out, buf, failed) = spec_feed(format, chunks.drop_last());
        let (o, rb, f) = spec_drain(format, buf + chunks.last(), false, failed);
        (out + o, rb, f)
    }
}

/// Everything a decoder yields when fed the chunks one after another,
/// drained after each, then finished and drained.
pub open spec fn spec_decode_chunks(format: Format, chunks: Seq<Seq<u8>>) -> Seq<SpecItem> {
    let (out, buf, failed) = spec_feed(format, chunks);
    out + spec_drain(format, buf, true, failed).0
}

/// The chunks one after another.
pub open spec fn concat(chunks: Seq<Seq<u8>>) -> Seq<u8>
    decreases chunks.len(),
{
    if chunks.len() == 0 {
        Seq::empty()
    } else {
        concat(chunks.drop_last()) + chunks.last()
    }
}

proof fn lemma_drain_final(format: Format, b: Seq<u8>)
    ensures
        spec_drain(format, b, true, false).0 == spec_payload(format, b),
    decreases b.len(),
{
    law_step_progress(format, b, true);
    match spec_step(format, b, true) {
        SpecStep::Frame { start, end } => {
            lemma_drain_final(format, b.subrange(end, b.len() as int));
        },
        SpecStep::Fail { consumed } => {
            if consumed > 0 {
                lemma_drain_final(format, b.subrange(consumed, b.len() as int));
            }
        },
        _ => {},
    }
}

proof fn lemma_drain_open(format: Format, b: Seq<u8>, r: Seq<u8>)
    ensures
        ({
            let (o, rb, f) = spec_drain(format, b, false, false);
            if f {
                spec_payload(format, b + r) == o
            } else {
                spec_payload(format, b + r) == o + spec_payload(format, rb + r)
            }
        }),
    decreases b.len(),
{
    law_step_progress(format, b, false);
    let st = spec_step(format, b, false);
    if !(st is NeedMore) {
        law_step_prefix_stable(format, b, r, true);
    }
    match st {
        SpecStep::Frame { start, end } => {
            let tail = b.subrange(end, b.len() as int);
            lemma_drain_open(format, tail, r);
            assert((b + r).subrange(start, end) =~= b.subrange(start, end));
            assert((b + r).subrange(end, (b + r).len() as int) =~= tail + r);
            let (o, rb, f) = spec_drain(format, tail, false, false);
            let item = seq![SpecItem::Frame(b.subrange(start, end))];
            if f {
                assert(spec_payload(format, b + r) =~= item + o);
            } else {
                assert(spec_payload(format, b + r) =~= item + (o + spec_payload(format, rb + r)));
                assert(item + (o + spec_payload(format, rb + r)) =~= (item + o) + spec_payload(format, rb + r));
            }
        },
        SpecStep::Fail { consumed } => {},
        _ => {
            assert(Seq::<SpecItem>::empty() + spec_payload(format, b + r) =~= spec_payload(format, b + r));
        },
    }
}

proof fn lemma_feed(format: Format, chunks: Seq<Seq<u8>>, r: Seq<u8>)
    ensures
        ({
            let (out, buf, f) = spec_feed(format, chunks);
            if f {
                spec_payload(format, concat(chunks) + r) == out
            } else {
                spec_payload(format, concat(chunks) + r) == out + spec_payload(format, buf + r)
            }
        }),
    decreases chunks.len(),
{
    if chunks.len() == 0 {
        assert(concat(chunks) + r =~= r);
        assert(Seq::<u8>::empty() + r =~= r);
        assert(Seq::<SpecItem>::empty() + spec_payload(format, r) =~= spec_payload(format, r));
    } else {
        let c = chunks.last();
        let (out, buf, f) = spec_feed(format, chunks.drop_last());
        lemma_feed(format, chunks.drop_last(), c + r);
        assert(concat(chunks) + r =~= concat(chunks.drop_last()) + (c + r));
        if f {
            assert(out + Seq::<SpecItem>::empty() =~= out);
        } else {
            assert(buf + (c + r) =~= (buf + c) + r);
            lemma_drain_open(format, buf + c, r);
            let (o, rb, f2) = spec_drain(format, buf + c, false, false);
            if f2 {
                assert(out + o =~= out + o);
            } else {
                assert(out + (o + spec_payload(format, rb + r)) =~= (out + o) + spec_payload(format, rb + r));
            }
        }
    }
}

/// A decoder is invariant to where the chunk boundaries fall: feeding a
/// payload in any chunks, draining after each and after finishing, yields
/// exactly the items that parsing the whole payload at once yields.
pub proof fn law_decoder_chunk_invariant(format: Format, chunks: Seq<Seq<u8>>)
    ensures
        spec_decode_chunks(format, chunks) == spec_payload(format, concat(chunks)),
{
    lemma_feed(format, chunks, Seq::empty());
    assert(concat(chunks) + Seq::<u8>::empty() =~= concat(chunks));
    let (out, buf, f) = spec_feed(format, chunks);
    assert(buf + Seq::<u8>::empty() =~= buf);
    if f {
        assert(out + Seq::<SpecItem>::empty() =~= out);
    } else {
        lemma_drain_final(format, buf);
    }
}

/// A payload's items fall in the same places in every text dialect: the
/// dialect never changes where a family starts or ends, nor which frames
/// are broken.
pub proof fn law_payload_ignores_dialect(f1: TextFormat, f2: TextFormat, b: Seq<u8>)
    ensures
        spec_payload(Format::Text(f1), b) == spec_payload(Format::Text(f2), b),
    decreases b.len(),
{
    law_step_progress(Format::Text(f1), b, true);
    match spec_step(Format::Text(f1), b, true) {
        SpecStep::Frame { start, end } => {
            law_payload_ignores_dialect(f1, f2, b.subrange(end, b.len() as int));
        },
        SpecStep::Fail { consumed } => {
            if consumed > 0 {
                law_payload_ignores_dialect(f1, f2, b.subrange(consumed, b.len() as int));
            }
        },
        _ => {},
    }
}

/// A frame parsed in two text dialects fails alike (on the same line, or as
/// invalid UTF-8), or gives the same family but for the units of its
/// sample timestamps.
pub proof fn law_frame_dialects_agree(
    f1: TextFormat,
    f2: TextFormat,
    bytes: Seq<u8>,
    r1: Result<SpecFamily, ParseError>,
    r2: Result<SpecFamily, ParseError>,
)
    requires
        frame_outcome(Format::Text(f1), bytes, r1),
        frame_outcome(Format::Text(f2), bytes, r2),
    ensures
        match (r1, r2) {
            (Ok(x), Ok(y)) => {
                &&& x.name == y.name && x.help == y.help && x.typ == y.typ && x.unit == y.unit
                &&& x.metric.len() == y.metric.len()
                &&& forall|i: int|
                    0 <= i < x.metric.len() ==> unit_free_metric(#[trigger] x.metric[i]) == unit_free_metric(
                        y.metric[i],
                    )
            },
            (Err(ParseError::InvalidUtf8(_)), Err(ParseError::InvalidUtf8(_))) => true,
            (Err(ParseError::InvalidLine(a)), Err(ParseError::InvalidLine(c))) => a@ == c@,
            _ => false,
        },
{
    reveal(frame_outcome);
    if valid_utf8(bytes) {
        law_dialect_sets_only_timestamp_units(bytes, f1, f2);
        match (r1, r2) {
            (Err(ParseError::InvalidLine(a)), Err(ParseError::InvalidLine(c))) => {
                encode_utf8_decode_utf8(a@);
                encode_utf8_decode_utf8(c@);
            },
            _ => {},
        }
    }
}

// ---------------------------------------------------------------------------
// The byte buffer
// ---------------------------------------------------------------------------

#[verifier::external_type_specification]
#[verifier::external_body]
pub struct ExBytesMut(BytesMut);

/// The bytes a `BytesMut` holds.
pub uninterp spec fn buffer_view(b: BytesMut) -> Seq<u8>;

/// `BytesMut::new`: an empty buffer.
#[verifier::external_body]
fn buffer_new() -> (r: BytesMut)
    ensures
        buffer_view(r) == Seq::<u8>::empty(),
{
    BytesMut::new()
}

/// `BytesMut::extend_from_slice`: the buffer with `s` appended. It panics
/// when the grown buffer would not fit in memory, so the new length is
/// required to stay within `isize::MAX`.
#[verifier::external_body]
fn buffer_extend(b: &mut BytesMut, s: &[u8])
    requires
        buffer_view(*old(b)).len() + s@.len() <= isize::MAX,
    ensures
        buffer_view(*final(b)) == buffer_view(*old(b)) + s@,
{
    b.extend_from_slice(s)
}

/// `Buf::advance` on a `BytesMut`: the buffer without its first `n` bytes.
/// It panics when `n` exceeds the length, so that is excluded.
#[verifier::external_body]
fn buffer_advance(b: &mut BytesMut, n: usize)
    requires
        n <= buffer_view(*old(b)).len(),
    ensures
        buffer_view(*final(b)) == buffer_view(*old(b)).subrange(n as int, buffer_view(*old(b)).len() as int),
{
    bytes::Buf::advance(b, n)
}

/// The bytes of a `BytesMut`, as a slice (`Deref`).
#[verifier::external_body]
fn buffer_bytes(b: &BytesMut) -> (r: &[u8])
    ensures
        r@ == buffer_view(*b),
{
    &b[..]
}

// ---------------------------------------------------------------------------
// The incremental decoder
// ---------------------------------------------------------------------------

/// An incremental, Sans-I/O payload decoder.
///
/// Feed bytes with [`push`](Self::push) as they arrive and pull complete
/// families out with [`next_family`](Self::next_family) (zero-copy) or
/// [`next_owned`](Self::next_owned) (owned). Call [`finish`](Self::finish)
/// once the input has ended so the trailing family (text) or a truncation
/// error (protobuf) is surfaced.
///
/// A borrowed family aliases the internal buffer, so each must be dropped
/// before the next call.
pub struct Decoder {
    buf: BytesMut,
    format: Format,
    eof: bool,
    /// Bytes of the just-returned frame, dropped on the next call so a
    /// borrowed family stays valid until then.
    pending: usize,
    /// Set after an unrecoverable framing error: the stream is desynced and
    /// further pulls return `None`.
    failed: bool,
    /// Every byte pushed so far.
    pushed: Ghost<Seq<u8>>,
    /// The payload items handed out so far.
    given: Ghost<Seq<SpecItem>>,
}

impl Decoder {
    /// The bytes buffered and not yet framed.
    pub closed spec fn contents(&self) -> Seq<u8> {
        let b = buffer_view(self.buf);
        b.subrange(self.pending as int, b.len() as int)
    }

    /// Whether the input has been marked complete.
    pub closed spec fn finished(&self) -> bool {
        self.eof
    }

    /// Whether the stream has failed beyond recovery.
    pub closed spec fn has_failed(&self) -> bool {
        self.failed
    }

    pub closed spec fn format(&self) -> Format {
        self.format
    }

    /// Every byte pushed so far: the input the decoder has seen.
    pub closed spec fn input(&self) -> Seq<u8> {
        self.pushed@
    }

    /// The payload items handed out so far, in order.
    pub closed spec fn yielded(&self) -> Seq<SpecItem> {
        self.given@
    }

    /// The items handed out so far, then what the buffered bytes and any
    /// further input give, are the items of all the input (see [`tracks`]).
    /// It holds of a new decoder and is kept by every call, except a push
    /// after `finish`.
    pub closed spec fn on_track(&self) -> bool {
        tracks(self.format, self.pushed@, self.given@, self.contents(), self.eof, self.failed)
    }

    /// The frame handed out last lies within the buffer.
    #[verifier::type_invariant]
    spec fn inv(&self) -> bool {
        self.pending <= buffer_view(self.buf).len()
    }

    pub fn new(format: Format) -> (r: Self)
        ensures
            r.contents() == Seq::<u8>::empty(),
            !r.finished(),
            !r.has_failed(),
            r.format() == format,
            r.input() == Seq::<u8>::empty(),
            r.yielded() == Seq::<SpecItem>::empty(),
            r.on_track(),
    {
        let r = Decoder {
            buf: buffer_new(),
            format,
            eof: false,
            pending: 0,
            failed: false,
            pushed: Ghost(Seq::empty()),
            given: Ghost(Seq::empty()),
        };
        assert(r.contents() =~= Seq::<u8>::empty());
        assert forall|x: Seq<u8>| (r.eof ==> x.len() == 0) implies #[trigger] spec_payload(format, r.pushed@ + x)
            == r.given@ + if r.failed { Seq::<SpecItem>::empty() } else { spec_payload(format, r.contents() + x) } by {
            assert(r.pushed@ + x =~= x);
            assert(r.contents() + x =~= x);
            assert(r.given@ + spec_payload(format, x) =~= spec_payload(format, x));
        }
        r
    }

    /// How many bytes are buffered and not yet framed.
    pub fn buffered(&self) -> (r: usize)
        ensures
            r == self.contents().len(),
    {
        proof { use_type_invariant(self); }
        let b = buffer_bytes(&self.buf);
        b.len() - self.pending
    }

    /// Drop the previously returned frame.
    fn drain_pending(&mut self)
        ensures
            final(self).pending == 0,
            final(self).contents() == old(self).contents(),
            final(self).eof == old(self).eof,
            final(self).failed == old(self).failed,
            final(self).format == old(self).format,
            final(self).pushed == old(self).pushed,
            final(self).given == old(self).given,
    {
        proof { use_type_invariant(&*self); }
        let p = self.pending;
        if p > 0 {
            self.pending = 0;
            self.consume(p);
        }
        assert(self.contents() =~= buffer_view(self.buf));
    }

    /// Drop the first `n` unframed bytes (no frame pending).
    fn consume(&mut self, n: usize)
        requires
            old(self).pending == 0,
            n <= buffer_view(old(self).buf).len(),
        ensures
            final(self).pending == 0,
            buffer_view(final(self).buf) == buffer_view(old(self).buf).subrange(n as int, buffer_view(old(self).buf).len() as int),
            final(self).eof == old(self).eof,
            final(self).failed == old(self).failed,
            final(self).format == old(self).format,
            final(self).pushed == old(self).pushed,
            final(self).given == old(self).given,
    {
        let mut b = buffer_new();
        core::mem::swap(&mut b, &mut self.buf);
        buffer_advance(&mut b, n);
        self.buf = b;
    }

    /// Append `chunk` to the unframed bytes (no frame pending).
    fn append(&mut self, chunk: &[u8])
        requires
            old(self).pending == 0,
            buffer_view(old(self).buf).len() + chunk@.len() <= isize::MAX,
        ensures
            final(self).pending == 0,
            buffer_view(final(self).buf) == buffer_view(old(self).buf) + chunk@,
            final(self).eof == old(self).eof,
            final(self).failed == old(self).failed,
            final(self).format == old(self).format,
            final(self).pushed == old(self).pushed,
            final(self).given == old(self).given,
    {
        let mut b = buffer_new();
        core::mem::swap(&mut b, &mut self.buf);
        buffer_extend(&mut b, chunk);
        self.buf = b;
    }

    /// Append a chunk of input.
    pub fn push(&mut self, chunk: &[u8])
        requires
            old(self).contents().len() + chunk@.len() <= isize::MAX,
        ensures
            final(self).contents() == old(self).contents() + chunk@,
            final(self).finished() == old(self).finished(),
            final(self).has_failed() == old(self).has_failed(),
            final(self).format() == old(self).format(),
            final(self).input() == old(self).input() + chunk@,
            final(self).yielded() == old(self).yielded(),
            old(self).on_track() && !old(self).finished() ==> final(self).on_track(),
    {
        self.drain_pending();
        assert(buffer_view(self.buf) =~= old(self).contents());
        self.append(chunk);
        self.pushed = Ghost(self.pushed@ + chunk@);
        assert(self.contents() =~= buffer_view(self.buf));
        proof {
            if old(self).on_track() && !old(self).finished() {
                let (f, p0, g, b0) = (self.format, old(self).input(), self.given@, old(self).contents());
                assert forall|x: Seq<u8>| (self.eof ==> x.len() == 0) implies #[trigger] spec_payload(f, self.pushed@ + x)
                    == g + if self.failed { Seq::<SpecItem>::empty() } else { spec_payload(f, self.contents() + x) } by {
                    assert(spec_payload(f, p0 + (chunk@ + x)) == g + if self.failed {
                        Seq::<SpecItem>::empty()
                    } else {
                        spec_payload(f, b0 + (chunk@ + x))
                    });
                    assert(p0 + (chunk@ + x) =~= self.pushed@ + x);
                    assert(b0 + (chunk@ + x) =~= self.contents() + x);
                }
            }
        }
    }

    /// Mark the input as complete: the trailing family is flushed and a
    /// truncated final frame becomes an error on the next pull.
    pub fn finish(&mut self)
        ensures
            final(self).contents() == old(self).contents(),
            final(self).finished(),
            final(self).has_failed() == old(self).has_failed(),
            final(self).format() == old(self).format(),
            final(self).input() == old(self).input(),
            final(self).yielded() == old(self).yielded(),
            old(self).on_track() ==> final(self).on_track(),
    {
        proof { use_type_invariant(&*self); }
        self.eof = true;
    }

    /// Pull the next complete family, borrowing the internal buffer
    /// (zero-copy): one step of the format's scanner over the buffered bytes.
    ///
    /// Returns `None` when more input is needed, the stream is exhausted, or
    /// it has failed.
    pub fn next_family(&mut self) -> (r: Option<Result<MetricFamily<'_>, ParseError>>)
        ensures
            final(self).finished() == old(self).finished(),
            final(self).format() == old(self).format(),
            old(self).has_failed() ==> r is None && final(self).has_failed() && final(self).contents()
                == old(self).contents(),
            !old(self).has_failed() ==> match spec_step(old(self).format(), old(self).contents(), old(self).finished()) {
                SpecStep::Frame { start, end } => {
                    &&& r matches Some(x) && frame_parsed(old(self).format(), old(self).contents().subrange(start, end), x)
                        && frame_borrows(old(self).format(), old(self).contents().subrange(start, end), x)
                    &&& final(self).contents() == old(self).contents().subrange(end, old(self).contents().len() as int)
                    &&& !final(self).has_failed()
                },
                SpecStep::Fail { consumed } => {
                    &&& r matches Some(x) && x is Err && x->Err_0 is IncompleteFrame
                    &&& final(self).has_failed() == (consumed == 0)
                    &&& final(self).contents() == if consumed == 0 {
                        old(self).contents()
                    } else {
                        old(self).contents().subrange(consumed, old(self).contents().len() as int)
                    }
                },
                _ => r is None && final(self).contents() == old(self).contents() && !final(self).has_failed(),
            },
            ({
                let (it, rest, failed) = spec_pull(
                    old(self).format(),
                    old(self).contents(),
                    old(self).finished(),
                    old(self).has_failed(),
                );
                &&& final(self).contents() == rest
                &&& final(self).has_failed() == failed
                &&& match r {
                    None => it is None,
                    Some(x) => it matches Some(i) && yields(old(self).format(), i, x),
                }
            }),
            final(self).input() == old(self).input(),
            final(self).yielded() == after_pull(
                old(self).yielded(),
                spec_pull(old(self).format(), old(self).contents(), old(self).finished(), old(self).has_failed()).0,
            ),
            old(self).on_track() ==> final(self).on_track(),
            r is None && old(self).finished() && old(self).on_track() ==> final(self).yielded() == spec_payload(
                final(self).format(),
                final(self).input(),
            ),
    {
        let ghost pull = spec_pull(self.format, self.contents(), self.eof, self.failed);
        proof {
            use_type_invariant(&*self);
            if self.on_track() {
                lemma_pull_tracks(self.format, self.pushed@, self.given@, self.contents(), self.eof, self.failed);
                if self.eof && pull.0 is None {
                    lemma_tracks_complete(self.format, self.pushed@, self.given@, self.contents(), self.failed);
                }
            }
        }
        self.given = Ghost(after_pull(self.given@, pull.0));
        if self.failed {
            return None;
        }
        self.drain_pending();
        let bytes_all = buffer_bytes(&self.buf);
        assert(bytes_all@ =~= old(self).contents());
        assert(self.format == old(self).format());
        assert(self.eof == old(self).finished());
        proof { law_step_progress(self.format, bytes_all@, self.eof); }
        match next_frame(self.format, bytes_all, self.eof) {
            FrameStep::Frame { consumed, bytes } => {
                self.pending = consumed;
                assert(self.contents() =~= bytes_all@.subrange(consumed as int, bytes_all@.len() as int));
                Some(parse_frame(self.format, bytes))
            },
            FrameStep::Error { consumed, error } => {
                if consumed == 0 {
                    self.failed = true;
                    assert(self.contents() =~= bytes_all@);
                } else {
                    self.pending = consumed;
                    assert(self.contents() =~= bytes_all@.subrange(consumed as int, bytes_all@.len() as int));
                }
                Some(Err(error))
            },
            FrameStep::NeedMore | FrameStep::Done => {
                assert(self.contents() =~= bytes_all@);
                None
            },
        }
    }
}

impl Decoder {
    /// Pull the next complete family as an owned value: one step of the
    /// format's scanner over the buffered bytes, the frame dropped at once.
    pub fn next_owned(&mut self) -> (r: Option<Result<owned::MetricFamily, ParseError>>)
        ensures
            final(self).finished() == old(self).finished(),
            final(self).format() == old(self).format(),
            old(self).has_failed() ==> r is None && final(self).has_failed() && final(self).contents()
                == old(self).contents(),
            !old(self).has_failed() ==> match spec_step(old(self).format(), old(self).contents(), old(self).finished()) {
                SpecStep::Frame { start, end } => {
                    &&& r matches Some(x) && frame_outcome(
                        old(self).format(),
                        old(self).contents().subrange(start, end),
                        owned_model_of(x),
                    )
                    &&& final(self).contents() == old(self).contents().subrange(end, old(self).contents().len() as int)
                    &&& !final(self).has_failed()
                },
                SpecStep::Fail { consumed } => {
                    &&& r matches Some(x) && x is Err && x->Err_0 is IncompleteFrame
                    &&& final(self).has_failed() == (consumed == 0)
                    &&& final(self).contents() == if consumed == 0 {
                        old(self).contents()
                    } else {
                        old(self).contents().subrange(consumed, old(self).contents().len() as int)
                    }
                },
                _ => r is None && final(self).contents() == old(self).contents() && !final(self).has_failed(),
            },
            ({
                let (it, rest, failed) = spec_pull(
                    old(self).format(),
                    old(self).contents(),
                    old(self).finished(),
                    old(self).has_failed(),
                );
                &&& final(self).contents() == rest
                &&& final(self).has_failed() == failed
                &&& match r {
                    None => it is None,
                    Some(x) => it matches Some(i) && item_matches(old(self).format(), i, x),
                }
            }),
            final(self).input() == old(self).input(),
            final(self).yielded() == after_pull(
                old(self).yielded(),
                spec_pull(old(self).format(), old(self).contents(), old(self).finished(), old(self).has_failed()).0,
            ),
            old(self).on_track() ==> final(self).on_track(),
            r is None && old(self).finished() && old(self).on_track() ==> final(self).yielded() == spec_payload(
                final(self).format(),
                final(self).input(),
            ),
    {
        let ghost pull = spec_pull(self.format, self.contents(), self.eof, self.failed);
        proof {
            use_type_invariant(&*self);
            if self.on_track() {
                lemma_pull_tracks(self.format, self.pushed@, self.given@, self.contents(), self.eof, self.failed);
                if self.eof && pull.0 is None {
                    lemma_tracks_complete(self.format, self.pushed@, self.given@, self.contents(), self.failed);
                }
            }
        }
        self.given = Ghost(after_pull(self.given@, pull.0));
        if self.failed {
            return None;
        }
        self.drain_pending();
        let bytes_all = buffer_bytes(&self.buf);
        assert(bytes_all@ =~= old(self).contents());
        assert(self.format == old(self).format());
        assert(self.eof == old(self).finished());
        proof { law_step_progress(self.format, bytes_all@, self.eof); }
        match next_frame(self.format, bytes_all, self.eof) {
            FrameStep::Frame { consumed, bytes } => {
                let parsed = match parse_frame(self.format, bytes) {
                    Ok(f) => Ok(f.into_owned()),
                    Err(e) => Err(e),
                };
                self.consume(consumed);
                assert(self.contents() =~= bytes_all@.subrange(consumed as int, bytes_all@.len() as int));
                Some(parsed)
            },
            FrameStep::Error { consumed, error } => {
                if consumed == 0 {
                    self.failed = true;
                    assert(self.contents() =~= bytes_all@);
                } else {
                    self.consume(consumed);
                    assert(self.contents() =~= bytes_all@.subrange(consumed as int, bytes_all@.len() as int));
                }
                Some(Err(error))
            },
            FrameStep::NeedMore | FrameStep::Done => {
                assert(self.contents() =~= bytes_all@);
                None
            },
        }
    }

    /// Drain the decoder: every family it can give now (and the trailing
    /// family once [`finish`](Self::finish) has been called), owned, in
    /// order: exactly the items of draining the buffered bytes.
    pub fn iter_owned(&mut self) -> (r: Vec<Result<owned::MetricFamily, ParseError>>)
        ensures
            final(self).finished() == old(self).finished(),
            final(self).format() == old(self).format(),
            ({
                let (items, rest, failed) = spec_drain(
                    old(self).format(),
                    old(self).contents(),
                    old(self).finished(),
                    old(self).has_failed(),
                );
                &&& r@.len() == items.len()
                &&& forall|i: int| 0 <= i < items.len() ==> item_matches(old(self).format(), #[trigger] items[i], r@[i])
                &&& final(self).contents() == rest
                &&& final(self).has_failed() == failed
                &&& final(self).yielded() == old(self).yielded() + items
            }),
            final(self).input() == old(self).input(),
            old(self).on_track() ==> final(self).on_track(),
            old(self).finished() && old(self).on_track() ==> final(self).yielded() == spec_payload(
                final(self).format(),
                final(self).input(),
            ),
    {
        let ghost format = self.format;
        let ghost eof = self.eof;
        let ghost all = spec_drain(format, self.contents(), eof, self.failed);
        let mut out: Vec<Result<owned::MetricFamily, ParseError>> = Vec::new();
        loop
            invariant
                self.format() == format,
                self.finished() == eof,
                format == old(self).format(),
                eof == old(self).finished(),
                self.input() == old(self).input(),
                old(self).on_track() ==> self.on_track(),
                self.yielded() == old(self).yielded() + all.0.take(out@.len() as int),
                all == spec_drain(format, old(self).contents(), eof, old(self).has_failed()),
                ({
                    let (items, rest, failed) = spec_drain(format, self.contents(), eof, self.has_failed());
                    &&& all.0.len() == out@.len() + items.len()
                    &&& forall|i: int| 0 <= i < out@.len() ==> item_matches(format, #[trigger] all.0[i], out@[i])
                    &&& forall|i: int| 0 <= i < items.len() ==> #[trigger] all.0[out@.len() + i] == items[i]
                    &&& all.1 == rest
                    &&& all.2 == failed
                }),
            decreases self.contents().len() * 2 + if self.has_failed() { 0int } else { 1int },
        {
            let ghost before = self.contents();
            let ghost was_failed = self.has_failed();
            proof {
                law_step_progress(format, before, eof);
                law_drain_is_repeated_pull(format, before, eof, was_failed);
            }
            match self.next_owned() {
                Some(x) => {
                    let ghost k = out@.len() as int;
                    proof {
                        let items = spec_drain(format, before, eof, was_failed).0;
                        assert(items.len() > 0);
                        assert(all.0[out@.len() + 0int] == items[0]);
                    }
                    out.push(x);
                    proof {
                        assert(all.0.take(k + 1) =~= all.0.take(k).push(all.0[k]));
                        let (items, rest, failed) = spec_drain(format, before, eof, was_failed);
                        let (items2, rest2, failed2) = spec_drain(format, self.contents(), eof, self.has_failed());
                        assert(items =~= seq![items[0]] + items2);
                        assert forall|i: int| 0 <= i < items2.len() implies #[trigger] all.0[out@.len() + i] == items2[i] by {
                            assert(items[i + 1] == items2[i]);
                            assert(all.0[k + (i + 1)] == items[i + 1]);
                        }
                        assert forall|i: int| 0 <= i < out@.len() implies item_matches(format, #[trigger] all.0[i], out@[i]) by {
                            if i == k {
                                reveal(frame_outcome);
                            }
                        }
                    }
                },
                None => {
                    assert(all.0.take(out@.len() as int) =~= all.0);
                    return out;
                },
            }
        }
    }
}

/// Whether the owned result `x` is what the item `it` gives: a frame
/// parsed, or the framing error.
pub open spec fn item_matches(format: Format, it: SpecItem, x: Result<owned::MetricFamily, ParseError>) -> bool {
    match it {
        SpecItem::Frame(bytes) => frame_outcome(format, bytes, owned_model_of(x)),
        SpecItem::Broken => x is Err && x->Err_0 is IncompleteFrame,
    }
}

} // verus!
