//! The framing kernel: the outcome of asking a scanner for the next
//! family-sized frame of a byte buffer.
//!
//! Scanners are stateless across calls: each call re-scans the given slice for
//! one boundary and reports how far to advance. `at_eof` tells whether more
//! input may still follow the buffer.

use vstd::prelude::*;

use crate::error::ParseError;

verus! {

/// The outcome of asking a scanner for the next family-sized frame.
pub enum FrameStep<'a> {
    /// One complete family. `bytes` is handed to the parse step; the caller
    /// advances its input cursor by `consumed`.
    Frame { consumed: usize, bytes: &'a [u8] },
    /// The next boundary isn't determinable yet: feed more bytes. Scanners
    /// only return this when `at_eof` is `false`.
    NeedMore,
    /// No more frames remain in this input.
    Done,
    /// The framing itself failed. `consumed > 0` means "skip these bytes and
    /// resync at the next frame"; `consumed == 0` means unrecoverable.
    Error { consumed: usize, error: ParseError },
}

/// What a scanner finds at the front of a buffer: the frame
/// `buf[start..end]` (after which the cursor is at `end`), a request for more
/// input, the end of the input, or a framing failure that skips `consumed`
/// bytes (none: unrecoverable).
pub enum SpecStep {
    Frame { start: int, end: int },
    NeedMore,
    Done,
    Fail { consumed: int },
}

impl<'a> FrameStep<'a> {
    /// Whether this step is `s` over the buffer `buf`.
    pub open spec fn is_step(&self, buf: Seq<u8>, s: SpecStep) -> bool {
        match (self, s) {
            (FrameStep::Frame { consumed, bytes }, SpecStep::Frame { start, end }) => {
                &&& consumed == end
                &&& 0 <= start <= end <= buf.len()
                &&& bytes@ == buf.subrange(start, end)
            },
            (FrameStep::NeedMore, SpecStep::NeedMore) => true,
            (FrameStep::Done, SpecStep::Done) => true,
            (FrameStep::Error { consumed: c, error }, SpecStep::Fail { consumed }) => {
                &&& c == consumed
                &&& error is IncompleteFrame
            },
            _ => false,
        }
    }
}

} // verus!
