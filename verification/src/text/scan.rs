//! Splitting a text-exposition payload into one frame per metric family.
//!
//! A frame is a run of whole lines handed verbatim to
//! [`parse_family`](super::parse_family). The scanner never parses values:
//! it only finds boundaries, a line at a time and only on complete lines (a
//! `\n`, or the end of the input when `at_eof`). Tracking the current
//! family's name:
//!
//! * a descriptor line (`# TYPE` / `# HELP` / `# UNIT`) starts a new family if
//!   it comes after a sample line or names a different family;
//! * a sample line whose name does not belong to the current family (neither
//!   the name nor the name and a known suffix) starts a new family;
//! * `# EOF` ends the stream; the bytes before it are the final frame;
//! * blank lines and other comment lines stay with the current family.
//!
//! With no descriptor lines at all, families are told apart by the sample
//! base name alone, which is best-effort.

use vstd::prelude::*;
use vstd::string::*;
use vstd::utf8::*;

use std::borrow::Cow;

use super::header::spec_descriptor_line;
use super::lex::{cow_as_bytes, exec_scan_until, lemma_scan_until_bounds, scan_until, Stop};
use super::sample::spec_metric_and_labels;
use super::ws::{eof_marker, exec_skip_ws, is_eof_marker, skip_ws};
use super::{descriptor_name, sample_name, str_from_utf8};
use crate::frame::{FrameStep, SpecStep};

verus! {

// ---------------------------------------------------------------------------
// Family membership
// ---------------------------------------------------------------------------

pub open spec fn sfx_total() -> Seq<u8> { seq![0x5fu8, 0x74, 0x6f, 0x74, 0x61, 0x6c] }
pub open spec fn sfx_created() -> Seq<u8> { seq![0x5fu8, 0x63, 0x72, 0x65, 0x61, 0x74, 0x65, 0x64] }
pub open spec fn sfx_bucket() -> Seq<u8> { seq![0x5fu8, 0x62, 0x75, 0x63, 0x6b, 0x65, 0x74] }
pub open spec fn sfx_count() -> Seq<u8> { seq![0x5fu8, 0x63, 0x6f, 0x75, 0x6e, 0x74] }
pub open spec fn sfx_sum() -> Seq<u8> { seq![0x5fu8, 0x73, 0x75, 0x6d] }
pub open spec fn sfx_gcount() -> Seq<u8> { seq![0x5fu8, 0x67, 0x63, 0x6f, 0x75, 0x6e, 0x74] }
pub open spec fn sfx_gsum() -> Seq<u8> { seq![0x5fu8, 0x67, 0x73, 0x75, 0x6d] }
pub open spec fn sfx_info() -> Seq<u8> { seq![0x5fu8, 0x69, 0x6e, 0x66, 0x6f] }

/// The suffixes that bind a sample line to its family's name, in the order
/// they are tried.
pub open spec fn family_suffixes() -> Seq<Seq<u8>> {
    seq![sfx_total(), sfx_created(), sfx_bucket(), sfx_count(), sfx_sum(), sfx_gcount(), sfx_gsum(), sfx_info()]
}

/// Whether `name` is a sample of the family named `base`.
pub open spec fn spec_family_member(name: Seq<u8>, base: Seq<u8>) -> bool {
    name == base || exists|k: int| 0 <= k < 8 && name == base + #[trigger] family_suffixes()[k]
}

pub open spec fn ends_with(name: Seq<u8>, suf: Seq<u8>) -> bool {
    name.len() >= suf.len() && name.subrange(name.len() - suf.len(), name.len() as int) == suf
}

/// The base name of a standalone sample: its name less the first known
/// suffix it ends with, if any.
pub open spec fn base_from(name: Seq<u8>, k: int) -> Seq<u8>
    decreases 8 - k,
{
    if k >= 8 || k < 0 {
        name
    } else if ends_with(name, family_suffixes()[k]) {
        name.subrange(0, name.len() - family_suffixes()[k].len())
    } else {
        base_from(name, k + 1)
    }
}

pub open spec fn spec_base_of(name: Seq<u8>) -> Seq<u8> {
    base_from(name, 0)
}

fn suffix_bytes(k: usize) -> (r: Vec<u8>)
    requires
        k < 8,
    ensures
        r@ == family_suffixes()[k as int],
{
    let r = if k == 0 {
        vec![0x5f, 0x74, 0x6f, 0x74, 0x61, 0x6c]
    } else if k == 1 {
        vec![0x5f, 0x63, 0x72, 0x65, 0x61, 0x74, 0x65, 0x64]
    } else if k == 2 {
        vec![0x5f, 0x62, 0x75, 0x63, 0x6b, 0x65, 0x74]
    } else if k == 3 {
        vec![0x5f, 0x63, 0x6f, 0x75, 0x6e, 0x74]
    } else if k == 4 {
        vec![0x5f, 0x73, 0x75, 0x6d]
    } else if k == 5 {
        vec![0x5f, 0x67, 0x63, 0x6f, 0x75, 0x6e, 0x74]
    } else if k == 6 {
        vec![0x5f, 0x67, 0x73, 0x75, 0x6d]
    } else {
        vec![0x5f, 0x69, 0x6e, 0x66, 0x6f]
    };
    assert(r@ =~= family_suffixes()[k as int]);
    r
}

/// Whether `b[i..]` equals `lit`.
fn tail_is(b: &[u8], i: usize, lit: &[u8]) -> (r: bool)
    requires
        i <= b@.len(),
    ensures
        r == (b@.subrange(i as int, b@.len() as int) == lit@),
{
    if b.len() - i != lit.len() {
        return false;
    }
    let mut k: usize = 0;
    while k < lit.len()
        invariant
            i <= b@.len(),
            b@.len() - i == lit@.len(),
            k <= lit@.len(),
            forall|m: int| 0 <= m < k ==> b@[i + m] == lit@[m],
        decreases lit@.len() - k,
    {
        let n = b.len();
        assert(i + k < n);
        if b[i + k] != lit[k] {
            assert(b@.subrange(i as int, b@.len() as int)[k as int] != lit@[k as int]);
            return false;
        }
        k = k + 1;
    }
    assert(b@.subrange(i as int, b@.len() as int) =~= lit@);
    true
}

/// Whether `name` is `base` followed by `suf`.
fn is_extension(name: &[u8], base: &[u8], suf: &[u8]) -> (r: bool)
    ensures
        r == (name@ == base@ + suf@),
{
    if name.len() < base.len() || name.len() - base.len() != suf.len() {
        proof {
            if name@ == base@ + suf@ {
                assert(name@.len() == base@.len() + suf@.len());
            }
        }
        return false;
    }
    let head = tail_is(&name[0..base.len()], 0, base);
    let tail = tail_is(name, base.len(), suf);
    proof {
        let h = name@.subrange(0, base@.len() as int);
        assert(h.subrange(0, h.len() as int) =~= h);
        if name@ == base@ + suf@ {
            assert(h =~= base@);
            assert(name@.subrange(base@.len() as int, name@.len() as int) =~= suf@);
        }
        if head && tail {
            assert(name@ =~= base@ + suf@);
        }
    }
    head && tail
}

/// True when `name` is a sample of the family whose name is `base`.
pub fn family_member(name: &[u8], base: &[u8]) -> (r: bool)
    ensures
        r == spec_family_member(name@, base@),
{
    if is_extension(name, base, &[]) {
        assert(base@ + Seq::<u8>::empty() =~= base@);
        return true;
    }
    assert(base@ + Seq::<u8>::empty() =~= base@);
    let mut k: usize = 0;
    while k < 8
        invariant
            k <= 8,
            name@ != base@,
            forall|m: int| 0 <= m < k ==> name@ != base@ + #[trigger] family_suffixes()[m],
        decreases 8 - k,
    {
        let suf = suffix_bytes(k);
        if is_extension(name, base, suf.as_slice()) {
            return true;
        }
        k = k + 1;
    }
    false
}

/// The base name of a standalone sample (used only when no descriptor has
/// named the family yet): strip a recognized trailing suffix, if any.
pub fn base_of(name: &[u8]) -> (r: &[u8])
    ensures
        r@ == spec_base_of(name@),
{
    let mut k: usize = 0;
    while k < 8
        invariant
            k <= 8,
            spec_base_of(name@) == base_from(name@, k as int),
        decreases 8 - k,
    {
        let suf = suffix_bytes(k);
        if name.len() >= suf.len() && tail_is(name, name.len() - suf.len(), suf.as_slice()) {
            return &name[0..name.len() - suf.len()];
        }
        k = k + 1;
    }
    name
}

// ---------------------------------------------------------------------------
// Lines
// ---------------------------------------------------------------------------

/// What one line is, to the scanner.
pub enum SpecScanLine {
    Blank,
    /// A `#` comment that is neither a descriptor nor `# EOF`.
    Comment,
    Eof,
    /// Looks like a sample but has no name (or is not UTF-8): it stays with
    /// the current family so that parsing reports it.
    Opaque,
    Descriptor(Seq<u8>),
    Sample(Seq<u8>),
}

#[verifier::opaque]
pub open spec fn spec_classify(line: Seq<u8>) -> SpecScanLine {
    if !valid_utf8(line) {
        SpecScanLine::Opaque
    } else {
        let t = skip_ws(line, 0);
        if t == line.len() {
            SpecScanLine::Blank
        } else if line[t] == 0x23 {
            if is_eof_marker(line, t + 1, line.len() as int) {
                SpecScanLine::Eof
            } else {
                match spec_descriptor_line(line, 0) {
                    Some((d, _)) => SpecScanLine::Descriptor(d.name),
                    None => SpecScanLine::Comment,
                }
            }
        } else {
            match spec_metric_and_labels(line, t) {
                Some((Some(n), _, _)) => SpecScanLine::Sample(n),
                _ => SpecScanLine::Opaque,
            }
        }
    }
}

pub enum ScanLine<'a> {
    Blank,
    Comment,
    Eof,
    Opaque,
    Descriptor(Cow<'a, str>),
    Sample(Cow<'a, str>),
}

impl<'a> ScanLine<'a> {
    pub open spec fn view(&self) -> SpecScanLine {
        match self {
            ScanLine::Blank => SpecScanLine::Blank,
            ScanLine::Comment => SpecScanLine::Comment,
            ScanLine::Eof => SpecScanLine::Eof,
            ScanLine::Opaque => SpecScanLine::Opaque,
            ScanLine::Descriptor(n) => SpecScanLine::Descriptor(encode_utf8(n@)),
            ScanLine::Sample(n) => SpecScanLine::Sample(encode_utf8(n@)),
        }
    }
}

pub fn classify(line: &[u8]) -> (r: ScanLine<'_>)
    ensures
        r.view() == spec_classify(line@),
{
    reveal(spec_classify);
    let s = match str_from_utf8(line) {
        Ok(s) => s,
        Err(_) => return ScanLine::Opaque,
    };
    let b = s.as_bytes();
    let t = exec_skip_ws(b, 0);
    if t == b.len() {
        return ScanLine::Blank;
    }
    if b[t] == 0x23 {
        if eof_marker(b, t + 1) {
            return ScanLine::Eof;
        }
        return match descriptor_name(s) {
            Some(n) => ScanLine::Descriptor(n),
            None => ScanLine::Comment,
        };
    }
    match sample_name(s) {
        Some(n) => ScanLine::Sample(n),
        None => ScanLine::Opaque,
    }
}

/// A line without its trailing `\r`.
pub open spec fn spec_strip_cr(line: Seq<u8>) -> Seq<u8> {
    if line.len() > 0 && line.last() == 0x0d {
        line.drop_last()
    } else {
        line
    }
}

pub fn strip_cr(line: &[u8]) -> (r: &[u8])
    ensures
        r@ == spec_strip_cr(line@),
{
    if line.len() > 0 && line[line.len() - 1] == 0x0d {
        let r = &line[0..line.len() - 1];
        assert(r@ =~= line@.drop_last());
        r
    } else {
        line
    }
}

// ---------------------------------------------------------------------------
// The scan
// ---------------------------------------------------------------------------

/// Scan the lines of `buf` from `pos`, the current family being `name` (once
/// known) and `seen` telling whether a sample line of it has been seen.
pub open spec fn scan_from(buf: Seq<u8>, at_eof: bool, pos: int, name: Option<Seq<u8>>, seen: bool) -> SpecStep
    decreases buf.len() - pos,
{
    if pos < 0 || pos >= buf.len() {
        if at_eof {
            if name is Some || seen {
                SpecStep::Frame { start: 0, end: buf.len() as int }
            } else {
                SpecStep::Done
            }
        } else {
            SpecStep::NeedMore
        }
    } else {
        let nl = scan_until(buf, pos, Stop::Newline);
        proof {
            lemma_scan_until_bounds(buf, pos, Stop::Newline);
        }
        let has_nl = nl < buf.len();
        if !has_nl && !at_eof {
            SpecStep::NeedMore
        } else {
            let next = if has_nl { nl + 1 } else { buf.len() as int };
            let here = SpecStep::Frame { start: 0, end: pos };
            match spec_classify(spec_strip_cr(buf.subrange(pos, nl))) {
                SpecScanLine::Blank | SpecScanLine::Comment => scan_from(buf, at_eof, next, name, seen),
                SpecScanLine::Opaque => scan_from(buf, at_eof, next, name, true),
                SpecScanLine::Eof => if pos == 0 { SpecStep::Done } else { here },
                SpecScanLine::Descriptor(n) => if seen {
                    here
                } else {
                    match name {
                        None => scan_from(buf, at_eof, next, Some(n), seen),
                        Some(cur) => if cur == n { scan_from(buf, at_eof, next, name, seen) } else { here },
                    }
                },
                SpecScanLine::Sample(sn) => match name {
                    None => scan_from(buf, at_eof, next, Some(spec_base_of(sn)), true),
                    Some(cur) => if spec_family_member(sn, cur) {
                        scan_from(buf, at_eof, next, name, true)
                    } else {
                        here
                    },
                },
            }
        }
    }
}

/// The frame the text scanner finds at the front of `buf`.
pub open spec fn spec_text_step(buf: Seq<u8>, at_eof: bool) -> SpecStep {
    if buf.len() == 0 {
        if at_eof { SpecStep::Done } else { SpecStep::NeedMore }
    } else {
        scan_from(buf, at_eof, 0, None, false)
    }
}

pub open spec fn opt_bytes(v: Option<Vec<u8>>) -> Option<Seq<u8>> {
    match v {
        Some(v) => Some(v@),
        None => None,
    }
}

fn to_vec(b: &[u8]) -> (r: Vec<u8>)
    ensures
        r@ == b@,
{
    let mut r: Vec<u8> = Vec::new();
    r.extend_from_slice(b);
    r
}

/// Find the next metric family in `buf`: the run of whole lines up to the
/// first line that starts another family.
pub fn text_next_frame<'a>(buf: &'a [u8], at_eof: bool) -> (r: FrameStep<'a>)
    ensures
        r.is_step(buf@, spec_text_step(buf@, at_eof)),
{
    if buf.len() == 0 {
        return if at_eof { FrameStep::Done } else { FrameStep::NeedMore };
    }
    let mut name: Option<Vec<u8>> = None;
    let mut seen = false;
    let mut pos: usize = 0;
    while pos < buf.len()
        invariant
            pos <= buf@.len(),
            buf@.len() > 0,
            spec_text_step(buf@, at_eof) == scan_from(buf@, at_eof, pos as int, opt_bytes(name), seen),
        decreases buf@.len() - pos,
    {
        let nl = exec_scan_until(buf, pos, Stop::Newline);
        proof { lemma_scan_until_bounds(buf@, pos as int, Stop::Newline); }
        let has_nl = nl < buf.len();
        if !has_nl && !at_eof {
            return FrameStep::NeedMore;
        }
        let next = if has_nl { nl + 1 } else { buf.len() };
        let line = strip_cr(&buf[pos..nl]);
        let ghost here = SpecStep::Frame { start: 0, end: pos as int };
        let frame = FrameStep::Frame { consumed: pos, bytes: &buf[0..pos] };
        assert(frame.is_step(buf@, here));
        match classify(line) {
            ScanLine::Blank | ScanLine::Comment => {},
            ScanLine::Opaque => {
                seen = true;
            },
            ScanLine::Eof => {
                return if pos == 0 { FrameStep::Done } else { frame };
            },
            ScanLine::Descriptor(n) => {
                if seen {
                    return frame;
                }
                let nb = cow_as_bytes(&n);
                match &name {
                    None => {
                        name = Some(to_vec(nb));
                    },
                    Some(cur) => {
                        if !super::group::exec_bytes_eq(cur.as_slice(), nb) {
                            return frame;
                        }
                    },
                }
            },
            ScanLine::Sample(sn) => {
                let sb = cow_as_bytes(&sn);
                match &name {
                    None => {
                        name = Some(to_vec(base_of(sb)));
                        seen = true;
                    },
                    Some(cur) => {
                        if !family_member(sb, cur.as_slice()) {
                            return frame;
                        }
                        seen = true;
                    },
                }
            },
        }
        pos = next;
    }
    assert(buf@.subrange(0, buf@.len() as int) =~= buf@);
    if at_eof {
        if name.is_some() || seen {
            FrameStep::Frame { consumed: buf.len(), bytes: buf }
        } else {
            FrameStep::Done
        }
    } else {
        FrameStep::NeedMore
    }
}

// ---------------------------------------------------------------------------
// Laws
// ---------------------------------------------------------------------------

proof fn lemma_scan_until_extend(b: Seq<u8>, r: Seq<u8>, i: int)
    requires
        0 <= i <= b.len(),
        scan_until(b, i, Stop::Newline) < b.len(),
    ensures
        scan_until(b + r, i, Stop::Newline) == scan_until(b, i, Stop::Newline),
    decreases b.len() - i,
{
    assert((b + r)[i] == b[i]);
    if !super::lex::stops(Stop::Newline, b[i]) {
        lemma_scan_until_extend(b, r, i + 1);
    }
}

proof fn lemma_scan_from_extend(b: Seq<u8>, r: Seq<u8>, e: bool, pos: int, name: Option<Seq<u8>>, seen: bool)
    requires
        0 <= pos,
        !(scan_from(b, false, pos, name, seen) is NeedMore),
    ensures
        scan_from(b + r, e, pos, name, seen) == scan_from(b, false, pos, name, seen),
    decreases b.len() - pos,
{
    if pos < b.len() {
        let nl = scan_until(b, pos, Stop::Newline);
        lemma_scan_until_bounds(b, pos, Stop::Newline);
        assert(nl < b.len());
        lemma_scan_until_extend(b, r, pos);
        assert((b + r).subrange(pos, nl) =~= b.subrange(pos, nl));
        let next = nl + 1;
        let c = spec_classify(spec_strip_cr(b.subrange(pos, nl)));
        match c {
            SpecScanLine::Blank | SpecScanLine::Comment => {
                lemma_scan_from_extend(b, r, e, next, name, seen);
            },
            SpecScanLine::Opaque => {
                lemma_scan_from_extend(b, r, e, next, name, true);
            },
            SpecScanLine::Eof => {},
            SpecScanLine::Descriptor(n) => {
                if !seen {
                    match name {
                        None => lemma_scan_from_extend(b, r, e, next, Some(n), seen),
                        Some(cur) => if cur == n {
                            lemma_scan_from_extend(b, r, e, next, name, seen);
                        },
                    }
                }
            },
            SpecScanLine::Sample(sn) => {
                match name {
                    None => lemma_scan_from_extend(b, r, e, next, Some(spec_base_of(sn)), true),
                    Some(cur) => if spec_family_member(sn, cur) {
                        lemma_scan_from_extend(b, r, e, next, name, true);
                    },
                }
            },
        }
    }
}

/// What the text scanner decides before the end of its input stays decided
/// when more input follows: a frame (or the end of the stream) found without
/// `at_eof` is the same frame in any extension of the buffer, whether or not
/// the extended input is final. This is what makes streaming decoding
/// independent of where chunk boundaries fall.
pub proof fn law_text_step_prefix_stable(b: Seq<u8>, r: Seq<u8>, e: bool)
    requires
        !(spec_text_step(b, false) is NeedMore),
    ensures
        spec_text_step(b + r, e) == spec_text_step(b, false),
{
    lemma_scan_from_extend(b, r, e, 0, None, false);
}

/// Every frame the text scanner finds starts at the front of the buffer and
/// holds at least one whole line; it never reports a framing error.
pub proof fn law_text_step_progress(b: Seq<u8>, e: bool)
    ensures
        match spec_text_step(b, e) {
            SpecStep::Frame { start, end } => start == 0 && 0 < end <= b.len(),
            SpecStep::Fail { .. } => false,
            _ => true,
        },
{
    if b.len() > 0 {
        lemma_scan_from_progress(b, e, 0, None, false);
    }
}

proof fn lemma_scan_from_progress(b: Seq<u8>, e: bool, pos: int, name: Option<Seq<u8>>, seen: bool)
    requires
        0 <= pos,
        b.len() > 0,
        pos == 0 ==> name is None && !seen,
    ensures
        match scan_from(b, e, pos, name, seen) {
            SpecStep::Frame { start, end } => start == 0 && 0 < end <= b.len(),
            SpecStep::Fail { .. } => false,
            _ => true,
        },
    decreases b.len() - pos,
{
    if pos < b.len() {
        let nl = scan_until(b, pos, Stop::Newline);
        lemma_scan_until_bounds(b, pos, Stop::Newline);
        if nl < b.len() || e {
            let next = if nl < b.len() { nl + 1 } else { b.len() as int };
            let c = spec_classify(spec_strip_cr(b.subrange(pos, nl)));
            match c {
                SpecScanLine::Blank | SpecScanLine::Comment => {
                    lemma_scan_from_progress(b, e, next, name, seen);
                },
                SpecScanLine::Opaque => {
                    lemma_scan_from_progress(b, e, next, name, true);
                },
                SpecScanLine::Eof => {},
                SpecScanLine::Descriptor(n) => {
                    if !seen {
                        match name {
                            None => lemma_scan_from_progress(b, e, next, Some(n), seen),
                            Some(cur) => if cur == n {
                                lemma_scan_from_progress(b, e, next, name, seen);
                            },
                        }
                    }
                },
                SpecScanLine::Sample(sn) => {
                    match name {
                        None => lemma_scan_from_progress(b, e, next, Some(spec_base_of(sn)), true),
                        Some(cur) => if spec_family_member(sn, cur) {
                            lemma_scan_from_progress(b, e, next, name, true);
                        },
                    }
                },
            }
        }
    }
}

proof fn lemma_scan_from_decides(buf: Seq<u8>, pos: int, name: Option<Seq<u8>>, seen: bool)
    ensures
        !(scan_from(buf, true, pos, name, seen) is NeedMore),
    decreases buf.len() - pos,
{
    if 0 <= pos < buf.len() {
        let nl = scan_until(buf, pos, Stop::Newline);
        lemma_scan_until_bounds(buf, pos, Stop::Newline);
        let next = if nl < buf.len() { nl + 1 } else { buf.len() as int };
        match spec_classify(spec_strip_cr(buf.subrange(pos, nl))) {
            SpecScanLine::Blank | SpecScanLine::Comment => lemma_scan_from_decides(buf, next, name, seen),
            SpecScanLine::Opaque => lemma_scan_from_decides(buf, next, name, true),
            SpecScanLine::Descriptor(n) => {
                lemma_scan_from_decides(buf, next, Some(n), seen);
                lemma_scan_from_decides(buf, next, name, seen);
            },
            SpecScanLine::Sample(sn) => {
                lemma_scan_from_decides(buf, next, Some(spec_base_of(sn)), true);
                lemma_scan_from_decides(buf, next, name, true);
            },
            _ => {},
        }
    }
}

/// Once the input is final the scanner always decides: it never asks for
/// more.
pub proof fn law_text_step_decides_at_end(b: Seq<u8>)
    ensures
        !(spec_text_step(b, true) is NeedMore),
{
    lemma_scan_from_decides(b, 0, None, false);
}

/// A family owns the samples named by its base name alone or followed by
/// one of `_total`, `_created`, `_bucket`, `_count`, `_sum`, `_gcount`,
/// `_gsum` or `_info`: each such line stays in the family's frame.
pub proof fn law_suffixed_samples_belong_to_family(base: Seq<u8>)
    ensures
        spec_family_member(base, base),
        spec_family_member(base + seq![0x5fu8, 0x74, 0x6f, 0x74, 0x61, 0x6c], base),
        spec_family_member(base + seq![0x5fu8, 0x63, 0x72, 0x65, 0x61, 0x74, 0x65, 0x64], base),
        spec_family_member(base + seq![0x5fu8, 0x62, 0x75, 0x63, 0x6b, 0x65, 0x74], base),
        spec_family_member(base + seq![0x5fu8, 0x63, 0x6f, 0x75, 0x6e, 0x74], base),
        spec_family_member(base + seq![0x5fu8, 0x73, 0x75, 0x6d], base),
        spec_family_member(base + seq![0x5fu8, 0x67, 0x63, 0x6f, 0x75, 0x6e, 0x74], base),
        spec_family_member(base + seq![0x5fu8, 0x67, 0x73, 0x75, 0x6d], base),
        spec_family_member(base + seq![0x5fu8, 0x69, 0x6e, 0x66, 0x6f], base),
{
    let fs = family_suffixes();
    assert(fs[0] =~= seq![0x5fu8, 0x74, 0x6f, 0x74, 0x61, 0x6c]);
    assert(fs[1] =~= seq![0x5fu8, 0x63, 0x72, 0x65, 0x61, 0x74, 0x65, 0x64]);
    assert(fs[2] =~= seq![0x5fu8, 0x62, 0x75, 0x63, 0x6b, 0x65, 0x74]);
    assert(fs[3] =~= seq![0x5fu8, 0x63, 0x6f, 0x75, 0x6e, 0x74]);
    assert(fs[4] =~= seq![0x5fu8, 0x73, 0x75, 0x6d]);
    assert(fs[5] =~= seq![0x5fu8, 0x67, 0x63, 0x6f, 0x75, 0x6e, 0x74]);
    assert(fs[6] =~= seq![0x5fu8, 0x67, 0x73, 0x75, 0x6d]);
    assert(fs[7] =~= seq![0x5fu8, 0x69, 0x6e, 0x66, 0x6f]);
}

} // verus!
