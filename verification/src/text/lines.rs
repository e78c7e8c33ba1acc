//! Splitting the samples part of a family block into lines and parsing each.

use vstd::prelude::*;
use vstd::string::*;
use vstd::utf8::*;

use super::lex::{
    at_boundary, exec_scan_until, lemma_after_ascii, lemma_scan_until_boundary, scan_until,
    sub_str, Stop,
};
use super::sample::{sample_line, spec_sample_line, Sample, SpecSample};
use super::ws::{eof_marker, exec_skip_ws, is_eof_marker, skip_ws};
use crate::borrowed::{kept, lemma_kept_within};
use crate::error::ParseError;

verus! {

/// The end of the line starting at `p`, without its `\n` and without a
/// trailing `\r`.
pub open spec fn line_content_end(s: Seq<u8>, p: int) -> int {
    let le = scan_until(s, p, Stop::Newline);
    if le > p && s[le - 1] == 0x0d { le - 1 } else { le }
}

/// What one line of the samples part is.
pub enum SpecLine {
    /// Blank, or a comment other than `# EOF`.
    Skip,
    /// `# EOF`: the block ends.
    Eof,
    Sample(SpecSample),
    /// Not a sample line.
    Bad,
}

#[verifier::opaque]
pub open spec fn spec_line(line: Seq<u8>) -> SpecLine {
    let t = skip_ws(line, 0);
    if t == line.len() {
        SpecLine::Skip
    } else if line[t] == 0x23 {
        if is_eof_marker(line, t + 1, line.len() as int) {
            SpecLine::Eof
        } else {
            SpecLine::Skip
        }
    } else {
        match spec_sample_line(line) {
            Some((smp, k)) => if k == line.len() { SpecLine::Sample(smp) } else { SpecLine::Bad },
            None => SpecLine::Bad,
        }
    }
}

/// Parse the sample lines of `s` from `p`: blank lines and comment lines are
/// skipped, an `# EOF` line ends the block, and any other line must be a
/// whole sample line; the first that is not is the error.
pub open spec fn spec_parse_samples(s: Seq<u8>, p: int) -> Result<Seq<SpecSample>, Seq<u8>>
    decreases s.len() - p,
{
    let le = scan_until(s, p, Stop::Newline);
    let line = s.subrange(p, line_content_end(s, p));
    let rest = if p <= le < s.len() {
        spec_parse_samples(s, le + 1)
    } else {
        Ok(Seq::empty())
    };
    match spec_line(line) {
        SpecLine::Skip => rest,
        SpecLine::Eof => Ok(Seq::empty()),
        SpecLine::Sample(smp) => match rest {
            Ok(v) => Ok(seq![smp] + v),
            Err(x) => Err(x),
        },
        SpecLine::Bad => Err(line),
    }
}

pub enum Line<'a> {
    Skip,
    Eof,
    Sample(Sample<'a>),
    Bad,
}

/// Classify one line of the samples part, parsing it when it is a sample.
pub fn classify_line<'a>(line: &'a str, lb: &[u8]) -> (r: Line<'a>)
    requires
        lb@ == line.spec_bytes(),
    ensures
        match (r, spec_line(lb@)) {
            (Line::Skip, SpecLine::Skip) => true,
            (Line::Eof, SpecLine::Eof) => true,
            (Line::Sample(smp), SpecLine::Sample(ss)) => smp.view() == ss && smp.wf(),
            (Line::Bad, SpecLine::Bad) => true,
            _ => false,
        },
        r is Sample ==> r->Sample_0.kept(lb@),
{
    reveal(spec_line);
    let t = exec_skip_ws(lb, 0);
    if t == lb.len() {
        Line::Skip
    } else if lb[t] == 0x23 {
        if eof_marker(lb, t + 1) {
            Line::Eof
        } else {
            Line::Skip
        }
    } else {
        match sample_line(line, lb) {
            Some((smp, k)) => if k == lb.len() { Line::Sample(smp) } else { Line::Bad },
            None => Line::Bad,
        }
    }
}

pub open spec fn samples_view(v: Seq<Sample<'_>>) -> Seq<SpecSample> {
    Seq::new(v.len(), |i: int| v[i].view())
}

pub open spec fn samples_wf(v: Seq<Sample<'_>>) -> bool {
    forall|i: int| 0 <= i < v.len() ==> (#[trigger] v[i]).wf()
}

pub open spec fn samples_kept(v: Seq<Sample<'_>>, src: Seq<u8>) -> bool {
    forall|i: int| 0 <= i < v.len() ==> (#[trigger] v[i]).kept(src)
}

/// A sample kept from a line of `b` is kept from `b`.
proof fn lemma_sample_kept_within(smp: Sample<'_>, b: Seq<u8>, a: int, e: int)
    requires
        0 <= a <= e <= b.len(),
        smp.kept(b.subrange(a, e)),
    ensures
        smp.kept(b),
{
    lemma_kept_within(smp.name, b, a, e);
    assert forall|k: int| 0 <= k < smp.labels@.len() implies kept(#[trigger] smp.labels@[k].name, b) && kept(
        smp.labels@[k].value,
        b,
    ) by {
        lemma_kept_within(smp.labels@[k].name, b, a, e);
        lemma_kept_within(smp.labels@[k].value, b, a, e);
    }
    if let Some(x) = smp.exemplar {
        assert forall|k: int| 0 <= k < x.label@.len() implies kept(#[trigger] x.label@[k].name, b) && kept(
            x.label@[k].value,
            b,
        ) by {
            lemma_kept_within(x.label@[k].name, b, a, e);
            lemma_kept_within(x.label@[k].value, b, a, e);
        }
    }
}

pub open spec fn prepend(acc: Seq<SpecSample>, r: Result<Seq<SpecSample>, Seq<u8>>) -> Result<Seq<SpecSample>, Seq<u8>> {
    match r {
        Ok(v) => Ok(acc + v),
        Err(x) => Err(x),
    }
}

/// Split the text from `p` into lines and parse each one.
pub fn parse_samples<'a>(text: &'a str, b: &[u8], p: usize) -> (r: Result<Vec<Sample<'a>>, ParseError>)
    requires
        b@ == text.spec_bytes(),
        p <= b@.len(),
        at_boundary(b@, p as int),
    ensures
        match (r, spec_parse_samples(b@, p as int)) {
            (Ok(v), Ok(sv)) => samples_view(v@) == sv && samples_wf(v@),
            (Err(ParseError::InvalidLine(x)), Err(sl)) => encode_utf8(x@) == sl,
            _ => false,
        },
        r is Ok ==> samples_kept(r->Ok_0@, b@),
{
    proof { encode_utf8_valid_utf8(text@); }
    let mut samples: Vec<Sample<'a>> = Vec::new();
    let mut q = p;
    let n = b.len();
    assert(prepend(samples_view(samples@), spec_parse_samples(b@, p as int)) == spec_parse_samples(b@, p as int)) by {
        assert(samples_view(samples@) =~= Seq::<SpecSample>::empty());
        match spec_parse_samples(b@, p as int) {
            Ok(v) => assert(Seq::<SpecSample>::empty() + v =~= v),
            Err(_) => {},
        }
    }
    loop
        invariant
            b@ == text.spec_bytes(),
            valid_utf8(b@),
            n == b@.len(),
            p <= q <= b@.len(),
            at_boundary(b@, q as int),
            samples_wf(samples@),
            samples_kept(samples@, b@),
            prepend(samples_view(samples@), spec_parse_samples(b@, q as int)) == spec_parse_samples(b@, p as int),
        decreases b@.len() - q,
    {
        let le = exec_scan_until(b, q, Stop::Newline);
        proof { lemma_scan_until_boundary(b@, q as int, Stop::Newline); }
        let e = if le > q && b[le - 1] == 0x0d { le - 1 } else { le };
        let line = sub_str(text, q, e);
        let lb = line.as_bytes();
        assert(lb@ == b@.subrange(q as int, e as int));
        let last = le >= n;
        match classify_line(line, lb) {
            Line::Skip => {},
            Line::Eof => {
                let ghost sv = samples_view(samples@);
                assert(sv + Seq::<SpecSample>::empty() =~= sv);
                return Ok(samples);
            },
            Line::Bad => {
                return Err(ParseError::InvalidLine(line.to_owned()));
            },
            Line::Sample(smp) => {
                let ghost old = samples@;
                let ghost sv = smp.view();
                let ghost smp_ghost = smp;
                samples.push(smp);
                proof {
                    assert(samples_view(samples@) =~= samples_view(old).push(sv));
                    lemma_sample_kept_within(smp_ghost, b@, q as int, e as int);
                    assert forall|i: int| 0 <= i < samples@.len() implies (#[trigger] samples@[i]).wf() && samples@[i].kept(b@) by {
                        if i < old.len() {
                            assert(samples@[i] == old[i]);
                        }
                    }
                    if !last {
                        match spec_parse_samples(b@, (le + 1) as int) {
                            Ok(v) => assert(samples_view(old) + (seq![sv] + v) =~= samples_view(samples@) + v),
                            Err(_) => {},
                        }
                    } else {
                        assert(samples_view(old) + seq![sv] =~= samples_view(samples@) + Seq::<SpecSample>::empty());
                    }
                }
            },
        }
        if last {
            let ghost sv = samples_view(samples@);
            assert(sv + Seq::<SpecSample>::empty() =~= sv);
            return Ok(samples);
        }
        proof {
            super::lex::lemma_scan_until_bounds(b@, q as int, Stop::Newline);
            lemma_after_ascii(b@, le as int);
        }
        q = le + 1;
    }
}

} // verus!
