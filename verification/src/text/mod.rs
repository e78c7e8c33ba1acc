//! A permissive parser for the Prometheus / OpenMetrics text exposition format.
//!
//! The parser is the union of the Prometheus and OpenMetrics text dialects,
//! leaning to the most permissive reading wherever they disagree: names may be
//! bare, quoted, or given inside the braces; `untyped`, `unknown` and any
//! unrecognized type keyword read as untyped; counters take both the bare
//! sample and the `_total` suffix; numbers are integers when their text has
//! no decimal point or exponent; escapes resolve `\\`, `\n` and `\"`.

use vstd::prelude::*;
use vstd::string::*;
use vstd::utf8::*;

use std::borrow::Cow;

use crate::borrowed::{borrows, family_borrows, family_kept, law_unescaped_text_borrows, MetricFamily};
use crate::error::ParseError;
use crate::model::SpecFamily;
use crate::owned::MetricType;
use assemble::{assemble, lemma_fold_dialects, spec_assemble, unit_free_acc, unit_free_metric};
use header::{
    descriptor_line, is_text_type, lemma_header_text_type, parse_header, spec_descriptor_line, spec_parse_header,
    SpecHeader,
};
use lex::{cow_as_bytes, plain};
use lines::{parse_samples, spec_parse_samples};
use sample::{metric_and_labels, spec_metric_and_labels, SpecSample};
use ws::{exec_skip_ws, lemma_skip_ws_boundary, skip_ws};

pub mod assemble;
pub mod group;
pub mod header;
pub mod lex;
pub mod lines;
pub mod number;
pub mod sample;
pub mod scan;
pub mod ws;

verus! {

/// `std::str::from_utf8`: the bytes as a `str` when they are valid UTF-8,
/// and an error when they are not. Its contract says just that: the result
/// is `Ok` exactly for valid UTF-8, and then holds the same bytes.
#[verifier::external_body]
pub(crate) fn str_from_utf8(b: &[u8]) -> (r: Result<&str, core::str::Utf8Error>)
    ensures
        match r {
            Ok(s) => valid_utf8(b@) && s.spec_bytes() == b@,
            Err(_) => !valid_utf8(b@),
        },
{
    std::str::from_utf8(b)
}

/// How to read the unit of a trailing sample timestamp. The dialects only
/// diverge here; the grammar accepted is otherwise the union of both.
#[derive(Debug, Clone, Copy, PartialEq, Eq, Structural)]
pub enum TextFormat {
    /// Classic Prometheus text: trailing timestamps are integer milliseconds.
    Prometheus,
    /// OpenMetrics text: timestamps are (possibly fractional) seconds.
    OpenMetrics,
    /// Dialect unknown: a fractional timestamp is seconds; a plain integer is
    /// read in whichever unit lands closer to the current time.
    Guess,
}

/// The family name: from the first descriptor line, or else from the first
/// sample line, or else empty.
pub open spec fn family_name(h: SpecHeader, ss: Seq<SpecSample>) -> Seq<u8> {
    match h.name {
        Some(n) => n,
        None => if ss.len() > 0 {
            ss[0].name
        } else {
            Seq::empty()
        },
    }
}

/// One family block: its descriptor lines, then its sample lines, folded
/// into metrics by the family type (untyped when there is no `# TYPE`
/// line). The error is the first line that is not a sample line.
pub open spec fn spec_parse_family(b: Seq<u8>, format: TextFormat) -> Result<SpecFamily, Seq<u8>> {
    let (h, rest) = spec_parse_header(b, 0);
    match spec_parse_samples(b, rest) {
        Err(line) => Err(line),
        Ok(ss) => {
            let ty = match h.typ {
                Some(t) => t,
                None => MetricType::Untyped,
            };
            let name = family_name(h, ss);
            Ok(
                SpecFamily {
                    name,
                    help: h.help,
                    typ: ty,
                    metric: spec_assemble(format, ty, name, ss),
                    unit: h.unit,
                },
            )
        },
    }
}

fn copy_cow<'a>(c: &Cow<'a, str>) -> (r: Cow<'a, str>)
    ensures
        encode_utf8(r@) == encode_utf8(c@),
        borrows(*c) ==> borrows(r),
{
    match c {
        Cow::Borrowed(s) => Cow::Borrowed(s),
        Cow::Owned(s) => Cow::Owned(s.clone()),
    }
}

/// Parse one already-separated metric-family block in the given dialect.
///
/// The dialect only decides the unit of trailing sample timestamps;
/// `_created` and exemplar timestamps are always seconds.
pub fn parse_family(text: &str, format: TextFormat) -> (r: Result<MetricFamily<'_>, ParseError>)
    ensures
        match (r, spec_parse_family(text.spec_bytes(), format)) {
            (Ok(f), Ok(sf)) => f.deep_view() == sf,
            (Err(ParseError::InvalidLine(x)), Err(line)) => encode_utf8(x@) == line,
            _ => false,
        },
        plain(text.spec_bytes()) && r is Ok ==> family_borrows(r->Ok_0),
        r is Ok ==> family_kept(r->Ok_0, text.spec_bytes()),
{
    let b = text.as_bytes();
    let (header, rest) = parse_header(text, b, 0);
    let samples = match parse_samples(text, b, rest) {
        Ok(v) => v,
        Err(e) => return Err(e),
    };
    let ty = match header.typ {
        Some(t) => t,
        None => MetricType::Untyped,
    };
    proof { reveal_strlit(""); }
    let name: Cow<'_, str> = match header.name {
        Some(n) => n,
        None => if samples.len() > 0 {
            copy_cow(&samples[0].name)
        } else {
            assert(""@ =~= Seq::<char>::empty());
            Cow::Borrowed("")
        },
    };
    assert(samples.len() == 0 || samples[0].kept(b@));
    let metric = assemble(format, ty, cow_as_bytes(&name), samples, Ghost(b@));
    let f = MetricFamily { name, help: header.help, metric_type: ty, metric, unit: header.unit };
    proof {
        if plain(b@) {
            law_unescaped_text_borrows(f, b@);
        }
    }
    Ok(f)
}

/// The family name a single descriptor line (`# TYPE` / `# HELP` /
/// `# UNIT`) declares, or `None` for any other line.
pub fn descriptor_name(line: &str) -> (r: Option<Cow<'_, str>>)
    ensures
        match (r, spec_descriptor_line(line.spec_bytes(), 0)) {
            (Some(n), Some((d, _))) => encode_utf8(n@) == d.name,
            (None, None) => true,
            _ => false,
        },
{
    match descriptor_line(line, line.as_bytes(), 0) {
        Some((d, _)) => Some(d.name),
        None => None,
    }
}

/// The metric name of a single sample line, in either the `name{…}` or the
/// `{"name", …}` form, after leading whitespace; `None` if it does not start
/// like a sample (or is an anonymous `{…}` sample).
pub fn sample_name(line: &str) -> (r: Option<Cow<'_, str>>)
    ensures
        match (r, spec_metric_and_labels(line.spec_bytes(), skip_ws(line.spec_bytes(), 0))) {
            (Some(n), Some((Some(sn), _, _))) => encode_utf8(n@) == sn,
            (None, Some((None, _, _))) => true,
            (None, None) => true,
            _ => false,
        },
{
    let b = line.as_bytes();
    let t = exec_skip_ws(b, 0);
    proof {
        encode_utf8_valid_utf8(line@);
        lemma_skip_ws_boundary(b@, 0);
    }
    match metric_and_labels(line, b, t) {
        Some((n, _, _)) => n,
        None => None,
    }
}

/// Native and hybrid histograms never come out of text: a family parsed
/// from text has neither type, and none of its metrics holds either value.
pub proof fn law_text_has_no_native_histograms(b: Seq<u8>, format: TextFormat)
    ensures
        spec_parse_family(b, format) matches Ok(f) ==> {
            &&& is_text_type(f.typ)
            &&& forall|i: int|
                0 <= i < f.metric.len() ==> !(#[trigger] f.metric[i].value is NativeHistogram)
                    && !(f.metric[i].value is HybridHistogram)
        },
{
    lemma_header_text_type(b, 0);
}

/// The dialect decides nothing but the unit trailing sample timestamps are
/// read in: parsing the same block in two dialects fails on the same line,
/// or gives the same family but for those units.
pub proof fn law_dialect_sets_only_timestamp_units(b: Seq<u8>, f1: TextFormat, f2: TextFormat)
    ensures
        match (spec_parse_family(b, f1), spec_parse_family(b, f2)) {
            (Ok(x), Ok(y)) => {
                &&& x.name == y.name && x.help == y.help && x.typ == y.typ && x.unit == y.unit
                &&& x.metric.len() == y.metric.len()
                &&& forall|i: int|
                    0 <= i < x.metric.len() ==> unit_free_metric(#[trigger] x.metric[i]) == unit_free_metric(
                        y.metric[i],
                    )
            },
            (Err(l1), Err(l2)) => l1 == l2,
            _ => false,
        },
{
    let (h, rest) = spec_parse_header(b, 0);
    match spec_parse_samples(b, rest) {
        Err(_) => {},
        Ok(ss) => {
            let ty = match h.typ {
                Some(t) => t,
                None => MetricType::Untyped,
            };
            let name = family_name(h, ss);
            lemma_fold_dialects(f1, f2, ty, name, ss);
            let m1 = spec_assemble(f1, ty, name, ss);
            let m2 = spec_assemble(f2, ty, name, ss);
            assert forall|i: int| 0 <= i < m1.len() implies unit_free_metric(#[trigger] m1[i]) == unit_free_metric(
                m2[i],
            ) by {
                let a1 = assemble::spec_fold(f1, ty, name, ss);
                let a2 = assemble::spec_fold(f2, ty, name, ss);
                if assemble::is_grouped(ty) {
                    assert(unit_free_acc(a1[i]) == unit_free_acc(a2[i]));
                }
            }
        },
    }
}

} // verus!
