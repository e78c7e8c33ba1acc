//! The metadata lines that open a family: `# TYPE`, `# HELP` and `# UNIT`.

use vstd::prelude::*;
use vstd::string::*;
use vstd::utf8::*;

use std::borrow::Cow;

use super::lex::{
    at_boundary, bare_token, cow_bytes, eq_ignore_case, eq_ignore_case_at, exec_scan_until,
    has_backslash, lemma_scan_until_boundary, lemma_after_ascii, metric_name, scan_until,
    skip_spaces, skip_spaces_at, spec_bare, spec_metric_name, unescape, unescape_range, sub_str,
    Stop, lemma_unescape_plain, lemma_has_backslash_push,
};
use crate::borrowed::{kept, lemma_kept_from, opt_kept};
use crate::owned::MetricType;

verus! {

// ---------------------------------------------------------------------------
// Type keywords
// ---------------------------------------------------------------------------

pub open spec fn lit_counter() -> Seq<u8> { seq![0x63u8, 0x6f, 0x75, 0x6e, 0x74, 0x65, 0x72] }
pub open spec fn lit_gauge() -> Seq<u8> { seq![0x67u8, 0x61, 0x75, 0x67, 0x65] }
pub open spec fn lit_histogram() -> Seq<u8> { seq![0x68u8, 0x69, 0x73, 0x74, 0x6f, 0x67, 0x72, 0x61, 0x6d] }
pub open spec fn lit_gaugehistogram() -> Seq<u8> {
    seq![0x67u8, 0x61, 0x75, 0x67, 0x65, 0x68, 0x69, 0x73, 0x74, 0x6f, 0x67, 0x72, 0x61, 0x6d]
}
pub open spec fn lit_summary() -> Seq<u8> { seq![0x73u8, 0x75, 0x6d, 0x6d, 0x61, 0x72, 0x79] }
pub open spec fn lit_stateset() -> Seq<u8> { seq![0x73u8, 0x74, 0x61, 0x74, 0x65, 0x73, 0x65, 0x74] }
pub open spec fn lit_info() -> Seq<u8> { seq![0x69u8, 0x6e, 0x66, 0x6f] }

/// The family type a `# TYPE` keyword names, compared without regard to
/// ASCII case; `unknown`, `untyped` and anything unrecognized are untyped.
pub open spec fn spec_classify_type(t: Seq<u8>) -> MetricType {
    if eq_ignore_case(t, lit_counter()) {
        MetricType::Counter
    } else if eq_ignore_case(t, lit_gauge()) {
        MetricType::Gauge
    } else if eq_ignore_case(t, lit_histogram()) {
        MetricType::Histogram
    } else if eq_ignore_case(t, lit_gaugehistogram()) {
        MetricType::GaugeHistogram
    } else if eq_ignore_case(t, lit_summary()) {
        MetricType::Summary
    } else if eq_ignore_case(t, lit_stateset()) {
        MetricType::StateSet
    } else if eq_ignore_case(t, lit_info()) {
        MetricType::Info
    } else {
        MetricType::Untyped
    }
}

/// Classify the type keyword `b[i..j]`.
pub fn classify_type(b: &[u8], i: usize, j: usize) -> (r: MetricType)
    requires
        i <= j <= b@.len(),
    ensures
        r == spec_classify_type(b@.subrange(i as int, j as int)),
{
    let counter: [u8; 7] = [0x63, 0x6f, 0x75, 0x6e, 0x74, 0x65, 0x72];
    let gauge: [u8; 5] = [0x67, 0x61, 0x75, 0x67, 0x65];
    let histogram: [u8; 9] = [0x68, 0x69, 0x73, 0x74, 0x6f, 0x67, 0x72, 0x61, 0x6d];
    let gaugehistogram: [u8; 14] = [
        0x67, 0x61, 0x75, 0x67, 0x65, 0x68, 0x69, 0x73, 0x74, 0x6f, 0x67, 0x72, 0x61, 0x6d,
    ];
    let summary: [u8; 7] = [0x73, 0x75, 0x6d, 0x6d, 0x61, 0x72, 0x79];
    let stateset: [u8; 8] = [0x73, 0x74, 0x61, 0x74, 0x65, 0x73, 0x65, 0x74];
    let info: [u8; 4] = [0x69, 0x6e, 0x66, 0x6f];
    assert(counter@ =~= lit_counter());
    assert(gauge@ =~= lit_gauge());
    assert(histogram@ =~= lit_histogram());
    assert(gaugehistogram@ =~= lit_gaugehistogram());
    assert(summary@ =~= lit_summary());
    assert(stateset@ =~= lit_stateset());
    assert(info@ =~= lit_info());
    if eq_ignore_case_at(b, i, j, counter.as_slice()) {
        MetricType::Counter
    } else if eq_ignore_case_at(b, i, j, gauge.as_slice()) {
        MetricType::Gauge
    } else if eq_ignore_case_at(b, i, j, histogram.as_slice()) {
        MetricType::Histogram
    } else if eq_ignore_case_at(b, i, j, gaugehistogram.as_slice()) {
        MetricType::GaugeHistogram
    } else if eq_ignore_case_at(b, i, j, summary.as_slice()) {
        MetricType::Summary
    } else if eq_ignore_case_at(b, i, j, stateset.as_slice()) {
        MetricType::StateSet
    } else if eq_ignore_case_at(b, i, j, info.as_slice()) {
        MetricType::Info
    } else {
        MetricType::Untyped
    }
}

// ---------------------------------------------------------------------------
// Descriptor lines
// ---------------------------------------------------------------------------

pub open spec fn lit_type() -> Seq<u8> { seq![0x54u8, 0x59, 0x50, 0x45] }
pub open spec fn lit_help() -> Seq<u8> { seq![0x48u8, 0x45, 0x4c, 0x50] }
pub open spec fn lit_unit() -> Seq<u8> { seq![0x55u8, 0x4e, 0x49, 0x54] }

/// `s[i..]` starts with `t`.
pub open spec fn has_tag(s: Seq<u8>, i: int, t: Seq<u8>) -> bool {
    0 <= i && i + t.len() <= s.len() && s.subrange(i, i + t.len()) == t
}

pub enum SpecDescKind {
    Type(MetricType),
    Help(Seq<u8>),
    Unit(Seq<u8>),
}

pub struct SpecDesc {
    pub name: Seq<u8>,
    pub kind: SpecDescKind,
}

/// `TYPE <name> <keyword>` from `c`.
pub open spec fn spec_type_line(s: Seq<u8>, c: int) -> Option<(SpecDesc, int)> {
    if has_tag(s, c, lit_type()) {
        let d = c + 4;
        let e = skip_spaces(s, d);
        if e > d {
            match spec_metric_name(s, e) {
                Some((n, f)) => {
                    let g = skip_spaces(s, f);
                    if g > f {
                        match spec_bare(s, g, Stop::SpaceOrEol) {
                            Some((t, h)) => Some(
                                (SpecDesc { name: n, kind: SpecDescKind::Type(spec_classify_type(t)) }, h),
                            ),
                            None => None,
                        }
                    } else {
                        None
                    }
                },
                None => None,
            }
        } else {
            None
        }
    } else {
        None
    }
}

/// `<tag> <name> <text>` from `c`, for `HELP` and `UNIT`: the name, the
/// unescaped text, and the end of the text.
pub open spec fn spec_text_line(s: Seq<u8>, c: int, tag: Seq<u8>) -> Option<(Seq<u8>, Seq<u8>, int)> {
    if has_tag(s, c, tag) {
        let d = c + 4;
        let e = skip_spaces(s, d);
        if e > d {
            match spec_metric_name(s, e) {
                Some((n, f)) => {
                    let g = skip_spaces(s, f);
                    let h = scan_until(s, g, Stop::LineEnd);
                    Some((n, unescape(s.subrange(g, h)), h))
                },
                None => None,
            }
        } else {
            None
        }
    } else {
        None
    }
}

/// The descriptor body after `# `: a `TYPE`, `HELP` or `UNIT` line.
pub open spec fn spec_desc_body(s: Seq<u8>, c: int) -> Option<(SpecDesc, int)> {
    match spec_type_line(s, c) {
        Some(r) => Some(r),
        None => match spec_text_line(s, c, lit_help()) {
            Some((n, v, h)) => Some((SpecDesc { name: n, kind: SpecDescKind::Help(v) }, h)),
            None => match spec_text_line(s, c, lit_unit()) {
                Some((n, v, h)) => Some((SpecDesc { name: n, kind: SpecDescKind::Unit(v) }, h)),
                None => None,
            },
        },
    }
}

/// Past an optional line ending (`\n` or `\r\n`) at `k`.
pub open spec fn past_line_ending(s: Seq<u8>, k: int) -> int {
    if 0 <= k < s.len() && s[k] == 0x0a {
        k + 1
    } else if 0 <= k && k + 1 < s.len() && s[k] == 0x0d && s[k + 1] == 0x0a {
        k + 2
    } else {
        k
    }
}

/// One descriptor line: optional indentation, `#`, at least one blank, a
/// `TYPE`/`HELP`/`UNIT` body, trailing blanks and the line ending.
pub open spec fn spec_descriptor_line(s: Seq<u8>, i: int) -> Option<(SpecDesc, int)> {
    let a = skip_spaces(s, i);
    if 0 <= a < s.len() && s[a] == 0x23 {
        let c = skip_spaces(s, a + 1);
        if c > a + 1 {
            match spec_desc_body(s, c) {
                Some((d, h)) => Some((d, past_line_ending(s, skip_spaces(s, h)))),
                None => None,
            }
        } else {
            None
        }
    } else {
        None
    }
}

pub enum DescKind<'a> {
    Type(MetricType),
    Help(Cow<'a, str>),
    Unit(Cow<'a, str>),
}

pub struct Descriptor<'a> {
    pub name: Cow<'a, str>,
    pub kind: DescKind<'a>,
}

impl<'a> Descriptor<'a> {
    /// String by string, the name and any help or unit text are kept from
    /// `src` (see [`kept`]).
    pub open spec fn kept(&self, src: Seq<u8>) -> bool {
        &&& kept(self.name, src)
        &&& match self.kind {
            DescKind::Help(h) => kept(h, src),
            DescKind::Unit(u) => kept(u, src),
            _ => true,
        }
    }

    pub open spec fn view(&self) -> SpecDesc {
        SpecDesc {
            name: cow_bytes(self.name),
            kind: match self.kind {
                DescKind::Type(t) => SpecDescKind::Type(t),
                DescKind::Help(h) => SpecDescKind::Help(cow_bytes(h)),
                DescKind::Unit(u) => SpecDescKind::Unit(cow_bytes(u)),
            },
        }
    }
}

/// `maybe_unescape`: borrow `text[a..e]` unchanged when it has no backslash;
/// otherwise unescape it into a fresh string.
pub fn maybe_unescape<'a>(text: &'a str, a: usize, e: usize) -> (r: Cow<'a, str>)
    requires
        a <= e <= text.spec_bytes().len(),
        at_boundary(text.spec_bytes(), a as int),
        at_boundary(text.spec_bytes(), e as int),
    ensures
        cow_bytes(r) == unescape(text.spec_bytes().subrange(a as int, e as int)),
        r is Owned <==> has_backslash(text.spec_bytes().subrange(a as int, e as int)),
        kept(r, text.spec_bytes()),
{
    let b = text.as_bytes();
    let ghost s = b@;
    let mut k = a;
    assert(s.subrange(a as int, a as int) =~= Seq::<u8>::empty());
    while k < e
        invariant
            b@ == s,
            s == text.spec_bytes(),
            a <= k <= e <= s.len(),
            at_boundary(s, a as int),
            at_boundary(s, e as int),
            !has_backslash(s.subrange(a as int, k as int)),
        decreases e - k,
    {
        proof {
            lemma_has_backslash_push(s.subrange(a as int, k as int), s[k as int]);
            assert(s.subrange(a as int, k + 1) =~= s.subrange(a as int, k as int).push(s[k as int]));
        }
        if b[k] == 0x5c {
            proof {
                assert(s.subrange(a as int, e as int)[k - a] == 0x5c);
            }
            let r = Cow::Owned(unescape_range(text, a, e));
            proof { lemma_kept_from(r, s, a as int, e as int); }
            return r;
        }
        k = k + 1;
    }
    proof { lemma_unescape_plain(s.subrange(a as int, e as int)); }
    Cow::Borrowed(sub_str(text, a, e))
}

fn tag_at(b: &[u8], i: usize, t: &[u8]) -> (r: bool)
    requires
        i <= b@.len(),
    ensures
        r == has_tag(b@, i as int, t@),
{
    let blen = b.len();
    if t.len() > blen - i {
        return false;
    }
    let mut k: usize = 0;
    while k < t.len()
        invariant
            blen == b@.len(),
            i + t@.len() <= b@.len(),
            k <= t@.len(),
            forall|m: int| 0 <= m < k ==> b@[i + m] == t@[m],
        decreases t@.len() - k,
    {
        assert(i + k < b@.len());
        if b[i + k] != t[k] {
            assert(b@.subrange(i as int, i + t@.len())[k as int] != t@[k as int]);
            return false;
        }
        k = k + 1;
    }
    assert(b@.subrange(i as int, i + t@.len()) =~= t@);
    true
}

/// The descriptor body at `c`.
fn desc_body<'a>(text: &'a str, b: &[u8], c: usize) -> (r: Option<(Descriptor<'a>, usize)>)
    requires
        b@ == text.spec_bytes(),
        c <= b@.len(),
        at_boundary(b@, c as int),
    ensures
        match (r, spec_desc_body(b@, c as int)) {
            (Some((d, n)), Some((sd, sn))) => d.view() == sd && n == sn && c < n <= b@.len()
                && at_boundary(b@, n as int),
            (None, None) => true,
            _ => false,
        },
        r is Some ==> r->Some_0.0.kept(b@),
{
    let type_tag: [u8; 4] = [0x54, 0x59, 0x50, 0x45];
    let help_tag: [u8; 4] = [0x48, 0x45, 0x4c, 0x50];
    let unit_tag: [u8; 4] = [0x55, 0x4e, 0x49, 0x54];
    assert(type_tag@ =~= lit_type());
    assert(help_tag@ =~= lit_help());
    assert(unit_tag@ =~= lit_unit());
    proof { encode_utf8_valid_utf8(text@); }
    let is_type = tag_at(b, c, type_tag.as_slice());
    let is_help = tag_at(b, c, help_tag.as_slice());
    let is_unit = tag_at(b, c, unit_tag.as_slice());
    if !is_type && !is_help && !is_unit {
        return None;
    }
    let blen = b.len();
    assert(c + 4 <= blen);
    let d = c + 4;
    proof {
        assert(b@.subrange(c as int, c + 4)[3] == b@[c + 3]);
        lemma_after_ascii(b@, c + 3);
    }
    let e = skip_spaces_at(text, b, d);
    if e <= d {
        return None;
    }
    let (name, f) = match metric_name(text, b, e) {
        Some(r) => r,
        None => return None,
    };
    let g = skip_spaces_at(text, b, f);
    if is_type {
        if g <= f {
            return None;
        }
        match bare_token(text, b, g, Stop::SpaceOrEol) {
            Some((_, h)) => {
                let t = classify_type(b, g, h);
                Some((Descriptor { name, kind: DescKind::Type(t) }, h))
            },
            None => None,
        }
    } else {
        let h = exec_scan_until(b, g, Stop::LineEnd);
        proof { lemma_scan_until_boundary(b@, g as int, Stop::LineEnd); }
        let v = maybe_unescape(text, g, h);
        proof {
        }
        if is_help {
            Some((Descriptor { name, kind: DescKind::Help(v) }, h))
        } else {
            Some((Descriptor { name, kind: DescKind::Unit(v) }, h))
        }
    }
}

/// Parse one descriptor line starting at `i`.
pub fn descriptor_line<'a>(text: &'a str, b: &[u8], i: usize) -> (r: Option<(Descriptor<'a>, usize)>)
    requires
        b@ == text.spec_bytes(),
        i <= b@.len(),
        at_boundary(b@, i as int),
    ensures
        match (r, spec_descriptor_line(b@, i as int)) {
            (Some((d, n)), Some((sd, sn))) => d.view() == sd && n == sn && i < n <= b@.len()
                && at_boundary(b@, n as int),
            (None, None) => true,
            _ => false,
        },
        r is Some ==> r->Some_0.0.kept(b@),
{
    proof { encode_utf8_valid_utf8(text@); }
    let a = skip_spaces_at(text, b, i);
    if a >= b.len() || b[a] != 0x23 {
        return None;
    }
    proof { lemma_after_ascii(b@, a as int); }
    let c = skip_spaces_at(text, b, a + 1);
    if c <= a + 1 {
        return None;
    }
    match desc_body(text, b, c) {
        Some((d, h)) => {
            let k = skip_spaces_at(text, b, h);
            let n = if k < b.len() && b[k] == 0x0a {
                proof { lemma_after_ascii(b@, k as int); }
                k + 1
            } else if k < b.len() && b.len() - k > 1 && b[k] == 0x0d && b[k + 1] == 0x0a {
                proof { lemma_after_ascii(b@, k + 1); }
                k + 2
            } else {
                k
            };
            Some((d, n))
        },
        None => None,
    }
}

// ---------------------------------------------------------------------------
// The header of a family
// ---------------------------------------------------------------------------

pub struct SpecHeader {
    pub name: Option<Seq<u8>>,
    pub help: Option<Seq<u8>>,
    pub unit: Option<Seq<u8>>,
    pub typ: Option<MetricType>,
}

pub open spec fn empty_header() -> SpecHeader {
    SpecHeader { name: None, help: None, unit: None, typ: None }
}

/// What one descriptor line says.
pub open spec fn header_of(d: SpecDesc) -> SpecHeader {
    SpecHeader {
        name: Some(d.name),
        help: match d.kind {
            SpecDescKind::Help(h) => Some(h),
            _ => None,
        },
        unit: match d.kind {
            SpecDescKind::Unit(u) => Some(u),
            _ => None,
        },
        typ: match d.kind {
            SpecDescKind::Type(t) => Some(t),
            _ => None,
        },
    }
}

/// `a` followed by `b`: the name comes from the first line that gives one;
/// the type, help and unit from the last.
pub open spec fn combine(a: SpecHeader, b: SpecHeader) -> SpecHeader {
    SpecHeader {
        name: if a.name is Some { a.name } else { b.name },
        help: if b.help is Some { b.help } else { a.help },
        unit: if b.unit is Some { b.unit } else { a.unit },
        typ: if b.typ is Some { b.typ } else { a.typ },
    }
}

/// The header given by the run of descriptor lines starting at `i`, and the
/// position of the first line that is not one.
pub open spec fn spec_parse_header(s: Seq<u8>, i: int) -> (SpecHeader, int)
    decreases s.len() - i,
{
    match spec_descriptor_line(s, i) {
        Some((d, j)) => if i < j <= s.len() {
            let (h, k) = spec_parse_header(s, j);
            (combine(header_of(d), h), k)
        } else {
            (empty_header(), i)
        },
        None => (empty_header(), i),
    }
}

/// A type a `# TYPE` line can name: every kind but the native and hybrid
/// histograms, which only the protobuf format carries.
pub open spec fn is_text_type(t: MetricType) -> bool {
    !(t is NativeHistogram) && !(t is HybridHistogram)
}

/// Every type a header gathers is one a `# TYPE` line can name.
pub proof fn lemma_header_text_type(s: Seq<u8>, i: int)
    ensures
        spec_parse_header(s, i).0.typ matches Some(t) ==> is_text_type(t),
    decreases s.len() - i,
{
    match spec_descriptor_line(s, i) {
        Some((d, j)) => if i < j <= s.len() {
            lemma_header_text_type(s, j);
        },
        None => {},
    }
}

/// The parsed metadata header of a single metric family. Every field is
/// optional: a family block may carry no descriptor lines at all.
pub struct FamilyHeader<'a> {
    /// Family name, taken from the first descriptor line seen.
    pub name: Option<Cow<'a, str>>,
    pub help: Option<Cow<'a, str>>,
    pub unit: Option<Cow<'a, str>>,
    /// `None` when no `# TYPE` line was present.
    pub typ: Option<MetricType>,
}

pub open spec fn opt_cow_bytes(c: Option<Cow<'_, str>>) -> Option<Seq<u8>> {
    match c {
        Some(c) => Some(cow_bytes(c)),
        None => None,
    }
}

impl<'a> FamilyHeader<'a> {
    pub open spec fn kept(&self, src: Seq<u8>) -> bool {
        opt_kept(self.name, src) && opt_kept(self.help, src) && opt_kept(self.unit, src)
    }

    pub open spec fn view(&self) -> SpecHeader {
        SpecHeader {
            name: opt_cow_bytes(self.name),
            help: opt_cow_bytes(self.help),
            unit: opt_cow_bytes(self.unit),
            typ: self.typ,
        }
    }
}

proof fn lemma_combine_assoc(a: SpecHeader, b: SpecHeader, c: SpecHeader)
    ensures
        combine(a, combine(b, c)) == combine(combine(a, b), c),
{
}

/// Parse the leading `# TYPE` / `# HELP` / `# UNIT` lines of a family block
/// starting at `i`. Returns the header and the position of the first line
/// that is not a descriptor (the samples).
pub fn parse_header<'a>(text: &'a str, b: &[u8], i: usize) -> (r: (FamilyHeader<'a>, usize))
    requires
        b@ == text.spec_bytes(),
        i <= b@.len(),
        at_boundary(b@, i as int),
    ensures
        (r.0.view(), r.1 as int) == spec_parse_header(b@, i as int),
        i <= r.1 <= b@.len(),
        at_boundary(b@, r.1 as int),
        r.0.kept(b@),
{
    let mut header = FamilyHeader { name: None, help: None, unit: None, typ: None };
    let mut j = i;
    assert(combine(empty_header(), spec_parse_header(b@, i as int).0) == spec_parse_header(b@, i as int).0);
    loop
        invariant
            b@ == text.spec_bytes(),
            i <= j <= b@.len(),
            at_boundary(b@, j as int),
            spec_parse_header(b@, i as int) == (
                combine(header.view(), spec_parse_header(b@, j as int).0),
                spec_parse_header(b@, j as int).1,
            ),
            header.kept(b@),
        decreases b@.len() - j,
    {
        match descriptor_line(text, b, j) {
            Some((d, n)) => {
                let ghost hv = header.view();
                let ghost dv = d.view();
                proof {
                    lemma_combine_assoc(hv, header_of(dv), spec_parse_header(b@, n as int).0);
                }
                if header.name.is_none() {
                    header.name = Some(d.name);
                }
                match d.kind {
                    DescKind::Type(t) => header.typ = Some(t),
                    DescKind::Help(h) => header.help = Some(h),
                    DescKind::Unit(u) => header.unit = Some(u),
                }
                assert(header.view() == combine(hv, header_of(dv)));
                j = n;
            },
            None => {
                assert(combine(header.view(), empty_header()) == header.view());
                return (header, j);
            },
        }
    }
}

} // verus!
