//! Byte-level lexing of the text exposition format: whitespace, bare
//! tokens, quoted strings with escapes, and numeric tokens.
//!
//! Everything here works on the UTF-8 bytes of a `&str`. Every delimiter the
//! grammar knows is ASCII, so the pieces cut out of the input always start and
//! end on character boundaries and can be handed back as `&str` slices.

use vstd::prelude::*;
use vstd::utf8::*;
use vstd::string::*;

use std::borrow::Cow;

use crate::borrowed::{kept, lemma_kept_from};

verus! {

broadcast use vstd::utf8::group_utf8_lib;

// ---------------------------------------------------------------------------
// Character classes
// ---------------------------------------------------------------------------

/// A blank: space or tab (what `space0` / `space1` accept).
pub open spec fn is_space(b: u8) -> bool {
    b == 0x20 || b == 0x09
}

/// A blank or a line ending byte.
pub open spec fn is_space_or_eol(b: u8) -> bool {
    is_space(b) || b == 0x0d || b == 0x0a
}

/// The kinds of byte that end a bare token.
pub enum Stop {
    /// Blank or line end: a type keyword or a numeric token.
    SpaceOrEol,
    /// Blank, line end or `{`: a bare metric name.
    NameEnd,
    /// Blank, line end or any of `= , { } "`: a bare label name.
    LabelNameEnd,
    /// `\r` or `\n`: the rest of a line.
    LineEnd,
    /// `\n`: a whole line.
    Newline,
}

pub open spec fn stops(k: Stop, b: u8) -> bool {
    match k {
        Stop::SpaceOrEol => is_space_or_eol(b),
        Stop::NameEnd => is_space_or_eol(b) || b == 0x7b,
        Stop::LabelNameEnd => is_space_or_eol(b) || b == 0x3d || b == 0x2c || b == 0x7b
            || b == 0x7d || b == 0x22,
        Stop::LineEnd => b == 0x0d || b == 0x0a,
        Stop::Newline => b == 0x0a,
    }
}

fn exec_stops(k: &Stop, b: u8) -> (r: bool)
    ensures
        r == stops(*k, b),
{
    match k {
        Stop::SpaceOrEol => b == 0x20 || b == 0x09 || b == 0x0d || b == 0x0a,
        Stop::NameEnd => b == 0x20 || b == 0x09 || b == 0x0d || b == 0x0a || b == 0x7b,
        Stop::LabelNameEnd => b == 0x20 || b == 0x09 || b == 0x0d || b == 0x0a || b == 0x3d
            || b == 0x2c || b == 0x7b || b == 0x7d || b == 0x22,
        Stop::LineEnd => b == 0x0d || b == 0x0a,
        Stop::Newline => b == 0x0a,
    }
}

// ---------------------------------------------------------------------------
// Runs of bytes
// ---------------------------------------------------------------------------

/// The end of the run of blanks starting at `i`.
pub open spec fn skip_spaces(s: Seq<u8>, i: int) -> int
    decreases s.len() - i,
{
    if 0 <= i < s.len() && is_space(s[i]) {
        skip_spaces(s, i + 1)
    } else {
        i
    }
}

/// The first position at or after `i` whose byte stops a token of kind `k`
/// (or the end of `s`).
pub open spec fn scan_until(s: Seq<u8>, i: int, k: Stop) -> int
    decreases s.len() - i,
{
    if 0 <= i < s.len() && !stops(k, s[i]) {
        scan_until(s, i + 1, k)
    } else {
        i
    }
}

pub proof fn lemma_skip_spaces_bounds(s: Seq<u8>, i: int)
    requires
        0 <= i <= s.len(),
    ensures
        i <= skip_spaces(s, i) <= s.len(),
        forall|j: int| i <= j < skip_spaces(s, i) ==> is_space(#[trigger] s[j]),
        skip_spaces(s, i) < s.len() ==> !is_space(s[skip_spaces(s, i)]),
    decreases s.len() - i,
{
    if i < s.len() && is_space(s[i]) {
        lemma_skip_spaces_bounds(s, i + 1);
    }
}

pub proof fn lemma_scan_until_bounds(s: Seq<u8>, i: int, k: Stop)
    requires
        0 <= i <= s.len(),
    ensures
        i <= scan_until(s, i, k) <= s.len(),
        forall|j: int| i <= j < scan_until(s, i, k) ==> !stops(k, #[trigger] s[j]),
        scan_until(s, i, k) < s.len() ==> stops(k, s[scan_until(s, i, k)]),
    decreases s.len() - i,
{
    if i < s.len() && !stops(k, s[i]) {
        lemma_scan_until_bounds(s, i + 1, k);
    }
}

/// `space0`: skip blanks.
pub fn exec_skip_spaces(b: &[u8], i: usize) -> (r: usize)
    requires
        i <= b@.len(),
    ensures
        r == skip_spaces(b@, i as int),
        i <= r <= b@.len(),
{
    proof { lemma_skip_spaces_bounds(b@, i as int); }
    let mut j = i;
    while j < b.len() && (b[j] == 0x20 || b[j] == 0x09)
        invariant
            i <= j <= b@.len(),
            skip_spaces(b@, i as int) == skip_spaces(b@, j as int),
        decreases b@.len() - j,
    {
        j = j + 1;
    }
    j
}

/// `space0` from a character boundary ends on a character boundary.
pub fn skip_spaces_at(text: &str, b: &[u8], i: usize) -> (r: usize)
    requires
        b@ == text.spec_bytes(),
        i <= b@.len(),
        at_boundary(b@, i as int),
    ensures
        r == skip_spaces(b@, i as int),
        i <= r <= b@.len(),
        at_boundary(b@, r as int),
{
    proof {
        encode_utf8_valid_utf8(text@);
        lemma_skip_spaces_boundary(b@, i as int);
    }
    exec_skip_spaces(b, i)
}

/// Scan to the first byte that stops a token of kind `k`.
pub fn exec_scan_until(b: &[u8], i: usize, k: Stop) -> (r: usize)
    requires
        i <= b@.len(),
    ensures
        r == scan_until(b@, i as int, k),
        i <= r <= b@.len(),
{
    proof { lemma_scan_until_bounds(b@, i as int, k); }
    let mut j = i;
    while j < b.len() && !exec_stops(&k, b[j])
        invariant
            i <= j <= b@.len(),
            scan_until(b@, i as int, k) == scan_until(b@, j as int, k),
        decreases b@.len() - j,
    {
        j = j + 1;
    }
    j
}

// ---------------------------------------------------------------------------
// Substrings at ASCII boundaries
// ---------------------------------------------------------------------------

/// Position `i` of `b` starts a character or is the end.
pub open spec fn at_boundary(b: Seq<u8>, i: int) -> bool {
    i == 0 || i == b.len() || (0 <= i < b.len() && !is_continuation_byte(b[i]))
}

pub proof fn lemma_at_boundary_is_char_boundary(b: Seq<u8>, i: int)
    requires
        valid_utf8(b),
        0 <= i <= b.len(),
        at_boundary(b, i),
    ensures
        is_char_boundary(b, i),
{
    is_char_boundary_start_end_of_seq(b);
    if 0 < i < b.len() {
        is_char_boundary_iff_not_is_continuation_byte(b, i);
    }
}

/// The UTF-8 encoding of a sequence of chars distributes over concatenation.
pub proof fn lemma_encode_utf8_concat(a: Seq<char>, c: Seq<char>)
    ensures
        encode_utf8(a + c) == encode_utf8(a) + encode_utf8(c),
    decreases a.len(),
{
    if a.len() == 0 {
        assert(a + c =~= c);
    } else {
        lemma_encode_utf8_concat(a.drop_first(), c);
        assert((a + c).drop_first() =~= a.drop_first() + c);
        assert((a + c)[0] == a[0]);
        assert(encode_utf8(a + c) == encode_scalar(a[0] as u32) + encode_utf8(a.drop_first() + c));
    }
}

/// The piece `text[a..e]`, cut at byte offsets that are character boundaries.
pub fn sub_str<'a>(text: &'a str, a: usize, e: usize) -> (r: &'a str)
    requires
        a <= e <= text.spec_bytes().len(),
        at_boundary(text.spec_bytes(), a as int),
        at_boundary(text.spec_bytes(), e as int),
    ensures
        r.spec_bytes() == text.spec_bytes().subrange(a as int, e as int),
{
    let ghost b = text.spec_bytes();
    proof {
        encode_utf8_valid_utf8(text@);
        lemma_at_boundary_is_char_boundary(b, e as int);
    }
    let (left, _) = text.split_at(e);
    proof {
        assert(left.spec_bytes() =~= b.subrange(0, e as int));
        encode_utf8_valid_utf8(left@);
        lemma_at_boundary_is_char_boundary(left.spec_bytes(), a as int);
    }
    let (_, mid) = left.split_at(a);
    assert(mid.spec_bytes() =~= b.subrange(a as int, e as int));
    mid
}

/// In valid UTF-8, the byte after an ASCII byte starts a character (or is the
/// end).
pub proof fn lemma_after_ascii(b: Seq<u8>, i: int)
    requires
        valid_utf8(b),
        0 <= i < b.len(),
        b[i] < 0x80,
    ensures
        at_boundary(b, i + 1),
{
    if i + 1 < b.len() {
        lemma_at_boundary_is_char_boundary(b, i);
        valid_utf8_split(b, i);
        let suffix = b.subrange(i, b.len() as int);
        assert(suffix[0] == b[i]);
        assert(valid_first_scalar(suffix));
        assert(length_of_first_scalar(suffix) == 1);
        let rest = pop_first_scalar(suffix);
        assert(rest =~= b.subrange(i + 1, b.len() as int));
        assert(rest[0] == b[i + 1]);
        assert(valid_utf8(rest));
        assert(valid_first_scalar(rest));
    }
}

// ---------------------------------------------------------------------------
// Escapes and quoted strings
// ---------------------------------------------------------------------------

/// What an escape sequence `\c` stands for: `\n` is a newline; any other
/// escaped byte stands for itself (`\\`, `\"`, and leniently anything else).
pub open spec fn escaped(c: u8) -> u8 {
    if c == 0x6e { 0x0a } else { c }
}

/// Resolve the escape sequences of `s`. A lone trailing backslash is kept.
pub open spec fn unescape(s: Seq<u8>) -> Seq<u8>
    decreases s.len(),
{
    if s.len() == 0 {
        seq![]
    } else if s[0] != 0x5c {
        seq![s[0]] + unescape(s.drop_first())
    } else if s.len() == 1 {
        seq![0x5cu8]
    } else {
        seq![escaped(s[1])] + unescape(s.subrange(2, s.len() as int))
    }
}

pub open spec fn has_backslash(s: Seq<u8>) -> bool {
    exists|k: int| 0 <= k < s.len() && s[k] == 0x5c
}

pub proof fn lemma_has_backslash_push(x: Seq<u8>, c: u8)
    ensures
        has_backslash(x.push(c)) <==> has_backslash(x) || c == 0x5c,
{
    if has_backslash(x) {
        let k = choose|k: int| 0 <= k < x.len() && x[k] == 0x5c;
        assert(x.push(c)[k] == 0x5c);
    }
    if c == 0x5c {
        assert(x.push(c)[x.len() as int] == 0x5c);
    }
    if has_backslash(x.push(c)) {
        let k = choose|k: int| 0 <= k < x.push(c).len() && x.push(c)[k] == 0x5c;
        if k < x.len() {
            assert(x[k] == 0x5c);
        }
    }
}

/// No byte of `s` is a backslash: the text holds no escape.
pub open spec fn plain(s: Seq<u8>) -> bool {
    !has_backslash(s)
}

/// Without a backslash there is nothing to resolve.
pub proof fn lemma_unescape_plain(s: Seq<u8>)
    requires
        !has_backslash(s),
    ensures
        unescape(s) == s,
    decreases s.len(),
{
    if s.len() > 0 {
        assert(s[0] != 0x5c);
        let t = s.drop_first();
        assert(!has_backslash(t)) by {
            if has_backslash(t) {
                let k = choose|k: int| 0 <= k < t.len() && t[k] == 0x5c;
                assert(s[k + 1] == 0x5c);
            }
        }
        lemma_unescape_plain(t);
        assert(seq![s[0]] + t =~= s);
    }
}

/// A single ASCII char encodes as its own byte.
pub proof fn lemma_encode_ascii_char(c: char)
    requires
        (c as u32) < 0x80,
    ensures
        encode_utf8(seq![c]) == seq![(c as u32) as u8],
{
    let v = c as u32;
    assert(v < 0x80 ==> (v & 0x7f) as u8 == v as u8) by (bit_vector);
    assert(seq![c].drop_first() =~= Seq::<char>::empty());
    assert(encode_utf8(seq![c]) =~= encode_scalar(v) + encode_utf8(Seq::<char>::empty()));
}

proof fn lemma_literal_bytes()
    ensures
        "\\".spec_bytes() == seq![0x5cu8],
        "\n".spec_bytes() == seq![0x0au8],
{
    reveal_strlit("\\");
    reveal_strlit("\n");
    assert("\\"@ =~= seq!['\\']);
    assert("\n"@ =~= seq!['\n']);
    lemma_encode_ascii_char('\\');
    lemma_encode_ascii_char('\n');
}

/// `text[a..e]` with its escape sequences resolved, as a fresh string.
pub fn unescape_range(text: &str, a: usize, e: usize) -> (r: String)
    requires
        a <= e <= text.spec_bytes().len(),
        at_boundary(text.spec_bytes(), a as int),
        at_boundary(text.spec_bytes(), e as int),
    ensures
        encode_utf8(r@) == unescape(text.spec_bytes().subrange(a as int, e as int)),
{
    let ghost s = text.spec_bytes();
    let b = text.as_bytes();
    proof {
        encode_utf8_valid_utf8(text@);
        lemma_literal_bytes();
    }
    let mut out = String::new();
    let mut seg = a;
    let mut j = a;
    assert(s.subrange(seg as int, j as int) =~= Seq::<u8>::empty());
    assert(encode_utf8(out@) =~= Seq::<u8>::empty());
    while j < e
        invariant
            b@ == s,
            s == text.spec_bytes(),
            valid_utf8(s),
            a <= seg <= j <= e <= s.len(),
            at_boundary(s, seg as int),
            at_boundary(s, e as int),
            unescape(s.subrange(a as int, e as int)) == encode_utf8(out@) + s.subrange(
                seg as int,
                j as int,
            ) + unescape(s.subrange(j as int, e as int)),
            "\\".spec_bytes() == seq![0x5cu8],
            "\n".spec_bytes() == seq![0x0au8],
        decreases e - j,
    {
        let ghost old_out = out@;
        let ghost rest = s.subrange(j as int, e as int);
        assert(rest[0] == s[j as int]);
        if b[j] == 0x5c {
            let piece = sub_str(text, seg, j);
            out.append(piece);
            proof { lemma_encode_utf8_concat(old_out, piece@); }
            if j + 1 == e {
                out.append("\\");
                proof {
                    lemma_encode_utf8_concat(old_out + piece@, "\\"@);
                    assert(rest.len() == 1);
                }
                seg = e;
                j = e;
                assert(s.subrange(seg as int, j as int) =~= Seq::<u8>::empty());
                assert(unescape(s.subrange(j as int, e as int)) =~= Seq::<u8>::empty());
            } else if b[j + 1] == 0x6e {
                let ghost mid = encode_utf8(out@);
                out.append("\n");
                proof {
                    lemma_encode_utf8_concat(old_out + piece@, "\n"@);
                    assert(rest[1] == s[j + 1]);
                    assert(rest.subrange(2, rest.len() as int) =~= s.subrange(j + 2, e as int));
                    lemma_after_ascii(s, j + 1);
                }
                seg = j + 2;
                j = j + 2;
                assert(s.subrange(seg as int, j as int) =~= Seq::<u8>::empty());
            } else {
                proof {
                    assert(rest[1] == s[j + 1]);
                    assert(rest.subrange(2, rest.len() as int) =~= s.subrange(j + 2, e as int));
                    lemma_after_ascii(s, j as int);
                    assert(s.subrange(j + 1, j + 2) =~= seq![escaped(s[j + 1])]);
                }
                seg = j + 1;
                j = j + 2;
            }
        } else {
            proof {
                assert(rest.drop_first() =~= s.subrange(j + 1, e as int));
                assert(s.subrange(seg as int, j + 1) =~= s.subrange(seg as int, j as int) + seq![s[j as int]]);
            }
            j = j + 1;
        }
    }
    let piece = sub_str(text, seg, e);
    let ghost old_out = out@;
    out.append(piece);
    proof {
        lemma_encode_utf8_concat(old_out, piece@);
        assert(unescape(s.subrange(e as int, e as int)) =~= Seq::<u8>::empty());
    }
    out
}

/// The position of the `"` closing a quoted string whose body starts at `j`,
/// stepping over each backslash together with the byte after it.
pub open spec fn find_close(s: Seq<u8>, j: int) -> Option<int>
    decreases s.len() - j,
{
    if j < 0 || j >= s.len() {
        None
    } else if s[j] == 0x5c {
        if j + 1 >= s.len() {
            None
        } else {
            find_close(s, j + 2)
        }
    } else if s[j] == 0x22 {
        Some(j)
    } else {
        find_close(s, j + 1)
    }
}

pub proof fn lemma_find_close(s: Seq<u8>, j: int)
    requires
        0 <= j,
    ensures
        find_close(s, j) matches Some(c) ==> j <= c < s.len() && s[c] == 0x22,
    decreases s.len() - j,
{
    if 0 <= j < s.len() {
        if s[j] == 0x5c {
            if j + 1 < s.len() {
                lemma_find_close(s, j + 2);
            }
        } else if s[j] != 0x22 {
            lemma_find_close(s, j + 1);
        }
    }
}

/// A double-quoted string at `i`: its value with escapes resolved, and the
/// position after the closing quote.
pub open spec fn spec_quoted(s: Seq<u8>, i: int) -> Option<(Seq<u8>, int)> {
    if 0 <= i < s.len() && s[i] == 0x22 {
        match find_close(s, i + 1) {
            Some(c) => Some((unescape(s.subrange(i + 1, c)), c + 1)),
            None => None,
        }
    } else {
        None
    }
}

/// Parse a double-quoted string, resolving its escapes. Borrows the input
/// when there are no escapes; allocates only when one is present.
pub fn quoted_string<'a>(text: &'a str, b: &[u8], i: usize) -> (r: Option<(Cow<'a, str>, usize)>)
    requires
        b@ == text.spec_bytes(),
        i <= b@.len(),
    ensures
        match (r, spec_quoted(b@, i as int)) {
            (Some((v, n)), Some((sv, sn))) => cow_bytes(v) == sv && n == sn && i < n <= b@.len()
                && at_boundary(b@, n as int)
                && (v is Owned <==> has_backslash(b@.subrange(i + 1, sn - 1))),
            (None, None) => true,
            _ => false,
        },
        r is Some ==> kept(r->Some_0.0, b@),
{
    let ghost s = b@;
    proof { encode_utf8_valid_utf8(text@); }
    if i >= b.len() || b[i] != 0x22 {
        return None;
    }
    let mut has_escape = false;
    let mut j = i + 1;
    proof { lemma_find_close(s, (i + 1) as int); }
    while j < b.len()
        invariant
            b@ == s,
            s == text.spec_bytes(),
            valid_utf8(s),
            s[i as int] == 0x22,
            i < j <= s.len(),
            find_close(s, i + 1) == find_close(s, j as int),
            has_escape <==> has_backslash(s.subrange(i + 1, j as int)),
        decreases s.len() - j,
    {
        if b[j] == 0x5c {
            if j + 1 >= b.len() {
                return None;
            }
            proof {
                let x = s.subrange(i + 1, j as int);
                lemma_has_backslash_push(x, s[j as int]);
                lemma_has_backslash_push(x.push(s[j as int]), s[j + 1]);
                assert(s.subrange(i + 1, j + 2) =~= x.push(s[j as int]).push(s[j + 1]));
            }
            has_escape = true;
            j = j + 2;
        } else if b[j] == 0x22 {
            proof {
                lemma_after_ascii(s, i as int);
                let inner = s.subrange(i + 1, j as int);
                if !has_escape {
                    lemma_unescape_plain(inner);
                }
            }
            let v = if has_escape {
                Cow::Owned(unescape_range(text, i + 1, j))
            } else {
                Cow::Borrowed(sub_str(text, i + 1, j))
            };
            proof {
                lemma_after_ascii(s, j as int);
                lemma_kept_from(v, s, i + 1, j as int);
            }
            return Some((v, j + 1));
        } else {
            proof {
                lemma_has_backslash_push(s.subrange(i + 1, j as int), s[j as int]);
                assert(s.subrange(i + 1, j + 1) =~= s.subrange(i + 1, j as int).push(s[j as int]));
            }
            j = j + 1;
        }
    }
    None
}

pub proof fn lemma_skip_spaces_boundary(s: Seq<u8>, i: int)
    requires
        valid_utf8(s),
        0 <= i <= s.len(),
        at_boundary(s, i),
    ensures
        at_boundary(s, skip_spaces(s, i)),
{
    lemma_skip_spaces_bounds(s, i);
    let r = skip_spaces(s, i);
    if r > i {
        assert(is_space(s[r - 1]));
        lemma_after_ascii(s, r - 1);
    }
}

pub proof fn lemma_scan_until_boundary(s: Seq<u8>, i: int, k: Stop)
    requires
        0 <= i <= s.len(),
    ensures
        at_boundary(s, scan_until(s, i, k)),
{
    lemma_scan_until_bounds(s, i, k);
}

/// A bare run of bytes up to the first stop byte of kind `k`, at least one
/// byte long.
pub open spec fn spec_bare(s: Seq<u8>, i: int, k: Stop) -> Option<(Seq<u8>, int)> {
    let j = scan_until(s, i, k);
    if j > i {
        Some((s.subrange(i, j), j))
    } else {
        None
    }
}

/// `take_till1`: a non-empty bare token, borrowed from the input.
pub fn bare_token<'a>(text: &'a str, b: &[u8], i: usize, k: Stop) -> (r: Option<(&'a str, usize)>)
    requires
        b@ == text.spec_bytes(),
        i <= b@.len(),
        at_boundary(b@, i as int),
    ensures
        match (r, spec_bare(b@, i as int, k)) {
            (Some((v, n)), Some((sv, sn))) => v.spec_bytes() == sv && n == sn && i < n <= b@.len()
                && at_boundary(b@, n as int),
            (None, None) => true,
            _ => false,
        },
{
    let j = exec_scan_until(b, i, k);
    proof { lemma_scan_until_boundary(b@, i as int, k); }
    if j > i {
        Some((sub_str(text, i, j), j))
    } else {
        None
    }
}

/// A metric or label name: a double-quoted string, or a bare run of bytes up
/// to a blank, a line end or `{`.
pub open spec fn spec_metric_name(s: Seq<u8>, i: int) -> Option<(Seq<u8>, int)> {
    match spec_quoted(s, i) {
        Some(r) => Some(r),
        None => spec_bare(s, i, Stop::NameEnd),
    }
}

pub fn metric_name<'a>(text: &'a str, b: &[u8], i: usize) -> (r: Option<(Cow<'a, str>, usize)>)
    requires
        b@ == text.spec_bytes(),
        i <= b@.len(),
        at_boundary(b@, i as int),
    ensures
        match (r, spec_metric_name(b@, i as int)) {
            (Some((v, n)), Some((sv, sn))) => cow_bytes(v) == sv && n == sn && i < n <= b@.len()
                && at_boundary(b@, n as int),
            (None, None) => true,
            _ => false,
        },
        r is Some ==> kept(r->Some_0.0, b@),
{
    match quoted_string(text, b, i) {
        Some(r) => Some(r),
        None => match bare_token(text, b, i, Stop::NameEnd) {
            Some((v, n)) => Some((Cow::Borrowed(v), n)),
            None => None,
        },
    }
}

// ---------------------------------------------------------------------------
// Case-insensitive keywords
// ---------------------------------------------------------------------------

pub open spec fn ascii_lower(c: u8) -> u8 {
    if 0x41 <= c <= 0x5a {
        (c + 32) as u8
    } else {
        c
    }
}

/// `a` equals `lit` up to ASCII case.
pub open spec fn eq_ignore_case(a: Seq<u8>, lit: Seq<u8>) -> bool {
    a.len() == lit.len() && forall|k: int|
        0 <= k < a.len() ==> #[trigger] ascii_lower(a[k]) == ascii_lower(lit[k])
}

fn exec_ascii_lower(c: u8) -> (r: u8)
    ensures
        r == ascii_lower(c),
{
    if 0x41 <= c && c <= 0x5a {
        c + 32
    } else {
        c
    }
}

/// Whether `b[i..j]` equals `lit` up to ASCII case.
pub fn eq_ignore_case_at(b: &[u8], i: usize, j: usize, lit: &[u8]) -> (r: bool)
    requires
        i <= j <= b@.len(),
    ensures
        r == eq_ignore_case(b@.subrange(i as int, j as int), lit@),
{
    if j - i != lit.len() {
        return false;
    }
    let mut k: usize = 0;
    while k < lit.len()
        invariant
            i <= j <= b@.len(),
            j - i == lit@.len(),
            k <= lit@.len(),
            forall|m: int|
                0 <= m < k ==> #[trigger] ascii_lower(b@.subrange(i as int, j as int)[m])
                    == ascii_lower(lit@[m]),
        decreases lit@.len() - k,
    {
        if exec_ascii_lower(b[i + k]) != exec_ascii_lower(lit[k]) {
            assert(b@.subrange(i as int, j as int)[k as int] == b@[i + k]);
            return false;
        }
        k = k + 1;
    }
    true
}

/// The UTF-8 bytes of a string that may borrow from the input.
pub open spec fn cow_bytes(c: Cow<'_, str>) -> Seq<u8> {
    encode_utf8(c@)
}

/// The string a `Cow` holds.
pub fn cow_str<'b>(c: &'b Cow<'_, str>) -> (r: &'b str)
    ensures
        r.spec_bytes() == cow_bytes(*c),
{
    match c {
        Cow::Borrowed(s) => s,
        Cow::Owned(s) => s.as_str(),
    }
}

/// The bytes of the string a `Cow` holds.
pub fn cow_as_bytes<'b>(c: &'b Cow<'_, str>) -> (r: &'b [u8])
    ensures
        r@ == cow_bytes(*c),
{
    cow_str(c).as_bytes()
}

/// Copy the string a `Cow` holds out, detached from its buffer.
pub fn cow_into_owned(c: Cow<'_, str>) -> (r: String)
    ensures
        encode_utf8(r@) == cow_bytes(c),
{
    match c {
        Cow::Borrowed(s) => s.to_owned(),
        Cow::Owned(s) => s,
    }
}

} // verus!
