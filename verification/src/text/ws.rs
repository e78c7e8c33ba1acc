//! Unicode whitespace, as `str::trim_start` / `str::trim` strip it, and the
//! `# EOF` marker.
//!
//! A character is whitespace when it has the Unicode `White_Space` property:
//! U+0009..U+000D, U+0020, U+0085, U+00A0, U+1680, U+2000..U+200A, U+2028,
//! U+2029, U+202F, U+205F and U+3000. On UTF-8 bytes that starts at a
//! character boundary, these are the byte sequences below.

use vstd::prelude::*;
use vstd::string::*;
use vstd::utf8::*;

use super::lex::{at_boundary, lemma_after_ascii, lemma_at_boundary_is_char_boundary};

verus! {

/// The length of the whitespace character at `i`, or 0 when there is none.
pub open spec fn ws_len(s: Seq<u8>, i: int) -> int {
    if !(0 <= i < s.len()) {
        0
    } else if (0x09 <= s[i] <= 0x0d) || s[i] == 0x20 {
        1
    } else if s[i] == 0xc2 && i + 1 < s.len() && (s[i + 1] == 0x85 || s[i + 1] == 0xa0) {
        2
    } else if i + 2 < s.len() && ((s[i] == 0xe1 && s[i + 1] == 0x9a && s[i + 2] == 0x80) || (s[i]
        == 0xe2 && s[i + 1] == 0x80 && ((0x80 <= s[i + 2] <= 0x8a) || s[i + 2] == 0xa8 || s[i + 2]
        == 0xa9 || s[i + 2] == 0xaf)) || (s[i] == 0xe2 && s[i + 1] == 0x81 && s[i + 2] == 0x9f) || (
    s[i] == 0xe3 && s[i + 1] == 0x80 && s[i + 2] == 0x80)) {
        3
    } else {
        0
    }
}

/// The end of the run of whitespace characters starting at `i`.
pub open spec fn skip_ws(s: Seq<u8>, i: int) -> int
    decreases s.len() - i,
{
    if 0 <= i < s.len() && ws_len(s, i) > 0 {
        skip_ws(s, i + ws_len(s, i))
    } else {
        i
    }
}

pub proof fn lemma_skip_ws_bounds(s: Seq<u8>, i: int)
    requires
        0 <= i <= s.len(),
    ensures
        i <= skip_ws(s, i) <= s.len(),
    decreases s.len() - i,
{
    if i < s.len() && ws_len(s, i) > 0 {
        lemma_skip_ws_bounds(s, i + ws_len(s, i));
    }
}

fn exec_ws_len(b: &[u8], i: usize) -> (r: usize)
    requires
        i <= b@.len(),
    ensures
        r == ws_len(b@, i as int),
{
    let n = b.len();
    if i >= n {
        return 0;
    }
    let c = b[i];
    if (0x09 <= c && c <= 0x0d) || c == 0x20 {
        return 1;
    }
    if c == 0xc2 && n - i > 1 && (b[i + 1] == 0x85 || b[i + 1] == 0xa0) {
        return 2;
    }
    if n - i > 2 {
        let c1 = b[i + 1];
        let c2 = b[i + 2];
        if (c == 0xe1 && c1 == 0x9a && c2 == 0x80) || (c == 0xe2 && c1 == 0x80 && ((0x80 <= c2
            && c2 <= 0x8a) || c2 == 0xa8 || c2 == 0xa9 || c2 == 0xaf)) || (c == 0xe2 && c1 == 0x81
            && c2 == 0x9f) || (c == 0xe3 && c1 == 0x80 && c2 == 0x80) {
            return 3;
        }
    }
    0
}

/// `trim_start`: skip whitespace characters from `i`.
pub fn exec_skip_ws(b: &[u8], i: usize) -> (r: usize)
    requires
        i <= b@.len(),
    ensures
        r == skip_ws(b@, i as int),
        i <= r <= b@.len(),
{
    proof { lemma_skip_ws_bounds(b@, i as int); }
    let n = b.len();
    let mut j = i;
    loop
        invariant
            n == b@.len(),
            i <= j <= b@.len(),
            skip_ws(b@, i as int) == skip_ws(b@, j as int),
        decreases b@.len() - j,
    {
        let w = exec_ws_len(b, j);
        if w == 0 {
            return j;
        }
        assert(j + w <= n);
        j = j + w;
    }
}

pub open spec fn lit_eof() -> Seq<u8> {
    seq![0x45u8, 0x4f, 0x46]
}

/// `s[a..e].trim() == "EOF"`: `EOF` with only whitespace around it.
pub open spec fn is_eof_marker(s: Seq<u8>, a: int, e: int) -> bool {
    let p = skip_ws(s, a);
    p + 3 <= e && s.subrange(p, p + 3) == lit_eof() && skip_ws(s, p + 3) == e
}

/// Whether the line `b` (from `a`) is `EOF` with only whitespace around it.
pub fn eof_marker(b: &[u8], a: usize) -> (r: bool)
    requires
        a <= b@.len(),
    ensures
        r == is_eof_marker(b@, a as int, b@.len() as int),
{
    let p = exec_skip_ws(b, a);
    if b.len() - p < 3 {
        return false;
    }
    if !(b[p] == 0x45 && b[p + 1] == 0x4f && b[p + 2] == 0x46) {
        assert(b@.subrange(p as int, p + 3) != lit_eof()) by {
            if b@.subrange(p as int, p + 3) == lit_eof() {
                assert(b@.subrange(p as int, p + 3)[0] == b@[p as int]);
                assert(b@.subrange(p as int, p + 3)[1] == b@[p + 1]);
                assert(b@.subrange(p as int, p + 3)[2] == b@[p + 2]);
            }
        }
        return false;
    }
    assert(b@.subrange(p as int, p + 3) =~= lit_eof());
    exec_skip_ws(b, p + 3) == b.len()
}

/// In valid UTF-8, the byte after a whitespace character starts a character
/// (or is the end).
pub proof fn lemma_after_ws(b: Seq<u8>, i: int)
    requires
        valid_utf8(b),
        0 <= i < b.len(),
        at_boundary(b, i),
        ws_len(b, i) > 0,
    ensures
        at_boundary(b, i + ws_len(b, i)),
{
    let w = ws_len(b, i);
    if w == 1 {
        lemma_after_ascii(b, i);
    } else if i + w < b.len() {
        lemma_at_boundary_is_char_boundary(b, i);
        valid_utf8_split(b, i);
        let suffix = b.subrange(i, b.len() as int);
        assert(suffix[0] == b[i]);
        assert(valid_first_scalar(suffix));
        assert(length_of_first_scalar(suffix) == w);
        let rest = pop_first_scalar(suffix);
        assert(rest =~= b.subrange(i + w, b.len() as int));
        assert(rest[0] == b[i + w]);
        assert(valid_utf8(rest));
        assert(valid_first_scalar(rest));
    }
}

/// Skipping whitespace from a character boundary ends at one.
pub proof fn lemma_skip_ws_boundary(b: Seq<u8>, i: int)
    requires
        valid_utf8(b),
        0 <= i <= b.len(),
        at_boundary(b, i),
    ensures
        at_boundary(b, skip_ws(b, i)),
    decreases b.len() - i,
{
    if i < b.len() && ws_len(b, i) > 0 {
        lemma_after_ws(b, i);
        lemma_skip_ws_boundary(b, i + ws_len(b, i));
    }
}

} // verus!
