//! Framing of the length-delimited protobuf stream: each `MetricFamily`
//! message is preceded by a base-128 varint giving its byte length.

use vstd::prelude::*;

use crate::error::ParseError;
use crate::frame::{FrameStep, SpecStep};

verus! {

/// The outcome of decoding a varint from the front of a buffer.
pub enum Varint {
    Complete { value: u64, len: usize },
    /// Ran out of bytes mid-varint.
    Incomplete,
    /// More than 10 bytes without a terminator: not a valid u64 varint.
    Invalid,
}

/// The value contributed by byte `b` at position `i` of a varint.
pub open spec fn varint_part(b: u8, i: nat) -> u64 {
    ((b & 0x7f) as u64) << ((7 * i) as u64)
}

/// Decoding a varint from position `i` of `s`, given the bits `acc`
/// accumulated from the bytes before `i`.
pub open spec fn varint_from(s: Seq<u8>, i: nat, acc: u64) -> Varint
    decreases s.len() - i,
{
    if i >= s.len() {
        Varint::Incomplete
    } else if i == 10 {
        Varint::Invalid
    } else {
        let v = acc | varint_part(s[i as int], i);
        if s[i as int] & 0x80 == 0 {
            Varint::Complete { value: v, len: (i + 1) as usize }
        } else {
            varint_from(s, i + 1, v)
        }
    }
}

/// The varint at the front of `s`.
pub open spec fn spec_read_varint(s: Seq<u8>) -> Varint {
    varint_from(s, 0, 0)
}

/// The base-128 varint encoding of `n`: seven bits per byte, the lowest
/// group first, the high bit set on every byte but the last.
pub open spec fn varint_encoding(n: u64) -> Seq<u8>
    decreases n,
{
    if n < 128 {
        seq![n as u8]
    } else {
        seq![(n % 128 + 128) as u8] + varint_encoding(n / 128)
    }
}

/// Decoding from position `i`, with `acc` accumulated, bytes whose next
/// ones are the encoding of `m`: `m` lands `7 * i` bits up.
proof fn lemma_varint_decodes(s: Seq<u8>, i: nat, acc: u64, m: u64, rest: Seq<u8>)
    requires
        i <= 9,
        i <= s.len(),
        s.subrange(i as int, s.len() as int) == varint_encoding(m) + rest,
        (m << ((7 * i) as u64)) >> ((7 * i) as u64) == m,
    ensures
        varint_from(s, i, acc) == (Varint::Complete {
            value: acc | (m << ((7 * i) as u64)),
            len: (i + varint_encoding(m).len()) as usize,
        }),
    decreases m,
{
    let sh: u64 = (7 * i) as u64;
    let t = s.subrange(i as int, s.len() as int);
    assert(varint_encoding(m).len() > 0);
    assert(t.len() > 0);
    assert(s[i as int] == t[0]);
    if m < 128 {
        let b = m as u8;
        assert(t[0] == b);
        assert(b & 0x80 == 0 && ((b & 0x7f) as u64) == m) by (bit_vector)
            requires
                m < 128,
                b == m as u8,
        ;
    } else {
        let b = (m % 128 + 128) as u8;
        let q = m / 128;
        assert(t[0] == b);
        assert(sh <= 56) by (bit_vector)
            requires
                sh <= 63,
                m >= 128,
                (m << sh) >> sh == m,
        ;
        assert({
            &&& b & 0x80 != 0
            &&& ((b & 0x7f) as u64) << sh | (q << (sh + 7)) == m << sh
            &&& (q << (sh + 7)) >> (sh + 7) == q
        }) by (bit_vector)
            requires
                sh <= 56,
                m >= 128,
                b == (m % 128 + 128) as u8,
                q == m / 128,
                (m << sh) >> sh == m,
        ;
        let v = acc | varint_part(b, i);
        assert(s.subrange((i + 1) as int, s.len() as int) == varint_encoding(q) + rest) by {
            assert(s.subrange((i + 1) as int, s.len() as int) =~= t.subrange(1, t.len() as int));
            assert(t.subrange(1, t.len() as int) =~= varint_encoding(q) + rest);
        }
        assert((7 * (i + 1)) as u64 == sh + 7);
        lemma_varint_decodes(s, i + 1, v, q, rest);
        assert(v | (q << (sh + 7)) == acc | (m << sh)) by (bit_vector)
            requires
                v == acc | (((b & 0x7f) as u64) << sh),
                ((b & 0x7f) as u64) << sh | (q << (sh + 7)) == m << sh,
        ;
    }
}

/// Reading a varint gives back what was encoded: the encoding of `n`,
/// followed by any bytes, reads as `n`, taking exactly the encoding's bytes.
pub proof fn law_varint_round_trip(n: u64, rest: Seq<u8>)
    ensures
        spec_read_varint(varint_encoding(n) + rest) == (Varint::Complete {
            value: n,
            len: varint_encoding(n).len() as usize,
        }),
{
    let s = varint_encoding(n) + rest;
    assert(s.subrange(0, s.len() as int) =~= s);
    assert((n << 0u64) >> 0u64 == n && 0u64 | (n << 0u64) == n) by (bit_vector);
    lemma_varint_decodes(s, 0, 0, n, rest);
}

/// Decode a base-128 varint from the front of `buf`, reporting how many bytes
/// it occupied.
pub fn read_varint(buf: &[u8]) -> (r: Varint)
    ensures
        r == spec_read_varint(buf@),
{
    let mut value: u64 = 0;
    let mut i: usize = 0;
    while i < buf.len()
        invariant
            i <= 10,
            i <= buf@.len(),
            varint_from(buf@, 0, 0) == varint_from(buf@, i as nat, value),
        decreases buf@.len() - i,
    {
        if i == 10 {
            return Varint::Invalid;
        }
        let b = buf[i];
        let shift: u64 = 7 * (i as u64);
        value = value | (((b & 0x7f) as u64) << shift);
        if b & 0x80 == 0 {
            return Varint::Complete { value, len: i + 1 };
        }
        i = i + 1;
    }
    Varint::Incomplete
}

/// The frame the protobuf scanner finds at the front of `buf`: the message
/// after a complete length prefix once all of it is buffered; more input when
/// the prefix or the message is cut short (at the end of the input, an error
/// that skips the rest); an unrecoverable error for a prefix of more than ten
/// bytes or a length that does not fit in memory.
pub open spec fn spec_proto_step(buf: Seq<u8>, at_eof: bool) -> SpecStep {
    if buf.len() == 0 {
        if at_eof { SpecStep::Done } else { SpecStep::NeedMore }
    } else {
        match spec_read_varint(buf) {
            Varint::Incomplete => if at_eof {
                SpecStep::Fail { consumed: buf.len() as int }
            } else {
                SpecStep::NeedMore
            },
            Varint::Invalid => SpecStep::Fail { consumed: 0 },
            Varint::Complete { value, len } => {
                let total = len + value;
                if total > usize::MAX {
                    SpecStep::Fail { consumed: 0 }
                } else if buf.len() < total {
                    if at_eof { SpecStep::Fail { consumed: buf.len() as int } } else { SpecStep::NeedMore }
                } else {
                    SpecStep::Frame { start: len as int, end: total }
                }
            },
        }
    }
}

/// Find the next length-delimited message in `buf`.
pub fn proto_next_frame<'a>(buf: &'a [u8], at_eof: bool) -> (r: FrameStep<'a>)
    ensures
        r.is_step(buf@, spec_proto_step(buf@, at_eof)),
{
    if buf.len() == 0 {
        return if at_eof { FrameStep::Done } else { FrameStep::NeedMore };
    }
    match read_varint(buf) {
        Varint::Incomplete => {
            if at_eof {
                FrameStep::Error { consumed: buf.len(), error: ParseError::IncompleteFrame }
            } else {
                FrameStep::NeedMore
            }
        },
        Varint::Invalid => FrameStep::Error { consumed: 0, error: ParseError::IncompleteFrame },
        Varint::Complete { value, len } => {
            if value > (usize::MAX - len) as u64 {
                return FrameStep::Error { consumed: 0, error: ParseError::IncompleteFrame };
            }
            let total = len + value as usize;
            if buf.len() < total {
                if at_eof {
                    FrameStep::Error { consumed: buf.len(), error: ParseError::IncompleteFrame }
                } else {
                    FrameStep::NeedMore
                }
            } else {
                FrameStep::Frame { consumed: total, bytes: &buf[len..total] }
            }
        },
    }
}

// ---------------------------------------------------------------------------
// Laws
// ---------------------------------------------------------------------------

proof fn lemma_varint_extend(b: Seq<u8>, r: Seq<u8>, i: nat, acc: u64)
    requires
        !(varint_from(b, i, acc) is Incomplete),
    ensures
        varint_from(b + r, i, acc) == varint_from(b, i, acc),
    decreases b.len() - i,
{
    if i < b.len() && i != 10 {
        assert((b + r)[i as int] == b[i as int]);
        let v = acc | varint_part(b[i as int], i);
        if b[i as int] & 0x80 != 0 {
            lemma_varint_extend(b, r, i + 1, v);
        }
    }
}

proof fn lemma_varint_len(s: Seq<u8>, i: nat, acc: u64)
    requires
        i <= 10,
    ensures
        match varint_from(s, i, acc) {
            Varint::Complete { len, .. } => i < len <= s.len() && len <= 10,
            _ => true,
        },
    decreases s.len() - i,
{
    if i < s.len() && i != 10 {
        let v = acc | varint_part(s[i as int], i);
        if s[i as int] & 0x80 != 0 {
            lemma_varint_len(s, i + 1, v);
        }
    }
}

/// What the protobuf scanner decides before the end of its input stays
/// decided when more input follows: a frame, or an unrecoverable length
/// prefix, found without `at_eof` is the same in any extension of the buffer.
pub proof fn law_proto_step_prefix_stable(b: Seq<u8>, r: Seq<u8>, e: bool)
    requires
        !(spec_proto_step(b, false) is NeedMore),
    ensures
        spec_proto_step(b + r, e) == spec_proto_step(b, false),
{
    lemma_varint_extend(b, r, 0, 0);
}

/// Every frame lies within the buffer after a non-empty length prefix; a
/// framing error skips at most the buffer, and skips nothing unless the
/// input is final.
pub proof fn law_proto_step_progress(b: Seq<u8>, e: bool)
    ensures
        match spec_proto_step(b, e) {
            SpecStep::Frame { start, end } => 0 < start <= end <= b.len(),
            SpecStep::Fail { consumed } => 0 <= consumed <= b.len() && (!e ==> consumed == 0),
            _ => true,
        },
{
    lemma_varint_len(b, 0, 0);
}

} // verus!
