//! The protobuf wire format, field by field.
//!
//! A message body is a run of `(field number, wire data)` records, read
//! here with `buffa`'s primitives (tags, varints, length-delimited payloads,
//! group skipping); payloads borrow the body, so strings decoded from them
//! are not copied. What a record means for a given schema field is
//! decided here: a singular scalar takes its last occurrence, a repeated
//! scalar collects every occurrence (each one a single value or a packed
//! run), a singular embedded message merges all its occurrences (the same as
//! decoding the concatenation of their payloads; a single occurrence is
//! borrowed as it stands), and a repeated message
//! decodes each occurrence on its own. A record of the wrong wire type for
//! its field is a decode error.

use vstd::prelude::*;
use vstd::string::StringSliceAdditionalSpecFns;
use vstd::bytes::{spec_u32_from_le_bytes, spec_u64_from_le_bytes, u32_from_le_bytes, u64_from_le_bytes};

use crate::proto::scan::{spec_read_varint, Varint};
use crate::text::str_from_utf8;

verus! {

/// The data of one wire record; a length-delimited payload borrows the
/// message body.
pub enum WireData<'a> {
    Varint(u64),
    Fixed64(u64),
    Fixed32(u32),
    Bytes(&'a [u8]),
    /// A group (a deprecated encoding no field of this schema uses).
    Group,
}

pub struct WireField<'a> {
    pub number: u32,
    pub data: WireData<'a>,
}

pub enum SpecWireData {
    Varint(u64),
    Fixed64(u64),
    Fixed32(u32),
    Bytes(Seq<u8>),
    Group,
}

pub struct SpecWireField {
    pub number: u32,
    pub data: SpecWireData,
}

impl<'a> DeepView for WireField<'a> {
    type V = SpecWireField;

    open spec fn deep_view(&self) -> SpecWireField {
        SpecWireField {
            number: self.number,
            data: match &self.data {
                WireData::Varint(v) => SpecWireData::Varint(*v),
                WireData::Fixed64(v) => SpecWireData::Fixed64(*v),
                WireData::Fixed32(v) => SpecWireData::Fixed32(*v),
                WireData::Bytes(b) => SpecWireData::Bytes(b@),
                WireData::Group => SpecWireData::Group,
            },
        }
    }
}

/// The varint `buffa` reads at the front of `b`, and how many bytes it took,
/// or `None` when there is none: the base-128 varint of the framing
/// scanner, except that a tenth byte must be 0 or 1 (more would overflow
/// 64 bits); the input ending first, or more than ten bytes, give none.
#[verifier::opaque]
pub open spec fn varint_prefix(b: Seq<u8>) -> Option<(u64, nat)> {
    match spec_read_varint(b) {
        Varint::Complete { value, len } => if len == 10 && b[9] >= 2 {
            None
        } else {
            Some((value, len as nat))
        },
        _ => None,
    }
}

/// `buffa::encoding::decode_varint` on a byte slice: the varint at the
/// front (as `varint_prefix` states it) and the bytes after it, which are
/// the rest of the input; at least one byte is consumed.
#[verifier::external_body]
pub(crate) fn decode_varint_at(b: &[u8]) -> (r: Result<(u64, &[u8]), buffa::DecodeError>)
    ensures
        match r {
            Ok((v, rest)) => {
                &&& rest@.len() < b@.len()
                &&& rest@ == b@.subrange(b@.len() - rest@.len(), b@.len() as int)
                &&& varint_prefix(b@) == Some((v, (b@.len() - rest@.len()) as nat))
            },
            Err(_) => varint_prefix(b@) is None,
        },
{
    let mut cur = b;
    let v = buffa::encoding::decode_varint(&mut cur)?;
    Ok((v, cur))
}

/// `buffa::encoding::Tag::decode` on a byte slice: a record's tag is a
/// varint of at most 32 bits holding the field number (never zero) over the
/// wire type (0 to 5) in its low three bits; anything else is an error.
#[verifier::external_body]
fn decode_tag(b: &[u8]) -> (r: Result<(u32, u32, &[u8]), buffa::DecodeError>)
    ensures
        match r {
            Ok((n, w, rest)) => {
                &&& varint_prefix(b@) matches Some((v, k)) && k == b@.len() - rest@.len() && v <= u32::MAX
                    && n == v / 8 && w == v % 8
                &&& rest@.len() < b@.len()
                &&& rest@ == b@.subrange(b@.len() - rest@.len(), b@.len() as int)
                &&& 1 <= n && w <= 5
            },
            Err(_) => match varint_prefix(b@) {
                Some((v, _)) => v > u32::MAX || v % 8 > 5 || v / 8 == 0,
                None => true,
            },
        },
{
    let mut cur = b;
    let tag = buffa::encoding::Tag::decode(&mut cur)?;
    Ok((tag.field_number(), tag.wire_type() as u32, cur))
}

/// `buffa::types::borrow_bytes` on a byte slice: a varint length, then that
/// many bytes, borrowed; an error when the length prefix is bad or runs
/// past the end.
#[verifier::external_body]
fn borrow_payload(b: &[u8]) -> (r: Result<(&[u8], &[u8]), buffa::DecodeError>)
    ensures
        match r {
            Ok((p, rest)) => match varint_prefix(b@) {
                Some((len, k)) => {
                    &&& k + len <= b@.len()
                    &&& p@ == b@.subrange(k as int, k + len)
                    &&& rest@ == b@.subrange(k + len, b@.len() as int)
                },
                None => false,
            },
            Err(_) => match varint_prefix(b@) {
                Some((len, k)) => k + len > b@.len(),
                None => true,
            },
        },
{
    let mut cur = b;
    let p = buffa::types::borrow_bytes(&mut cur)?;
    Ok((p, cur))
}

/// How many bytes the body and end tag of a group of field `number` take
/// at the front of `b` (its start tag already read), or `None` when the
/// group is malformed or nested deeper than `buffa`'s recursion limit.
pub uninterp spec fn group_extent(b: Seq<u8>, number: u32) -> Option<nat>;

/// `buffa::encoding::skip_field_depth` on a start-group tag of field
/// `number`, under `buffa::RECURSION_LIMIT`: skip the group's body and its
/// end tag. The extent is named (`group_extent`); the end tag takes at
/// least one byte. `Tag::new` panics outside the field-number range, which
/// `requires` leaves out.
#[verifier::external_body]
fn skip_group(b: &[u8], number: u32) -> (r: Result<&[u8], buffa::DecodeError>)
    requires
        1 <= number < 0x2000_0000,
    ensures
        match r {
            Ok(rest) => {
                &&& rest@.len() < b@.len()
                &&& rest@ == b@.subrange(b@.len() - rest@.len(), b@.len() as int)
                &&& group_extent(b@, number) == Some((b@.len() - rest@.len()) as nat)
            },
            Err(_) => group_extent(b@, number) is None,
        },
{
    let mut cur = b;
    let tag = buffa::encoding::Tag::new(number, buffa::encoding::WireType::StartGroup);
    buffa::encoding::skip_field_depth(tag, &mut cur, buffa::RECURSION_LIMIT)?;
    Ok(cur)
}

/// `buffa::DecodeError::UnexpectedEof`, for a fixed-width value cut short.
#[verifier::external_body]
fn eof_error() -> (r: buffa::DecodeError) {
    buffa::DecodeError::UnexpectedEof
}

/// `buffa::DecodeError::InvalidWireType`, for an end-group tag with no
/// group open.
#[verifier::external_body]
fn stray_end_group_error() -> (r: buffa::DecodeError) {
    buffa::DecodeError::InvalidWireType(4)
}

/// The record at the front of `b` and how many bytes it takes: a tag, then
/// a varint, eight or four little-endian bytes, a length-delimited payload
/// or a group, by the tag's wire type. `None` when it is malformed.
pub open spec fn record_at(b: Seq<u8>) -> Option<(SpecWireField, int)> {
    match varint_prefix(b) {
        None => None,
        Some((v, k)) => if v > u32::MAX || v % 8 > 5 || v / 8 == 0 || !(0 < k <= b.len()) {
            None
        } else {
            let n = (v / 8) as u32;
            let r = b.subrange(k as int, b.len() as int);
            let w = v % 8;
            if w == 0 {
                match varint_prefix(r) {
                    Some((x, j)) => if 0 < j <= r.len() {
                        Some((SpecWireField { number: n, data: SpecWireData::Varint(x) }, (k + j) as int))
                    } else {
                        None
                    },
                    None => None,
                }
            } else if w == 1 {
                if r.len() >= 8 {
                    Some(
                        (
                            SpecWireField { number: n, data: SpecWireData::Fixed64(spec_u64_from_le_bytes(r.subrange(0, 8))) },
                            (k + 8) as int,
                        ),
                    )
                } else {
                    None
                }
            } else if w == 2 {
                match varint_prefix(r) {
                    Some((len, j)) => if j + len <= r.len() {
                        Some(
                            (
                                SpecWireField { number: n, data: SpecWireData::Bytes(r.subrange(j as int, j + len)) },
                                k + j + len,
                            ),
                        )
                    } else {
                        None
                    },
                    None => None,
                }
            } else if w == 3 {
                match group_extent(r, n) {
                    Some(g) => if 0 < g <= r.len() {
                        Some((SpecWireField { number: n, data: SpecWireData::Group }, (k + g) as int))
                    } else {
                        None
                    },
                    None => None,
                }
            } else if w == 5 {
                if r.len() >= 4 {
                    Some(
                        (
                            SpecWireField { number: n, data: SpecWireData::Fixed32(spec_u32_from_le_bytes(r.subrange(0, 4))) },
                            (k + 4) as int,
                        ),
                    )
                } else {
                    None
                }
            } else {
                None
            }
        },
    }
}

/// The records of a message body, in order, or `None` when it is
/// malformed.
pub open spec fn wire_fields(b: Seq<u8>) -> Option<Seq<SpecWireField>>
    decreases b.len(),
{
    if b.len() == 0 {
        Some(Seq::empty())
    } else {
        match record_at(b) {
            Some((f, c)) => if 0 < c <= b.len() {
                match wire_fields(b.subrange(c, b.len() as int)) {
                    Some(fs) => Some(seq![f] + fs),
                    None => None,
                }
            } else {
                None
            },
            None => None,
        }
    }
}

/// Read the record at the front of `b`: the record, its payload borrowed,
/// and the bytes after it.
fn read_record<'a>(b: &'a [u8]) -> (r: Result<(WireField<'a>, &'a [u8]), buffa::DecodeError>)
    requires
        b@.len() > 0,
    ensures
        match (r, record_at(b@)) {
            (Ok((f, rest)), Some((sf, c))) => {
                &&& f.deep_view() == sf
                &&& 0 < c <= b@.len()
                &&& rest@ == b@.subrange(c, b@.len() as int)
            },
            (Err(_), None) => true,
            _ => false,
        },
{
    let (n, w, rest) = decode_tag(b)?;
    let ghost k = (b@.len() - rest@.len()) as nat;
    assert(rest@ == b@.subrange(k as int, b@.len() as int));
    if w == 0 {
        let (x, after) = decode_varint_at(rest)?;
        Ok((WireField { number: n, data: WireData::Varint(x) }, after))
    } else if w == 1 {
        if rest.len() < 8 {
            return Err(eof_error());
        }
        let x = u64_from_le_bytes(&rest[0..8]);
        let after = slice_from(rest, 8);
        Ok((WireField { number: n, data: WireData::Fixed64(x) }, after))
    } else if w == 2 {
        let (p, after) = borrow_payload(rest)?;
        Ok((WireField { number: n, data: WireData::Bytes(p) }, after))
    } else if w == 3 {
        let after = skip_group(rest, n)?;
        Ok((WireField { number: n, data: WireData::Group }, after))
    } else if w == 5 {
        if rest.len() < 4 {
            return Err(eof_error());
        }
        let x = u32_from_le_bytes(&rest[0..4]);
        let after = slice_from(rest, 4);
        Ok((WireField { number: n, data: WireData::Fixed32(x) }, after))
    } else {
        Err(stray_end_group_error())
    }
}

/// The bytes of `b` from `i` on.
fn slice_from<'a>(b: &'a [u8], i: usize) -> (r: &'a [u8])
    requires
        i <= b@.len(),
    ensures
        r@ == b@.subrange(i as int, b@.len() as int),
{
    let (_, after) = b.split_at(i);
    after
}

/// Split a message body into its wire records, in order; payloads borrow
/// the body.
pub fn decode_wire<'a>(body: &'a [u8]) -> (r: Result<Vec<WireField<'a>>, buffa::DecodeError>)
    ensures
        match r {
            Ok(v) => wire_fields(body@) == Some(v.deep_view()),
            Err(_) => wire_fields(body@) is None,
        },
{
    let mut out: Vec<WireField<'a>> = Vec::new();
    let mut cur: &'a [u8] = body;
    while cur.len() > 0
        invariant
            wire_fields(body@) == match wire_fields(cur@) {
                Some(fs) => Some(out.deep_view() + fs),
                None => None,
            },
        decreases cur@.len(),
    {
        let ghost before = out.deep_view();
        match read_record(cur) {
            Ok((f, rest)) => {
                proof {
                    if let Some(fs) = wire_fields(rest@) {
                        assert(before.push(f.deep_view()) + fs =~= before + (seq![f.deep_view()] + fs));
                    }
                }
                out.push(f);
                assert(out.deep_view() =~= before.push(f.deep_view()));
                cur = rest;
            },
            Err(e) => return Err(e),
        }
    }
    assert(out.deep_view() + Seq::<SpecWireField>::empty() =~= out.deep_view());
    Ok(out)
}

/// The wire kinds, as `buffa` numbers them.
#[derive(Clone, Copy, PartialEq, Eq, Structural)]
pub enum WireKind {
    Varint,
    Fixed64,
    LengthDelimited,
    StartGroup,
    Fixed32,
}

/// The number `buffa` gives a wire kind (`WireType as u8`).
pub open spec fn wire_code(k: WireKind) -> u8 {
    match k {
        WireKind::Varint => 0,
        WireKind::Fixed64 => 1,
        WireKind::LengthDelimited => 2,
        WireKind::StartGroup => 3,
        WireKind::Fixed32 => 5,
    }
}

fn kind_code(k: WireKind) -> (r: u8)
    ensures
        r == wire_code(k),
{
    match k {
        WireKind::Varint => 0,
        WireKind::Fixed64 => 1,
        WireKind::LengthDelimited => 2,
        WireKind::StartGroup => 3,
        WireKind::Fixed32 => 5,
    }
}

/// The error `buffa` builds for a record of field `field` with wire type
/// number `actual` where `expected` was due. It is made of these three
/// values alone (a `DecodeError::WireTypeMismatch` holding them).
pub uninterp spec fn wire_mismatch(field: u32, expected: u8, actual: u8) -> buffa::DecodeError;

/// `buffa::encoding::wire_type_mismatch` on `Tag::new(field, actual)`, the
/// wire types given by their numbers: the error for a record of field
/// `field` that has wire type `actual` where `expected` was due. The
/// contract names the error (`wire_mismatch`), a function of the three
/// arguments. `Tag::new` panics outside the field-number range and
/// `WireType::from_u32` fails above 5; `requires` leaves both out.
#[verifier::external_body]
fn wire_type_error(field: u32, expected: u8, actual: u8) -> (r: buffa::DecodeError)
    requires
        1 <= field < 0x2000_0000,
        expected <= 5,
        actual <= 5,
    ensures
        r == wire_mismatch(field, expected, actual),
{
    let e = buffa::encoding::WireType::from_u32(expected as u32).unwrap();
    let a = buffa::encoding::WireType::from_u32(actual as u32).unwrap();
    buffa::encoding::wire_type_mismatch(buffa::encoding::Tag::new(field, a), e)
}

/// The decode error for a record of field `field` of kind `actual` where
/// `expected` was due.
fn wire_kind_error(field: u32, expected: WireKind, actual: WireKind) -> (r: buffa::DecodeError)
    requires
        1 <= field < 0x2000_0000,
    ensures
        r == wire_mismatch(field, wire_code(expected), wire_code(actual)),
{
    let e = kind_code(expected);
    let a = kind_code(actual);
    wire_type_error(field, e, a)
}

/// `buffa::DecodeError::InvalidUtf8`, the error for a string field that is
/// not UTF-8. Nothing is claimed of the error value.
#[verifier::external_body]
pub(crate) fn utf8_error() -> (r: buffa::DecodeError) {
    buffa::DecodeError::InvalidUtf8
}

// ---------------------------------------------------------------------------
// Reading the records of one field
// ---------------------------------------------------------------------------

pub open spec fn kind_of(d: SpecWireData) -> WireKind {
    match d {
        SpecWireData::Varint(_) => WireKind::Varint,
        SpecWireData::Fixed64(_) => WireKind::Fixed64,
        SpecWireData::Fixed32(_) => WireKind::Fixed32,
        SpecWireData::Bytes(_) => WireKind::LengthDelimited,
        SpecWireData::Group => WireKind::StartGroup,
    }
}

fn exec_kind(f: &WireField) -> (r: WireKind)
    ensures
        r == kind_of(f.deep_view().data),
{
    match &f.data {
        WireData::Varint(_) => WireKind::Varint,
        WireData::Fixed64(_) => WireKind::Fixed64,
        WireData::Fixed32(_) => WireKind::Fixed32,
        WireData::Bytes(_) => WireKind::LengthDelimited,
        WireData::Group => WireKind::StartGroup,
    }
}

/// Every record of field `n` has wire kind `k`.
pub open spec fn typed(fs: Seq<SpecWireField>, n: u32, k: WireKind) -> bool {
    forall|i: int| 0 <= i < fs.len() && (#[trigger] fs[i]).number == n ==> kind_of(fs[i].data) == k
}

/// The index of the last record of field `n`.
pub open spec fn last_index(fs: Seq<SpecWireField>, n: u32) -> Option<int>
    decreases fs.len(),
{
    if fs.len() == 0 {
        None
    } else if fs.last().number == n {
        Some(fs.len() - 1)
    } else {
        last_index(fs.drop_last(), n)
    }
}

pub proof fn lemma_last_index(fs: Seq<SpecWireField>, n: u32)
    ensures
        match last_index(fs, n) {
            Some(i) => 0 <= i < fs.len() && fs[i].number == n
                && forall|j: int| i < j < fs.len() ==> (#[trigger] fs[j]).number != n,
            None => forall|j: int| 0 <= j < fs.len() ==> (#[trigger] fs[j]).number != n,
        },
    decreases fs.len(),
{
    if fs.len() > 0 && fs.last().number != n {
        lemma_last_index(fs.drop_last(), n);
        assert forall|j: int| 0 <= j < fs.len() - 1 implies fs.drop_last()[j] == fs[j] by {}
    }
}

/// The index of the last record of field `n`, once every record of it has
/// been checked to be of wire kind `k`.
pub fn last_of(fs: &Vec<WireField>, n: u32, k: WireKind) -> (r: Result<Option<usize>, buffa::DecodeError>)
    requires
        1 <= n < 0x2000_0000,
    ensures
        match r {
            Ok(o) => typed(fs.deep_view(), n, k) && match (o, last_index(fs.deep_view(), n)) {
                (Some(i), Some(j)) => i == j,
                (None, None) => true,
                _ => false,
            },
            Err(_) => !typed(fs.deep_view(), n, k),
        },
{
    let ghost fv = fs.deep_view();
    let mut found: Option<usize> = None;
    let mut i: usize = 0;
    while i < fs.len()
        invariant
            fv == fs.deep_view(),
            1 <= n < 0x2000_0000,
            i <= fv.len(),
            typed(fv.take(i as int), n, k),
            match (found, last_index(fv.take(i as int), n)) {
                (Some(a), Some(b)) => a == b,
                (None, None) => true,
                _ => false,
            },
        decreases fv.len() - i,
    {
        assert(fv.take(i + 1).drop_last() =~= fv.take(i as int));
        assert(fv.take(i + 1).last() == fv[i as int]);
        if fs[i].number == n {
            let kind = exec_kind(&fs[i]);
            if kind != k {
                assert(fv[i as int].number == n && kind_of(fv[i as int].data) != k);
                return Err(wire_kind_error(n, k, kind));
            }
            found = Some(i);
        }
        assert forall|j: int| 0 <= j < i + 1 && (#[trigger] fv.take(i + 1)[j]).number == n implies kind_of(
            fv.take(i + 1)[j].data,
        ) == k by {
            if j < i {
                assert(fv.take(i + 1)[j] == fv.take(i as int)[j]);
            }
        }
        i = i + 1;
    }
    assert(fv.take(fv.len() as int) =~= fv);
    Ok(found)
}

/// A singular `uint64`/`int64`/enum field: the last value given, or `None`
/// when there is none; an outer `None` is a decode error.
pub open spec fn spec_varint_field(fs: Seq<SpecWireField>, n: u32) -> Option<Option<u64>> {
    if typed(fs, n, WireKind::Varint) {
        Some(
            match last_index(fs, n) {
                Some(i) => match fs[i].data {
                    SpecWireData::Varint(v) => Some(v),
                    _ => None,
                },
                None => None,
            },
        )
    } else {
        None
    }
}

pub fn varint_field(fs: &Vec<WireField>, n: u32) -> (r: Result<Option<u64>, buffa::DecodeError>)
    requires
        1 <= n < 0x2000_0000,
    ensures
        match (r, spec_varint_field(fs.deep_view(), n)) {
            (Ok(a), Some(b)) => a == b,
            (Err(_), None) => true,
            _ => false,
        },
{
    match last_of(fs, n, WireKind::Varint) {
        Ok(Some(i)) => {
            proof { lemma_last_index(fs.deep_view(), n); }
            assert(fs.deep_view()[i as int] == fs@[i as int].deep_view());
            match &fs[i].data {
                WireData::Varint(v) => Ok(Some(*v)),
                _ => Ok(None),
            }
        },
        Ok(None) => Ok(None),
        Err(e) => Err(e),
    }
}

/// A singular `double` field, as its bit pattern.
pub open spec fn spec_fixed64_field(fs: Seq<SpecWireField>, n: u32) -> Option<Option<u64>> {
    if typed(fs, n, WireKind::Fixed64) {
        Some(
            match last_index(fs, n) {
                Some(i) => match fs[i].data {
                    SpecWireData::Fixed64(v) => Some(v),
                    _ => None,
                },
                None => None,
            },
        )
    } else {
        None
    }
}

pub fn fixed64_field(fs: &Vec<WireField>, n: u32) -> (r: Result<Option<u64>, buffa::DecodeError>)
    requires
        1 <= n < 0x2000_0000,
    ensures
        match (r, spec_fixed64_field(fs.deep_view(), n)) {
            (Ok(a), Some(b)) => a == b,
            (Err(_), None) => true,
            _ => false,
        },
{
    match last_of(fs, n, WireKind::Fixed64) {
        Ok(Some(i)) => {
            proof { lemma_last_index(fs.deep_view(), n); }
            assert(fs.deep_view()[i as int] == fs@[i as int].deep_view());
            match &fs[i].data {
                WireData::Fixed64(v) => Ok(Some(*v)),
                _ => Ok(None),
            }
        },
        Ok(None) => Ok(None),
        Err(e) => Err(e),
    }
}

/// Every record of field `n` that carries bytes carries UTF-8.
pub open spec fn all_utf8(fs: Seq<SpecWireField>, n: u32) -> bool {
    forall|i: int| 0 <= i < fs.len() && (#[trigger] fs[i]).number == n ==> match fs[i].data {
        SpecWireData::Bytes(b) => vstd::utf8::valid_utf8(b),
        _ => true,
    }
}

/// A singular `string` field: the last value given; every occurrence must be
/// UTF-8.
pub open spec fn spec_string_field(fs: Seq<SpecWireField>, n: u32) -> Option<Option<Seq<u8>>> {
    if typed(fs, n, WireKind::LengthDelimited) && all_utf8(fs, n) {
        Some(
            match last_index(fs, n) {
                Some(i) => match fs[i].data {
                    SpecWireData::Bytes(b) => Some(b),
                    _ => None,
                },
                None => None,
            },
        )
    } else {
        None
    }
}

pub fn string_field<'a>(fs: &Vec<WireField<'a>>, n: u32) -> (r: Result<Option<&'a str>, buffa::DecodeError>)
    requires
        1 <= n < 0x2000_0000,
    ensures
        match (r, spec_string_field(fs.deep_view(), n)) {
            (Ok(Some(a)), Some(Some(b))) => a.spec_bytes() == b,
            (Ok(None), Some(None)) => true,
            (Err(_), None) => true,
            _ => false,
        },
{
    let ghost fv = fs.deep_view();
    let last = match last_of(fs, n, WireKind::LengthDelimited) {
        Ok(o) => o,
        Err(e) => return Err(e),
    };
    let mut i: usize = 0;
    while i < fs.len()
        invariant
            fv == fs.deep_view(),
            i <= fv.len(),
            forall|j: int| 0 <= j < i && (#[trigger] fv[j]).number == n ==> match fv[j].data {
                SpecWireData::Bytes(b) => vstd::utf8::valid_utf8(b),
                _ => true,
            },
        decreases fv.len() - i,
    {
        assert(fv[i as int] == fs@[i as int].deep_view());
        if fs[i].number == n {
            if let WireData::Bytes(b) = &fs[i].data {
                if str_from_utf8(b).is_err() {
                    return Err(utf8_error());
                }
            }
        }
        i = i + 1;
    }
    proof { lemma_last_index(fv, n); }
    match last {
        Some(i) => {
            assert(fv[i as int] == fs@[i as int].deep_view());
            match &fs[i].data {
                WireData::Bytes(b) => match str_from_utf8(b) {
                    Ok(s) => Ok(Some(s)),
                    Err(_) => Err(utf8_error()),
                },
                _ => Ok(None),
            }
        },
        None => Ok(None),
    }
}

/// The payloads of the records of field `n`, in order.
pub open spec fn payloads(fs: Seq<SpecWireField>, n: u32) -> Seq<Seq<u8>>
    decreases fs.len(),
{
    if fs.len() == 0 {
        Seq::empty()
    } else {
        let rest = payloads(fs.drop_last(), n);
        if fs.last().number == n {
            match fs.last().data {
                SpecWireData::Bytes(b) => rest.push(b),
                _ => rest,
            }
        } else {
            rest
        }
    }
}

/// The payloads of a repeated message field `n`, one per occurrence,
/// borrowed.
pub fn message_list<'a>(fs: &Vec<WireField<'a>>, n: u32) -> (r: Result<Vec<&'a [u8]>, buffa::DecodeError>)
    requires
        1 <= n < 0x2000_0000,
    ensures
        match r {
            Ok(v) => typed(fs.deep_view(), n, WireKind::LengthDelimited) && v.deep_view() == payloads(
                fs.deep_view(),
                n,
            ),
            Err(_) => !typed(fs.deep_view(), n, WireKind::LengthDelimited),
        },
{
    let ghost fv = fs.deep_view();
    if let Err(e) = last_of(fs, n, WireKind::LengthDelimited) {
        return Err(e);
    }
    let mut out: Vec<&'a [u8]> = Vec::new();
    let mut i: usize = 0;
    assert(out.deep_view() =~= payloads(fv.take(0), n));
    while i < fs.len()
        invariant
            fv == fs.deep_view(),
            i <= fv.len(),
            out.deep_view() == payloads(fv.take(i as int), n),
        decreases fv.len() - i,
    {
        assert(fv.take(i + 1).drop_last() =~= fv.take(i as int));
        assert(fv.take(i + 1).last() == fv[i as int]);
        assert(fv[i as int] == fs@[i as int].deep_view());
        if fs[i].number == n {
            if let WireData::Bytes(b) = &fs[i].data {
                let ghost before = out.deep_view();
                assert((*b).deep_view() =~= b@);
                out.push(*b);
                assert(out.deep_view() =~= before.push(b@));
            }
        }
        i = i + 1;
    }
    assert(fv.take(fv.len() as int) =~= fv);
    Ok(out)
}

/// The concatenated payloads of field `n`.
pub open spec fn concat_all(ps: Seq<Seq<u8>>) -> Seq<u8>
    decreases ps.len(),
{
    if ps.len() == 0 {
        Seq::empty()
    } else {
        concat_all(ps.drop_last()) + ps.last()
    }
}

/// Every piece reads as whole wire records on its own.
pub open spec fn pieces_parse(ps: Seq<Seq<u8>>) -> bool {
    forall|i: int| 0 <= i < ps.len() ==> #[trigger] wire_fields(ps[i]) is Some
}

/// A singular message field: every occurrence merged into one, which is the
/// concatenation of their payloads; `None` when it never occurs. Occurrences
/// are merged one by one, so when there are several, each must read as
/// whole records on its own (no record runs on into the next occurrence).
pub open spec fn spec_message_field(fs: Seq<SpecWireField>, n: u32) -> Option<Option<Seq<u8>>> {
    if typed(fs, n, WireKind::LengthDelimited) && (payloads(fs, n).len() > 1 ==> pieces_parse(payloads(fs, n))) {
        Some(if last_index(fs, n) is Some { Some(concat_all(payloads(fs, n))) } else { None })
    } else {
        None
    }
}

/// The merged payload of a singular message field: the one occurrence,
/// borrowed, or the concatenation of several.
pub enum Payload<'a> {
    One(&'a [u8]),
    Joined(Vec<u8>),
}

impl<'a> Payload<'a> {
    pub open spec fn bytes(&self) -> Seq<u8> {
        match self {
            Payload::One(b) => b@,
            Payload::Joined(v) => v@,
        }
    }

    pub fn as_slice(&self) -> (r: &[u8])
        ensures
            r@ == self.bytes(),
    {
        match self {
            Payload::One(b) => b,
            Payload::Joined(v) => v.as_slice(),
        }
    }
}

pub open spec fn opt_payload_bytes(m: Option<Payload<'_>>) -> Option<Seq<u8>> {
    match m {
        Some(p) => Some(p.bytes()),
        None => None,
    }
}

/// A field whose records are all length-delimited occurs exactly when it
/// has a payload.
proof fn lemma_payloads_present(fs: Seq<SpecWireField>, n: u32)
    requires
        typed(fs, n, WireKind::LengthDelimited),
    ensures
        (last_index(fs, n) is Some) <==> payloads(fs, n).len() > 0,
    decreases fs.len(),
{
    if fs.len() > 0 {
        let t = fs.drop_last();
        assert forall|i: int| 0 <= i < t.len() && (#[trigger] t[i]).number == n implies kind_of(t[i].data)
            == WireKind::LengthDelimited by {
            assert(t[i] == fs[i]);
        }
        lemma_payloads_present(t, n);
        if fs.last().number == n {
            assert(kind_of(fs[fs.len() - 1].data) == WireKind::LengthDelimited);
        }
    }
}

pub fn message_field<'a>(fs: &Vec<WireField<'a>>, n: u32) -> (r: Result<Option<Payload<'a>>, buffa::DecodeError>)
    requires
        1 <= n < 0x2000_0000,
    ensures
        match (r, spec_message_field(fs.deep_view(), n)) {
            (Ok(a), Some(b)) => opt_payload_bytes(a) == b,
            (Err(_), None) => true,
            _ => false,
        },
{
    let ghost fv = fs.deep_view();
    let ps = match message_list(fs, n) {
        Ok(ps) => ps,
        Err(e) => return Err(e),
    };
    let ghost pv = ps.deep_view();
    proof { lemma_payloads_present(fv, n); }
    if ps.len() == 0 {
        return Ok(None);
    }
    if ps.len() == 1 {
        assert(pv[0] == ps@[0]@);
        assert(concat_all(pv) =~= concat_all(pv.drop_last()) + pv[0]);
        assert(pv.drop_last() =~= Seq::<Seq<u8>>::empty());
        assert(concat_all(pv) =~= pv[0]);
        return Ok(Some(Payload::One(ps[0])));
    }
    let mut out: Vec<u8> = Vec::new();
    let mut i: usize = 0;
    assert(pv.take(0) =~= Seq::<Seq<u8>>::empty());
    while i < ps.len()
        invariant
            pv == ps.deep_view(),
            pv == payloads(fv, n),
            fv == fs.deep_view(),
            pv.len() > 1,
            typed(fv, n, WireKind::LengthDelimited),
            i <= pv.len(),
            out@ == concat_all(pv.take(i as int)),
            forall|j: int| 0 <= j < i ==> #[trigger] wire_fields(pv[j]) is Some,
        decreases pv.len() - i,
    {
        assert(pv.take(i + 1).drop_last() =~= pv.take(i as int));
        assert(pv[i as int] == ps@[i as int]@);
        if let Err(e) = decode_wire(ps[i]) {
            assert(wire_fields(pv[i as int]) is None);
            assert(!pieces_parse(pv));
            return Err(e);
        }
        out.extend_from_slice(ps[i]);
        i = i + 1;
    }
    assert(pv.take(pv.len() as int) =~= pv);
    Ok(Some(Payload::Joined(out)))
}

/// The records of the pieces, one piece after another (a piece that does
/// not read as records adds none).
pub open spec fn concat_fields(ps: Seq<Seq<u8>>) -> Seq<SpecWireField>
    decreases ps.len(),
{
    if ps.len() == 0 {
        Seq::empty()
    } else {
        concat_fields(ps.drop_last()) + match wire_fields(ps.last()) {
            Some(f) => f,
            None => Seq::empty(),
        }
    }
}

pub open spec fn opt_fields(m: Option<Vec<WireField<'_>>>) -> Option<Seq<SpecWireField>> {
    match m {
        Some(v) => Some(v.deep_view()),
        None => None,
    }
}

/// A singular message field as `buffa`'s views merge it: occurrence by
/// occurrence, each read as whole records on its own, the records of all of
/// them one after another (a later scalar wins, repeated fields append);
/// `None` when it never occurs. The records keep borrowing the body.
pub open spec fn spec_merged_field(fs: Seq<SpecWireField>, n: u32) -> Option<Option<Seq<SpecWireField>>> {
    if typed(fs, n, WireKind::LengthDelimited) && pieces_parse(payloads(fs, n)) {
        Some(if last_index(fs, n) is Some { Some(concat_fields(payloads(fs, n))) } else { None })
    } else {
        None
    }
}

pub fn merged_field<'a>(fs: &Vec<WireField<'a>>, n: u32) -> (r: Result<Option<Vec<WireField<'a>>>, buffa::DecodeError>)
    requires
        1 <= n < 0x2000_0000,
    ensures
        match (r, spec_merged_field(fs.deep_view(), n)) {
            (Ok(a), Some(b)) => opt_fields(a) == b,
            (Err(_), None) => true,
            _ => false,
        },
{
    let ghost fv = fs.deep_view();
    let ps = match message_list(fs, n) {
        Ok(ps) => ps,
        Err(e) => return Err(e),
    };
    let ghost pv = ps.deep_view();
    proof { lemma_payloads_present(fv, n); }
    if ps.len() == 0 {
        return Ok(None);
    }
    let mut out: Vec<WireField<'a>> = Vec::new();
    let mut i: usize = 0;
    while i < ps.len()
        invariant
            pv == ps.deep_view(),
            pv == payloads(fv, n),
            fv == fs.deep_view(),
            pv.len() > 0,
            typed(fv, n, WireKind::LengthDelimited),
            i <= pv.len(),
            out.deep_view() == concat_fields(pv.take(i as int)),
            forall|j: int| 0 <= j < i ==> #[trigger] wire_fields(pv[j]) is Some,
        decreases pv.len() - i,
    {
        assert(pv.take(i + 1).drop_last() =~= pv.take(i as int));
        assert(pv[i as int] == ps@[i as int]@);
        let mut more = match decode_wire(ps[i]) {
            Ok(v) => v,
            Err(e) => {
                assert(wire_fields(pv[i as int]) is None);
                assert(!pieces_parse(pv));
                return Err(e);
            },
        };
        let ghost before = out.deep_view();
        let ghost added = more.deep_view();
        out.append(&mut more);
        assert(out.deep_view() =~= before + added);
        i = i + 1;
    }
    assert(pv.take(pv.len() as int) =~= pv);
    Ok(Some(out))
}

// ---------------------------------------------------------------------------
// Repeated scalars (each occurrence a single value or a packed run)
// ---------------------------------------------------------------------------

/// The varints packed back to back in `b`.
pub open spec fn unpack_varints(b: Seq<u8>) -> Option<Seq<u64>>
    decreases b.len(),
{
    if b.len() == 0 {
        Some(Seq::empty())
    } else {
        match varint_prefix(b) {
            Some((v, k)) => if 0 < k <= b.len() {
                match unpack_varints(b.subrange(k as int, b.len() as int)) {
                    Some(r) => Some(seq![v] + r),
                    None => None,
                }
            } else {
                None
            },
            None => None,
        }
    }
}

/// A repeated varint field: every value, in order; `None` is a decode error.
pub open spec fn spec_varint_list(fs: Seq<SpecWireField>, n: u32) -> Option<Seq<u64>>
    decreases fs.len(),
{
    if fs.len() == 0 {
        Some(Seq::empty())
    } else {
        let prev = spec_varint_list(fs.drop_last(), n);
        if fs.last().number != n {
            prev
        } else {
            match (prev, fs.last().data) {
                (Some(p), SpecWireData::Varint(v)) => Some(p.push(v)),
                (Some(p), SpecWireData::Bytes(b)) => match unpack_varints(b) {
                    Some(u) => Some(p + u),
                    None => None,
                },
                _ => None,
            }
        }
    }
}

fn unpack_varints_into(b: &[u8], out: &mut Vec<u64>) -> (ok: bool)
    ensures
        match unpack_varints(b@) {
            Some(u) => ok && final(out)@ == old(out)@ + u,
            None => !ok,
        },
{
    let ghost start = out@;
    let mut cur = b;
    while cur.len() > 0
        invariant
            match unpack_varints(b@) {
                Some(u) => unpack_varints(cur@) is Some && start + u == out@ + unpack_varints(cur@).unwrap(),
                None => unpack_varints(cur@) is None,
            },
        decreases cur@.len(),
    {
        match decode_varint_at(cur) {
            Ok((v, rest)) => {
                let ghost c = cur@;
                assert(c.subrange((c.len() - rest@.len()) as int, c.len() as int) == rest@);
                proof {
                    if let Some(r) = unpack_varints(rest@) {
                        assert(out@.push(v) + r =~= out@ + (seq![v] + r));
                    }
                }
                out.push(v);
                cur = rest;
            },
            Err(_) => {
                return false;
            },
        }
    }
    proof {
        if let Some(u) = unpack_varints(b@) {
            assert(out@ + Seq::<u64>::empty() =~= out@);
        }
    }
    true
}

pub fn varint_list(fs: &Vec<WireField>, n: u32) -> (r: Result<Vec<u64>, buffa::DecodeError>)
    requires
        1 <= n < 0x2000_0000,
    ensures
        match (r, spec_varint_list(fs.deep_view(), n)) {
            (Ok(a), Some(b)) => a@ == b,
            (Err(_), None) => true,
            _ => false,
        },
{
    let ghost fv = fs.deep_view();
    let mut out: Vec<u64> = Vec::new();
    let mut i: usize = 0;
    assert(fv.take(0) =~= Seq::<SpecWireField>::empty());
    while i < fs.len()
        invariant
            fv == fs.deep_view(),
            1 <= n < 0x2000_0000,
            i <= fv.len(),
            spec_varint_list(fv.take(i as int), n) == Some(out@),
        decreases fv.len() - i,
    {
        assert(fv.take(i + 1).drop_last() =~= fv.take(i as int));
        assert(fv.take(i + 1).last() == fv[i as int]);
        assert(fv[i as int] == fs@[i as int].deep_view());
        if fs[i].number == n {
            match &fs[i].data {
                WireData::Varint(v) => {
                    out.push(*v);
                },
                WireData::Bytes(b) => {
                    if !unpack_varints_into(b, &mut out) {
                        proof { lemma_list_error_sticks(fv, n, i as int); }
                        return Err(wire_kind_error(n, WireKind::Varint, WireKind::LengthDelimited));
                    }
                },
                _ => {
                    let kind = exec_kind(&fs[i]);
                    proof { lemma_list_error_sticks(fv, n, i as int); }
                    return Err(wire_kind_error(n, WireKind::Varint, kind));
                },
            }
        }
        i = i + 1;
    }
    assert(fv.take(fv.len() as int) =~= fv);
    Ok(out)
}

proof fn lemma_list_error_sticks(fv: Seq<SpecWireField>, n: u32, i: int)
    requires
        0 <= i < fv.len(),
        spec_varint_list(fv.take(i + 1), n) is None,
    ensures
        spec_varint_list(fv, n) is None,
    decreases fv.len() - i,
{
    if i + 1 < fv.len() {
        assert(fv.take(i + 2).drop_last() =~= fv.take(i + 1));
        lemma_list_error_sticks(fv, n, i + 1);
    } else {
        assert(fv.take(i + 1) =~= fv);
    }
}

/// The 64-bit values packed back to back in `b`.
pub open spec fn unpack_fixed64(b: Seq<u8>) -> Option<Seq<u64>> {
    if b.len() % 8 == 0 {
        Some(Seq::new((b.len() / 8) as nat, |k: int| spec_u64_from_le_bytes(b.subrange(8 * k, 8 * k + 8))))
    } else {
        None
    }
}

/// A repeated `double` field, as bit patterns.
pub open spec fn spec_fixed64_list(fs: Seq<SpecWireField>, n: u32) -> Option<Seq<u64>>
    decreases fs.len(),
{
    if fs.len() == 0 {
        Some(Seq::empty())
    } else {
        let prev = spec_fixed64_list(fs.drop_last(), n);
        if fs.last().number != n {
            prev
        } else {
            match (prev, fs.last().data) {
                (Some(p), SpecWireData::Fixed64(v)) => Some(p.push(v)),
                (Some(p), SpecWireData::Bytes(b)) => match unpack_fixed64(b) {
                    Some(u) => Some(p + u),
                    None => None,
                },
                _ => None,
            }
        }
    }
}

fn unpack_fixed64_into(b: &[u8], out: &mut Vec<u64>) -> (ok: bool)
    ensures
        match unpack_fixed64(b@) {
            Some(u) => ok && final(out)@ == old(out)@ + u,
            None => !ok,
        },
{
    if b.len() % 8 != 0 {
        return false;
    }
    let ghost start = out@;
    let ghost u = unpack_fixed64(b@).unwrap();
    let count = b.len() / 8;
    let mut k: usize = 0;
    while k < count
        invariant
            count == b@.len() / 8,
            b@.len() % 8 == 0,
            u == unpack_fixed64(b@).unwrap(),
            k <= count,
            out@ == start + u.take(k as int),
        decreases count - k,
    {
        let blen = b.len();
        assert(8 * k + 8 <= blen) by (nonlinear_arith)
            requires
                k < count,
                count == blen / 8,
                blen % 8 == 0,
        ;
        let j = 8 * k;
        let v = u64_from_le_bytes(&b[j..j + 8]);
        out.push(v);
        assert(u.take(k + 1) =~= u.take(k as int).push(u[k as int]));
        k = k + 1;
    }
    assert(u.take(count as int) =~= u);
    true
}

pub fn fixed64_list(fs: &Vec<WireField>, n: u32) -> (r: Result<Vec<u64>, buffa::DecodeError>)
    requires
        1 <= n < 0x2000_0000,
    ensures
        match (r, spec_fixed64_list(fs.deep_view(), n)) {
            (Ok(a), Some(b)) => a@ == b,
            (Err(_), None) => true,
            _ => false,
        },
{
    let ghost fv = fs.deep_view();
    let mut out: Vec<u64> = Vec::new();
    let mut i: usize = 0;
    assert(fv.take(0) =~= Seq::<SpecWireField>::empty());
    while i < fs.len()
        invariant
            fv == fs.deep_view(),
            1 <= n < 0x2000_0000,
            i <= fv.len(),
            spec_fixed64_list(fv.take(i as int), n) == Some(out@),
        decreases fv.len() - i,
    {
        assert(fv.take(i + 1).drop_last() =~= fv.take(i as int));
        assert(fv.take(i + 1).last() == fv[i as int]);
        assert(fv[i as int] == fs@[i as int].deep_view());
        if fs[i].number == n {
            match &fs[i].data {
                WireData::Fixed64(v) => {
                    out.push(*v);
                },
                WireData::Bytes(b) => {
                    if !unpack_fixed64_into(b, &mut out) {
                        proof { lemma_fixed_error_sticks(fv, n, i as int); }
                        return Err(wire_kind_error(n, WireKind::Fixed64, WireKind::LengthDelimited));
                    }
                },
                _ => {
                    let kind = exec_kind(&fs[i]);
                    proof { lemma_fixed_error_sticks(fv, n, i as int); }
                    return Err(wire_kind_error(n, WireKind::Fixed64, kind));
                },
            }
        }
        i = i + 1;
    }
    assert(fv.take(fv.len() as int) =~= fv);
    Ok(out)
}

proof fn lemma_fixed_error_sticks(fv: Seq<SpecWireField>, n: u32, i: int)
    requires
        0 <= i < fv.len(),
        spec_fixed64_list(fv.take(i + 1), n) is None,
    ensures
        spec_fixed64_list(fv, n) is None,
    decreases fv.len() - i,
{
    if i + 1 < fv.len() {
        assert(fv.take(i + 2).drop_last() =~= fv.take(i + 1));
        lemma_fixed_error_sticks(fv, n, i + 1);
    } else {
        assert(fv.take(i + 1) =~= fv);
    }
}

} // verus!
