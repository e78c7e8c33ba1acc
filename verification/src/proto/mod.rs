//! The protobuf exposition format: length-delimited framing, the messages of
//! the `io.prometheus.client` schema, and their translation into the metric
//! model.

use vstd::prelude::*;

pub mod scan;
pub mod translate;
pub mod unique;
pub mod view;
pub mod wire;

use crate::borrowed::{family_borrows, MetricFamily};
use crate::error::ParseError;
use crate::model::SpecFamily;
use translate::{spec_family, translate_family};
use unique::law_proto_translation_is_determined;
use view::{decode_family, family_decodes, family_ok, FamilyView};

verus! {

/// What a `MetricFamily` message body parses to: `None` when it does not
/// decode, else the translation of what it holds (the message of the first
/// missing required field on failure). Every decoding of the body
/// translates alike (`unique::law_proto_translation_is_determined`), so
/// the one chosen here is as good as any.
pub open spec fn spec_proto_family(b: Seq<u8>) -> Option<Result<SpecFamily, Seq<char>>> {
    if family_decodes(b) {
        Some(spec_family(choose|v: FamilyView<'_>| family_ok(b, v)))
    } else {
        None
    }
}

/// Parse one `MetricFamily` message body.
///
/// A body that does not decode is a `ProtoDecodeError`; a decoded family
/// that lacks a required field is a `MissingField` error naming it;
/// otherwise the result is the translation of what the body holds.
/// Zero-copy: every string of the family borrows `bytes`.
pub fn parse_family(bytes: &[u8]) -> (r: Result<MetricFamily<'_>, ParseError>)
    ensures
        match (r, spec_proto_family(bytes@)) {
            (Ok(f), Some(Ok(sf))) => f.deep_view() == sf,
            (Err(ParseError::MissingField(m)), Some(Err(e))) => m@ == e,
            (Err(ParseError::ProtoDecodeError(_)), None) => true,
            _ => false,
        },
        r is Ok ==> family_borrows(r->Ok_0),
{
    let view = match decode_family(bytes) {
        Ok(v) => v,
        Err(e) => return Err(ParseError::ProtoDecodeError(e)),
    };
    let ghost v = view;
    let r = translate_family(view);
    proof {
        assert(family_ok(bytes@, v));
        let w = choose|w: FamilyView<'_>| family_ok(bytes@, w);
        law_proto_translation_is_determined(bytes@, v, w);
    }
    r
}

} // verus!
