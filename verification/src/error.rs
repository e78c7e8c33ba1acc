//! The per-family parse error.

use vstd::prelude::*;

verus! {

#[verifier::external_type_specification]
#[verifier::external_body]
pub struct ExDecodeError(buffa::DecodeError);

#[verifier::external_type_specification]
#[verifier::external_body]
pub struct ExUtf8Error(core::str::Utf8Error);

/// Everything that can go wrong while parsing a single metric family.
///
/// These are per-family: the payload iterators surface one of these for a
/// malformed family and then continue with the next.
#[derive(Debug)]
pub enum ParseError {
    /// A required protobuf field was absent from the message.
    MissingField(String),
    /// A field held a value outside its allowed range or shape, given as
    /// `(field, value)`.
    InvalidFieldValue((String, String)),
    /// The protobuf message body could not be decoded (corrupt wire bytes).
    ProtoDecodeError(buffa::DecodeError),
    /// A text-exposition line that could not be parsed as a sample. Carries the
    /// offending line (without its trailing newline).
    InvalidLine(String),
    /// A text-exposition frame that was not valid UTF-8.
    InvalidUtf8(core::str::Utf8Error),
    /// A frame that could not be delimited: a protobuf length prefix that was
    /// malformed, or a frame truncated at end of input.
    IncompleteFrame,
}

/// `String::push_str`: appends `t` to the end of `s`.
#[verifier::external_body]
fn push_str(s: &mut String, t: &str)
    ensures
        final(s)@ == old(s)@ + t@,
{
    s.push_str(t)
}

/// The text `buffa::DecodeError`'s `Display` gives. Nothing is claimed of it.
#[verifier::external_body]
fn decode_error_text(e: &buffa::DecodeError) -> (r: String) {
    format!("{}", e)
}

/// The text `core::str::Utf8Error`'s `Display` gives. Nothing is claimed of
/// it.
#[verifier::external_body]
fn utf8_error_text(e: &core::str::Utf8Error) -> (r: String) {
    format!("{}", e)
}

/// `prefix` followed by `rest`.
fn joined(prefix: &str, rest: &str) -> (r: String)
    ensures
        r@ == prefix@ + rest@,
{
    let mut s = prefix.to_string();
    push_str(&mut s, rest);
    s
}

impl ParseError {
    /// A one-line, human-readable description of the error.
    pub fn message(&self) -> (r: String)
        ensures
            match self {
                ParseError::MissingField(f) => r@ == "missing required field: "@ + f@,
                ParseError::InvalidFieldValue((f, v)) => r@ == "invalid field value: "@ + f@ + " = "@ + v@,
                ParseError::ProtoDecodeError(_) => "protobuf decode error: "@.is_prefix_of(r@),
                ParseError::InvalidLine(l) => r@ == "invalid text exposition line: "@ + l@,
                ParseError::InvalidUtf8(_) => "invalid UTF-8 in text frame: "@.is_prefix_of(r@),
                ParseError::IncompleteFrame => r@ == "incomplete or malformed frame"@,
            },
    {
        match self {
            ParseError::MissingField(f) => joined("missing required field: ", f.as_str()),
            ParseError::InvalidFieldValue((f, v)) => {
                let mut s = joined("invalid field value: ", f.as_str());
                push_str(&mut s, " = ");
                push_str(&mut s, v.as_str());
                s
            },
            ParseError::ProtoDecodeError(e) => {
                let t = decode_error_text(e);
                let s = joined("protobuf decode error: ", t.as_str());
                assert(s@.subrange(0, "protobuf decode error: "@.len() as int) =~= "protobuf decode error: "@);
                s
            },
            ParseError::InvalidLine(l) => joined("invalid text exposition line: ", l.as_str()),
            ParseError::InvalidUtf8(e) => {
                let t = utf8_error_text(e);
                let s = joined("invalid UTF-8 in text frame: ", t.as_str());
                assert(s@.subrange(0, "invalid UTF-8 in text frame: "@.len() as int) =~= "invalid UTF-8 in text frame: "@);
                s
            },
            ParseError::IncompleteFrame => "incomplete or malformed frame".to_string(),
        }
    }
}

} // verus!
