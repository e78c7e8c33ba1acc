//! Parsing of the Prometheus / OpenMetrics exposition formats (text and
//! protobuf) into a typed metric model, with framing of whole payloads and an
//! incremental decoder.

pub mod borrowed;
pub mod client;
pub mod drain;
pub mod error;
pub mod frame;
pub mod model;
pub mod owned;
pub mod payload;
pub mod proto;

pub mod text;

pub use error::ParseError;
pub use payload::{parse as parse_payload, Decoder, Format};
pub use proto::parse_family as proto_parse_family;
pub use text::parse_family as text_parse_family;
pub use text::TextFormat;
