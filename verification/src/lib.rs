//! A binary record codec for length-prefixed, self-describing market-data
//! streams: version-gated metadata parsing, one-record-at-a-time framing over
//! a reusable buffer, runtime-type-checked record views, streaming pull-based
//! decoding, transparent multi-frame compressed input, and dispatch of decoded
//! records to binary, row-text, or object-text output encodings.

pub mod compress;
pub mod decode;
pub mod encode;
pub mod error;
pub mod metadata;
pub mod record;
pub mod record_ref;
pub mod source;
pub mod stream;
pub mod wire;
pub mod write;
