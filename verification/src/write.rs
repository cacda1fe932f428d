//! Writing a whole compressed stream out as text: dispatch by the stream's
//! schema identifier to the concrete record type, then by the chosen output
//! encoding.
//!
//! The closed set of record layouts here is two: market-by-order records
//! for the market-by-order schema, and aggregate records for the four
//! aggregate schemas. Every other schema identifier — including the
//! statistics schema, which is recognized but has no record layout — is
//! rejected with a conversion error.

use vstd::prelude::*;
use vstd::string::StringExecFns;
use crate::decode::Decoder;
use crate::encode::{records_fmt, typed_stream, CsvEncoder, DbnEncodable, EncodeDbn, JsonEncoder};
use crate::error::DbnError;
use crate::metadata::{metadata_head, metadata_head_len, metadata_head_ok, MetadataView,
    SCHEMA_MBO, SCHEMA_OHLCV_1D, SCHEMA_OHLCV_1H, SCHEMA_OHLCV_1M, SCHEMA_OHLCV_1S,
    SCHEMA_STATISTICS};
use crate::compress::zstd_frames;
use crate::record::{MboMsg, OhlcvMsg};
use crate::source::BufSource;
use crate::stream::StreamIterDecoder;

verus! {

/// An encoding a stream can be translated to.
#[derive(Clone, Copy, Debug)]
pub enum OutputEncoding {
    /// Comma-separated values.
    Csv,
    /// JavaScript object notation.
    Json,
}

/// Is `schema` one this translation knows a record type for?
pub open spec fn schema_supported(schema: u16) -> bool {
    schema == SCHEMA_MBO || schema == SCHEMA_OHLCV_1S || schema == SCHEMA_OHLCV_1M || schema
        == SCHEMA_OHLCV_1H || schema == SCHEMA_OHLCV_1D
}

/// The full text of a well-typed stream of `T` records under `encoding`.
pub open spec fn typed_text<T: DbnEncodable>(rem: Seq<u8>, encoding: OutputEncoding) -> Option<
    Seq<char>,
> {
    match typed_stream::<T>(rem) {
        None => None,
        Some(rs) => Some(
            match encoding {
                OutputEncoding::Csv => records_fmt::<CsvEncoder, T>(rs),
                OutputEncoding::Json => records_fmt::<JsonEncoder, T>(rs),
            },
        ),
    }
}

/// The full text of a stream under its schema's record type and `encoding`.
pub open spec fn write_out_spec(schema: u16, rem: Seq<u8>, encoding: OutputEncoding) -> Option<
    Seq<char>,
> {
    if schema == SCHEMA_MBO {
        typed_text::<MboMsg>(rem, encoding)
    } else if schema == SCHEMA_OHLCV_1S || schema == SCHEMA_OHLCV_1M || schema == SCHEMA_OHLCV_1H
        || schema == SCHEMA_OHLCV_1D {
        typed_text::<OhlcvMsg>(rem, encoding)
    } else {
        None
    }
}

/// A whole compressed stream, opened for translation to a text encoding.
pub struct Dbz {
    decoder: Decoder<BufSource>,
}

impl Dbz {
    /// The decoder is usable and its in-memory source cannot fail.
    pub closed spec fn wf(self) -> bool {
        self.decoder.wf() && self.decoder.src_infallible()
    }

    /// The record bytes not yet consumed.
    pub closed spec fn rem(self) -> Seq<u8> {
        self.decoder.rem()
    }

    /// The stream's metadata.
    pub closed spec fn metadata_spec(self) -> MetadataView {
        self.decoder.metadata_spec()
    }

    /// Opens a compressed stream: decompresses every frame, then decodes
    /// the stream head.
    pub fn from_bytes(compressed: Vec<u8>) -> (r: Result<Dbz, DbnError>)
        ensures
            zstd_frames(compressed@) matches Some(content) ==> (r is Ok <==> metadata_head_ok(
                content,
            )),
            match r {
                Ok(d) => zstd_frames(compressed@) matches Some(content) && metadata_head_ok(
                    content,
                ) && d.wf() && d.metadata_spec() == metadata_head(content) && d.rem()
                    == content.skip(metadata_head_len(content) as int),
                Err(e) => e is Decode || e is Io,
            },
    {
        match Decoder::<BufSource>::with_zstd(compressed) {
            Ok(decoder) => Ok(Dbz { decoder }),
            Err(e) => Err(e),
        }
    }

    /// The stream's schema identifier.
    pub fn schema(&self) -> (s: u16)
        ensures
            s == self.metadata_spec().schema,
    {
        self.decoder.metadata().schema
    }

    /// Translates the stream's records to `encoding`, consuming the stream.
    /// Fails on a schema with no known record type; a malformed record tail
    /// ends the output early, as the pull-based cursor underneath swallows
    /// its own failures.
    pub fn write_to(self, encoding: OutputEncoding) -> (r: Result<String, DbnError>)
        requires
            self.wf(),
        ensures
            match r {
                Ok(t) => schema_supported(self.metadata_spec().schema) && (write_out_spec(
                    self.metadata_spec().schema,
                    self.rem(),
                    encoding,
                ) matches Some(txt) ==> t@ == txt),
                Err(e) => !schema_supported(self.metadata_spec().schema) && e is Conversion
                    && (self.metadata_spec().schema == SCHEMA_STATISTICS ==> e.message_spec()
                    == "Not implemented for schema Statistics"@),
            },
    {
        let schema = self.decoder.metadata().schema;
        if schema == SCHEMA_MBO {
            self.write_with_tick_to::<MboMsg>(encoding)
        } else if schema == SCHEMA_OHLCV_1S || schema == SCHEMA_OHLCV_1M || schema
            == SCHEMA_OHLCV_1H || schema == SCHEMA_OHLCV_1D {
            self.write_with_tick_to::<OhlcvMsg>(encoding)
        } else if schema == SCHEMA_STATISTICS {
            Err(DbnError::Conversion(String::from_str("Not implemented for schema Statistics")))
        } else {
            Err(DbnError::Conversion(String::from_str("unrecognized schema")))
        }
    }

    /// Translates the stream's records as concrete type `T`.
    fn write_with_tick_to<T: DbnEncodable>(self, encoding: OutputEncoding) -> (r: Result<
        String,
        DbnError,
    >)
        requires
            self.wf(),
        ensures
            r is Ok,
            r matches Ok(t) ==> (typed_text::<T>(self.rem(), encoding) matches Some(txt) ==> t@
                == txt),
    {
        let stream = StreamIterDecoder::<BufSource, T>::new(self.decoder);
        match encoding {
            OutputEncoding::Csv => {
                let mut enc = CsvEncoder::new();
                match enc.encode_stream(stream) {
                    Ok(u) => u,
                    Err(e) => {
                        return Err(e);
                    },
                };
                Ok(enc.into_inner())
            },
            OutputEncoding::Json => {
                let mut enc = JsonEncoder::new();
                match enc.encode_stream(stream) {
                    Ok(u) => u,
                    Err(e) => {
                        return Err(e);
                    },
                };
                Ok(enc.into_inner())
            },
        }
    }
}

} // verus!
