//! Record framing: reading one length-prefixed record at a time from a byte
//! source into a reusable buffer, and exposing a zero-copy view over it.

use vstd::prelude::*;
use vstd::string::StringExecFns;
use crate::error::{append_dec, context_message, dec_chars_of, has_prefix, DbnError};
use crate::metadata::{magic_ok, metadata_head, metadata_head_len, metadata_head_ok, parse_block,
    parse_metadata_block, Metadata, MetadataView, DBN_VERSION};
use crate::record::{rec_len, HasRType, LENGTH_MULTIPLIER, RECORD_HEADER_LEN};
use crate::record_ref::RecordRef;
use crate::source::{BufSource, ByteSource, ReadOutcome};
use crate::compress::{zstd_decompress, zstd_frames};
use crate::wire::{le_nat, lemma_le_nat_bound, lemma_pow256_values, read_le};

verus! {

/// The message of the decode error for a record length prefix that declares
/// fewer bytes than a record header occupies.
pub open spec fn invalid_length_msg(len: nat) -> Seq<char> {
    "Invalid record with length "@ + dec_chars_of(len) + " shorter than header"@
}

/// The message of the conversion error for a record whose actual rtype does
/// not match the requested concrete type.
pub open spec fn conversion_msg(rtype: u8) -> Seq<char> {
    "record with rtype "@ + dec_chars_of(rtype as nat)
}

fn invalid_length_message(len: usize) -> (s: String)
    ensures
        s@ == invalid_length_msg(len as nat),
{
    let mut s = String::from_str("Invalid record with length ");
    append_dec(&mut s, len as u64);
    s.append(" shorter than header");
    s
}

fn conversion_message(rtype: u8) -> (s: String)
    ensures
        s@ == conversion_msg(rtype),
{
    let mut s = String::from_str("record with rtype ");
    append_dec(&mut s, rtype as u64);
    s
}

/// Does `rem` begin with one complete, well-framed record?
pub open spec fn frames_record(rem: Seq<u8>) -> bool {
    rem.len() >= 1 && rec_len(rem[0]) >= 16 && rem.len() >= rec_len(rem[0])
}

/// Is `rem` a clean end of the record stream: no bytes at all, or a final
/// record cut short before its declared length?
pub open spec fn frames_end(rem: Seq<u8>) -> bool {
    rem.len() == 0 || (rec_len(rem[0]) >= 16 && rem.len() < rec_len(rem[0]))
}

/// Does `rem` begin with a length prefix declaring fewer bytes than a record
/// header occupies?
pub open spec fn frames_invalid(rem: Seq<u8>) -> bool {
    rem.len() >= 1 && rec_len(rem[0]) < 16
}

/// The declared length of the record at the front of `rem`.
pub open spec fn frame_len(rem: Seq<u8>) -> nat
    recommends
        rem.len() >= 1,
{
    rec_len(rem[0])
}

/// A decoder for a stream of length-prefixed records.
///
/// The decoder owns a reusable buffer, allocated once and grown but never
/// shrunk: each decode call overwrites it, which is why the record views it
/// hands out live only until the next call.
pub struct RecordDecoder<S: ByteSource> {
    source: S,
    buffer: Vec<u8>,
}

impl<S: ByteSource> RecordDecoder<S> {
    /// The decoder's reusable buffer holds at least one byte, so a length
    /// prefix always has somewhere to land. Established at construction and
    /// preserved by every call: the buffer grows but never shrinks.
    pub closed spec fn wf(self) -> bool {
        self.buffer@.len() >= 1
    }

    /// The bytes the decoder's source has yet to yield.
    pub closed spec fn rem(self) -> Seq<u8> {
        self.source.remaining()
    }

    /// Whether the decoder's source can only succeed or end cleanly.
    pub closed spec fn src_infallible(self) -> bool {
        self.source.infallible()
    }

    /// The length of the decoder's reusable buffer: grown on demand by
    /// decode calls, never shrunk, so smaller later records use a prefix of
    /// it.
    pub closed spec fn buf_len(self) -> nat {
        self.buffer@.len()
    }

    /// A decoder reading records from `source`, with a buffer of one
    /// scaling unit allocated up front.
    pub fn new(source: S) -> (d: RecordDecoder<S>)
        ensures
            d.wf(),
            d.rem() == source.remaining(),
            d.src_infallible() == source.infallible(),
            d.buf_len() == LENGTH_MULTIPLIER,
    {
        RecordDecoder { source, buffer: vec![0u8; LENGTH_MULTIPLIER] }
    }

    /// Consumes the decoder and returns its source.
    pub fn into_inner(self) -> (s: S)
        ensures
            s.remaining() == self.rem(),
            s.infallible() == self.src_infallible(),
    {
        self.source
    }

    /// A mutable reference to the decoder's source.
    pub fn get_mut(&mut self) -> (r: &mut S)
        ensures
            r.remaining() == old(self).rem(),
            r.infallible() == old(self).src_infallible(),
            final(self).rem() == final(r).remaining(),
            final(self).src_infallible() == final(r).infallible(),
            final(self).wf() == old(self).wf(),
    {
        &mut self.source
    }

    /// Decodes the next record and returns a view of it that lives until the
    /// decoder's next call. Returns `Ok(None)` on clean end-of-stream, and
    /// also when the final record is cut short before its declared length.
    pub fn decode_ref<'a>(&'a mut self) -> (r: Result<Option<RecordRef<'a>>, DbnError>)
        requires
            old(self).wf(),
        ensures
            final(self).wf(),
            final(self).src_infallible() == old(self).src_infallible(),
            final(self).buf_len() >= old(self).buf_len(),
            match r {
                Ok(Some(rr)) => frames_record(old(self).rem()) && rr.wf() && rr.bytes_spec()
                    == old(self).rem().take(frame_len(old(self).rem()) as int) && final(self).rem()
                    == old(self).rem().skip(frame_len(old(self).rem()) as int)
                    && final(self).buf_len() >= rr.bytes_spec().len(),
                Ok(None) => frames_end(old(self).rem()) && final(self).rem().len() == 0,
                Err(e) => (e is Decode && frames_invalid(old(self).rem()) && e.message_spec()
                    == invalid_length_msg(frame_len(old(self).rem()))) || (e is Io && !old(
                    self,
                ).src_infallible() && has_prefix(
                    e.message_spec(),
                    "decoding record reference"@ + ": "@,
                )),
            },
            old(self).src_infallible() && frames_record(old(self).rem()) ==> (r matches Ok(r0)
                && r0 is Some),
            old(self).src_infallible() && frames_end(old(self).rem()) ==> r matches Ok(None),
            old(self).src_infallible() && frames_invalid(old(self).rem()) ==> (r matches Err(e)
                && e is Decode),
    {
        match self.source.read_into(&mut self.buffer, 0, 1) {
            ReadOutcome::EndOfStream => {
                return Ok(None);
            },
            ReadOutcome::Failed(detail) => {
                let m = context_message("decoding record reference", detail.as_str());
                proof {
                    assert(m@.take(("decoding record reference"@ + ": "@).len() as int)
                        =~= "decoding record reference"@ + ": "@);
                }
                return Err(DbnError::Io(m));
            },
            ReadOutcome::Filled => {},
        }
        let ghost rem = old(self).rem();
        let prefix = self.buffer[0];
        proof {
            assert(self.buffer@[0] == self.buffer@.subrange(0, 1)[0]);
            assert(rem.take(1)[0] == rem[0]);
            assert(prefix == rem[0]);
        }
        let length = prefix as usize * LENGTH_MULTIPLIER;
        if length > self.buffer.len() {
            self.buffer.resize(length, 0u8);
        }
        if length < RECORD_HEADER_LEN {
            return Err(DbnError::Decode(invalid_length_message(length)));
        }
        match self.source.read_into(&mut self.buffer, 1, length - 1) {
            ReadOutcome::EndOfStream => {
                proof {
                    assert(rem.skip(1).len() == rem.len() - 1);
                }
                Ok(None)
            },
            ReadOutcome::Failed(detail) => {
                let m = context_message("decoding record reference", detail.as_str());
                proof {
                    assert(m@.take(("decoding record reference"@ + ": "@).len() as int)
                        =~= "decoding record reference"@ + ": "@);
                }
                Err(DbnError::Io(m))
            },
            ReadOutcome::Filled => {
                proof {
                    assert(self.buffer@.subrange(1, length as int) == rem.skip(1).take(
                        length - 1,
                    ));
                    assert(self.buffer@.subrange(0, length as int) =~= rem.take(
                        length as int,
                    )) by {
                        assert(forall|j: int|
                            1 <= j < length ==> self.buffer@.subrange(1, length as int)[j - 1]
                                == self.buffer@[j]);
                            assert(forall|j: int|
                            1 <= j < length ==> rem.skip(1).take(length - 1)[j - 1] == rem[j]);
                    }
                    assert(self.source.remaining() =~= rem.skip(length as int));
                }
                proof {
                    assert(self.buffer@.len() >= length);
                }
                let bytes = &self.buffer.as_slice()[0..length];
                Ok(Some(RecordRef::new(bytes)))
            },
        }
    }

    /// Decodes the next record as concrete type `T`. Returns `Ok(None)` on
    /// clean end-of-stream (including a truncated final record), and a
    /// conversion error naming the actual rtype when the next record is of a
    /// different type than `T`.
    pub fn decode<T: HasRType>(&mut self) -> (r: Result<Option<T>, DbnError>)
        requires
            old(self).wf(),
        ensures
            final(self).wf(),
            final(self).src_infallible() == old(self).src_infallible(),
            final(self).buf_len() >= old(self).buf_len(),
            match r {
                Ok(Some(t)) => frames_record(old(self).rem()) && T::parse_spec(
                    old(self).rem().take(frame_len(old(self).rem()) as int),
                ) == Some(t) && final(self).rem() == old(self).rem().skip(
                    frame_len(old(self).rem()) as int,
                ),
                Ok(None) => frames_end(old(self).rem()) && final(self).rem().len() == 0,
                Err(e) => (e is Decode && frames_invalid(old(self).rem()) && e.message_spec()
                    == invalid_length_msg(frame_len(old(self).rem()))) || (e is Io && !old(
                    self,
                ).src_infallible() && has_prefix(
                    e.message_spec(),
                    "decoding record reference"@ + ": "@,
                )) || (e is Conversion && frames_record(old(self).rem())
                    && T::parse_spec(
                    old(self).rem().take(frame_len(old(self).rem()) as int),
                ) is None && e.message_spec() == conversion_msg(old(self).rem()[1])),
            },
            old(self).src_infallible() && frames_record(old(self).rem()) && T::parse_spec(
                old(self).rem().take(frame_len(old(self).rem()) as int),
            ) is Some ==> (r matches Ok(r0) && r0 is Some),
            old(self).src_infallible() && frames_end(old(self).rem()) ==> r matches Ok(None),
    {
        let rec_ref = match self.decode_ref() {
            Ok(Some(rr)) => rr,
            Ok(None) => {
                return Ok(None);
            },
            Err(e) => {
                return Err(e);
            },
        };
        let ghost rem = old(self).rem();
        match rec_ref.get::<T>() {
            Some(t) => Ok(Some(t)),
            None => {
                let rtype = rec_ref.header().rtype;
                proof {
                    assert(rem.take(frame_len(rem) as int)[1] == rem[1]);
                }
                Err(DbnError::Conversion(conversion_message(rtype)))
            },
        }
    }
}

/// The message of the decode error for a stream declaring a newer format
/// version than this decoder understands.
pub open spec fn newer_version_msg(version: u8) -> Seq<char> {
    "Can't decode newer version of DBN. Decoder version is "@ + dec_chars_of(2)
        + ", input version is "@ + dec_chars_of(version as nat)
}

fn newer_version_message(version: u8) -> (s: String)
    ensures
        s@ == newer_version_msg(version),
{
    let mut s = String::from_str("Can't decode newer version of DBN. Decoder version is ");
    append_dec(&mut s, DBN_VERSION as u64);
    s.append(", input version is ");
    append_dec(&mut s, version as u64);
    s
}

/// A decoder for the metadata at the head of a stream.
pub struct MetadataDecoder<S: ByteSource> {
    source: S,
}

impl<S: ByteSource> MetadataDecoder<S> {
    /// The bytes the decoder's source has yet to yield.
    pub closed spec fn rem(self) -> Seq<u8> {
        self.source.remaining()
    }

    /// Whether the decoder's source can only succeed or end cleanly.
    pub closed spec fn src_infallible(self) -> bool {
        self.source.infallible()
    }

    /// A metadata decoder reading from `source`.
    pub fn new(source: S) -> (d: MetadataDecoder<S>)
        ensures
            d.rem() == source.remaining(),
            d.src_infallible() == source.infallible(),
    {
        MetadataDecoder { source }
    }

    /// Consumes the decoder and returns its source.
    pub fn into_inner(self) -> (s: S)
        ensures
            s.remaining() == self.rem(),
            s.infallible() == self.src_infallible(),
    {
        self.source
    }

    /// A mutable reference to the decoder's source.
    pub fn get_mut(&mut self) -> (r: &mut S)
        ensures
            r.remaining() == old(self).rem(),
            r.infallible() == old(self).src_infallible(),
            final(self).rem() == final(r).remaining(),
            final(self).src_infallible() == final(r).infallible(),
    {
        &mut self.source
    }

    /// Decodes the stream head: validates the magic, gates on the declared
    /// format version, reads the declared metadata block, and parses it
    /// under that version's layout, leaving the source positioned at the
    /// first record.
    pub fn decode(&mut self) -> (r: Result<Metadata, DbnError>)
        ensures
            final(self).src_infallible() == old(self).src_infallible(),
            match r {
                Ok(m) => metadata_head_ok(old(self).rem()) && m@ == metadata_head(
                    old(self).rem(),
                ) && m@.wf() && final(self).rem() == old(self).rem().skip(
                    metadata_head_len(old(self).rem()) as int,
                ),
                Err(e) => ({
                    let rem = old(self).rem();
                    &&& (e is Decode || e is Io)
                    &&& (e is Decode ==> rem.len() >= 8 && {
                        ||| (!magic_ok(rem) && e.message_spec() == "Invalid DBN header"@)
                        ||| (magic_ok(rem) && rem[3] > 2 && e.message_spec()
                            == newer_version_msg(rem[3]))
                        ||| (magic_ok(rem) && rem[3] <= 2 && le_nat(rem.subrange(4, 8)) < 56
                            && e.message_spec()
                            == "Invalid DBN metadata. Metadata length shorter than fixed length."@)
                        ||| (magic_ok(rem) && rem[3] <= 2 && le_nat(rem.subrange(4, 8)) >= 56
                            && rem.len() >= metadata_head_len(rem) && parse_block(
                            rem[3],
                            rem.subrange(8, metadata_head_len(rem) as int),
                        ) is None)
                    })
                    &&& (e is Io ==> !old(self).src_infallible() || rem.len() < 8 || (magic_ok(
                        rem,
                    ) && rem[3] <= 2 && le_nat(rem.subrange(4, 8)) >= 56 && rem.len()
                        < metadata_head_len(rem)))
                    &&& (e is Io ==> has_prefix(
                        e.message_spec(),
                        "reading metadata prelude"@ + ": "@,
                    ) || has_prefix(e.message_spec(), "reading fixed metadata"@ + ": "@))
                    &&& (e is Io && old(self).src_infallible() && rem.len() < 8 ==> has_prefix(
                        e.message_spec(),
                        "reading metadata prelude"@ + ": "@,
                    ))
                    &&& (e is Io && old(self).src_infallible() && rem.len() >= 8 ==> has_prefix(
                        e.message_spec(),
                        "reading fixed metadata"@ + ": "@,
                    ))
                }),
            },
            old(self).src_infallible() ==> (r is Ok <==> metadata_head_ok(old(self).rem())),
    {
        let ghost rem = old(self).rem();
        let mut pre: Vec<u8> = vec![0u8; 8];
        match self.source.read_into(&mut pre, 0, 8) {
            ReadOutcome::Filled => {},
            ReadOutcome::EndOfStream => {
                let m = context_message("reading metadata prelude", "unexpected end of stream");
                proof {
                    assert(m@.take(("reading metadata prelude"@ + ": "@).len() as int)
                        =~= "reading metadata prelude"@ + ": "@);
                }
                return Err(DbnError::Io(m));
            },
            ReadOutcome::Failed(detail) => {
                let m = context_message("reading metadata prelude", detail.as_str());
                proof {
                    assert(m@.take(("reading metadata prelude"@ + ": "@).len() as int)
                        =~= "reading metadata prelude"@ + ": "@);
                }
                return Err(DbnError::Io(m));
            },
        }
        proof {
            assert(pre@ =~= rem.take(8));
            assert(forall|i: int| 0 <= i < 8 ==> rem.take(8)[i] == rem[i]);
        }
        if !(pre[0] == 0x44 && pre[1] == 0x42 && pre[2] == 0x4e) {
            return Err(DbnError::Decode(String::from_str("Invalid DBN header")));
        }
        let version = pre[3];
        if version > DBN_VERSION {
            return Err(DbnError::Decode(newer_version_message(version)));
        }
        proof {
            assert(pre@.subrange(4, 8) =~= rem.subrange(4, 8));
            lemma_le_nat_bound(rem.subrange(4, 8));
            lemma_pow256_values();
        }
        let length64 = read_le(pre.as_slice(), 4, 4);
        if length64 < 56 {
            return Err(
                DbnError::Decode(
                    String::from_str(
                        "Invalid DBN metadata. Metadata length shorter than fixed length.",
                    ),
                ),
            );
        }
        let length = length64 as usize;
        let mut block: Vec<u8> = vec![0u8; length];
        match self.source.read_into(&mut block, 0, length) {
            ReadOutcome::Filled => {},
            ReadOutcome::EndOfStream => {
                let m = context_message("reading fixed metadata", "unexpected end of stream");
                proof {
                    assert(m@.take(("reading fixed metadata"@ + ": "@).len() as int)
                        =~= "reading fixed metadata"@ + ": "@);
                }
                return Err(DbnError::Io(m));
            },
            ReadOutcome::Failed(detail) => {
                let m = context_message("reading fixed metadata", detail.as_str());
                proof {
                    assert(m@.take(("reading fixed metadata"@ + ": "@).len() as int)
                        =~= "reading fixed metadata"@ + ": "@);
                }
                return Err(DbnError::Io(m));
            },
        }
        proof {
            let mid = rem.skip(8);
            assert(block@.subrange(0, length as int) =~= block@);
            assert(mid.take(length as int) =~= rem.subrange(8, 8 + length as int));
            assert(block@ == rem.subrange(8, 8 + length as int));
            assert(self.source.remaining() =~= rem.skip(metadata_head_len(rem) as int));
        }
        parse_metadata_block(version, block.as_slice())
    }
}

/// A decoder for a whole stream: its metadata, decoded once at construction,
/// and then its records one at a time.
pub struct Decoder<S: ByteSource> {
    metadata: Metadata,
    decoder: RecordDecoder<S>,
}

impl<S: ByteSource> Decoder<S> {
    /// The record decoder's buffer is usable.
    pub closed spec fn wf(self) -> bool {
        self.decoder.wf()
    }

    /// The bytes the decoder's source has yet to yield.
    pub closed spec fn rem(self) -> Seq<u8> {
        self.decoder.rem()
    }

    /// Whether the decoder's source can only succeed or end cleanly.
    pub closed spec fn src_infallible(self) -> bool {
        self.decoder.src_infallible()
    }

    /// The stream's metadata.
    pub closed spec fn metadata_spec(self) -> MetadataView {
        self.metadata@
    }

    /// Decodes the stream head from `source` and returns a decoder
    /// positioned at the first record.
    pub fn new(source: S) -> (r: Result<Decoder<S>, DbnError>)
        ensures
            match r {
                Ok(d) => metadata_head_ok(source.remaining()) && d.wf() && d.metadata_spec()
                    == metadata_head(source.remaining()) && d.metadata_spec().wf() && d.rem()
                    == source.remaining().skip(metadata_head_len(source.remaining()) as int)
                    && d.src_infallible() == source.infallible(),
                Err(e) => e is Decode || e is Io,
            },
            source.infallible() ==> (r is Ok <==> metadata_head_ok(source.remaining())),
    {
        let mut md = MetadataDecoder::new(source);
        let metadata = match md.decode() {
            Ok(m) => m,
            Err(e) => {
                return Err(e);
            },
        };
        Ok(Decoder { metadata, decoder: RecordDecoder::new(md.into_inner()) })
    }

    /// A reference to the stream's metadata.
    pub fn metadata(&self) -> (m: &Metadata)
        ensures
            m@ == self.metadata_spec(),
    {
        &self.metadata
    }

    /// A mutable reference to the decoder's source.
    pub fn get_mut(&mut self) -> (r: &mut S)
        ensures
            r.remaining() == old(self).rem(),
            r.infallible() == old(self).src_infallible(),
            final(self).rem() == final(r).remaining(),
            final(self).src_infallible() == final(r).infallible(),
            final(self).wf() == old(self).wf(),
            final(self).metadata_spec() == old(self).metadata_spec(),
    {
        self.decoder.get_mut()
    }

    /// Decodes the next record and returns a view of it that lives until
    /// the decoder's next call. Returns `Ok(None)` on clean end-of-stream,
    /// including a truncated final record.
    pub fn decode_record_ref<'a>(&'a mut self) -> (r: Result<Option<RecordRef<'a>>, DbnError>)
        requires
            old(self).wf(),
        ensures
            final(self).wf(),
            final(self).src_infallible() == old(self).src_infallible(),
            final(self).metadata_spec() == old(self).metadata_spec(),
            match r {
                Ok(Some(rr)) => frames_record(old(self).rem()) && rr.wf() && rr.bytes_spec()
                    == old(self).rem().take(frame_len(old(self).rem()) as int) && final(self).rem()
                    == old(self).rem().skip(frame_len(old(self).rem()) as int),
                Ok(None) => frames_end(old(self).rem()) && final(self).rem().len() == 0,
                Err(e) => (e is Decode && frames_invalid(old(self).rem()) && e.message_spec()
                    == invalid_length_msg(frame_len(old(self).rem()))) || (e is Io && !old(
                    self,
                ).src_infallible() && has_prefix(
                    e.message_spec(),
                    "decoding record reference"@ + ": "@,
                )),
            },
            old(self).src_infallible() && frames_record(old(self).rem()) ==> (r matches Ok(r0)
                && r0 is Some),
            old(self).src_infallible() && frames_end(old(self).rem()) ==> r matches Ok(None),
            old(self).src_infallible() && frames_invalid(old(self).rem()) ==> (r matches Err(e)
                && e is Decode),
    {
        self.decoder.decode_ref()
    }

    /// Decodes the next record as concrete type `T`. Returns `Ok(None)` on
    /// clean end-of-stream, and a conversion error naming the actual rtype
    /// when the next record is of a different type than `T`.
    pub fn decode_record<T: HasRType>(&mut self) -> (r: Result<Option<T>, DbnError>)
        requires
            old(self).wf(),
        ensures
            final(self).wf(),
            final(self).src_infallible() == old(self).src_infallible(),
            final(self).metadata_spec() == old(self).metadata_spec(),
            match r {
                Ok(Some(t)) => frames_record(old(self).rem()) && T::parse_spec(
                    old(self).rem().take(frame_len(old(self).rem()) as int),
                ) == Some(t) && final(self).rem() == old(self).rem().skip(
                    frame_len(old(self).rem()) as int,
                ),
                Ok(None) => frames_end(old(self).rem()) && final(self).rem().len() == 0,
                Err(e) => (e is Decode && frames_invalid(old(self).rem()) && e.message_spec()
                    == invalid_length_msg(frame_len(old(self).rem()))) || (e is Io && !old(
                    self,
                ).src_infallible() && has_prefix(
                    e.message_spec(),
                    "decoding record reference"@ + ": "@,
                )) || (e is Conversion && frames_record(old(self).rem())
                    && T::parse_spec(
                    old(self).rem().take(frame_len(old(self).rem()) as int),
                ) is None && e.message_spec() == conversion_msg(old(self).rem()[1])),
            },
            old(self).src_infallible() && frames_record(old(self).rem()) && T::parse_spec(
                old(self).rem().take(frame_len(old(self).rem()) as int),
            ) is Some ==> (r matches Ok(r0) && r0 is Some),
            old(self).src_infallible() && frames_end(old(self).rem()) ==> r matches Ok(None),
    {
        self.decoder.decode::<T>()
    }

    /// Consumes the decoder and returns its source.
    pub fn into_inner(self) -> (s: S)
        ensures
            s.remaining() == self.rem(),
            s.infallible() == self.src_infallible(),
    {
        self.decoder.into_inner()
    }
}

impl MetadataDecoder<BufSource> {
    /// A metadata decoder over a compressed byte string, possibly made of
    /// several concatenated frames; the whole input is decompressed up
    /// front.
    pub fn with_zstd(compressed: Vec<u8>) -> (r: Result<MetadataDecoder<BufSource>, DbnError>)
        ensures
            zstd_frames(compressed@) is Some ==> r is Ok,
            match r {
                Ok(d) => zstd_frames(compressed@) == Some(d.rem()) && d.src_infallible(),
                Err(e) => e is Io && zstd_frames(compressed@) is None,
            },
    {
        match zstd_decompress(&compressed) {
            Some(content) => Ok(MetadataDecoder::new(BufSource::new(content))),
            None => Err(DbnError::Io(String::from_str("decompressing zstd stream"))),
        }
    }
}

impl RecordDecoder<BufSource> {
    /// A record decoder over a compressed byte string, possibly made of
    /// several concatenated frames; the whole input is decompressed up
    /// front.
    pub fn with_zstd(compressed: Vec<u8>) -> (r: Result<RecordDecoder<BufSource>, DbnError>)
        ensures
            zstd_frames(compressed@) is Some ==> r is Ok,
            match r {
                Ok(d) => zstd_frames(compressed@) == Some(d.rem()) && d.wf()
                    && d.src_infallible(),
                Err(e) => e is Io && zstd_frames(compressed@) is None,
            },
    {
        match zstd_decompress(&compressed) {
            Some(content) => Ok(RecordDecoder::new(BufSource::new(content))),
            None => Err(DbnError::Io(String::from_str("decompressing zstd stream"))),
        }
    }
}

impl Decoder<BufSource> {
    /// Decodes a stream whose bytes are compressed, possibly as several
    /// concatenated frames; the whole input is decompressed up front.
    pub fn with_zstd(compressed: Vec<u8>) -> (r: Result<Decoder<BufSource>, DbnError>)
        ensures
            zstd_frames(compressed@) matches Some(content) ==> (r is Ok <==> metadata_head_ok(
                content,
            )),
            match r {
                Ok(d) => zstd_frames(compressed@) matches Some(content) && metadata_head_ok(
                    content,
                ) && d.wf() && d.metadata_spec() == metadata_head(content) && d.metadata_spec().wf()
                    && d.rem() == content.skip(metadata_head_len(content) as int)
                    && d.src_infallible(),
                Err(e) => e is Decode || e is Io,
            },
    {
        let content = match zstd_decompress(&compressed) {
            Some(c) => c,
            None => {
                return Err(DbnError::Io(String::from_str("decompressing zstd stream")));
            },
        };
        Decoder::new(BufSource::new(content))
    }
}

} // verus!
