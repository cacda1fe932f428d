//! Encoding decoded records into output formats: the native binary format,
//! a row-oriented text format, and an object-oriented text format, with
//! dispatch by the record's runtime type tag.

use vstd::prelude::*;
use vstd::string::StringExecFns;
use crate::compress::{zstd_compress, zstd_frames};
use crate::decode::{frame_len, frames_end, frames_invalid, frames_record, Decoder};
use crate::error::{append_dec, dec_chars_of, DbnError};
use crate::metadata::{lemma_metadata_roundtrip, metadata_head, metadata_head_len,
    metadata_head_ok, Metadata, MetadataView};
use crate::record::{rec_len, HasRType, MboMsg, OhlcvMsg, RecordHeader, WithTsOut,
    WrappableRType};
use crate::record_ref::RecordRef;
use crate::source::ByteSource;
use crate::stream::StreamIterDecoder;
use crate::wire::push_bytes;

verus! {

/// The default compression level handed to the compressed-output encoder.
pub const ZSTD_COMPRESSION_LEVEL: i32 = 0;

/// A record layout every output format knows how to serialize: its binary
/// image comes with `HasRType`; the text encodings are given here.
pub trait DbnEncodable: HasRType {
    /// The record's row-text form: its fields as decimal text, separated by
    /// commas, without a line terminator.
    spec fn csv_spec(self) -> Seq<char>;

    /// The record's object-text fields: `"name":value` pairs separated by
    /// commas, without the surrounding braces.
    spec fn json_fields_spec(self) -> Seq<char>;

    /// Appends the record's row-text form.
    fn append_csv(&self, out: &mut String)
        ensures
            final(out)@ == old(out)@ + self.csv_spec(),
    ;

    /// Appends the record's object-text fields.
    fn append_json_fields(&self, out: &mut String)
        ensures
            final(out)@ == old(out)@ + self.json_fields_spec(),
    ;
}

impl RecordHeader {
    /// The header's row-text form.
    pub open spec fn csv_spec(self) -> Seq<char> {
        dec_chars_of(self.length as nat) + ","@ + dec_chars_of(self.rtype as nat) + ","@
            + dec_chars_of(self.publisher_id as nat) + ","@ + dec_chars_of(
            self.instrument_id as nat,
        ) + ","@ + dec_chars_of(self.ts_event as nat)
    }

    /// The header's object-text fields.
    pub open spec fn json_fields_spec(self) -> Seq<char> {
        "\"length\":"@ + dec_chars_of(self.length as nat) + ",\"rtype\":"@ + dec_chars_of(
            self.rtype as nat,
        ) + ",\"publisher_id\":"@ + dec_chars_of(self.publisher_id as nat)
            + ",\"instrument_id\":"@ + dec_chars_of(self.instrument_id as nat) + ",\"ts_event\":"@
            + dec_chars_of(self.ts_event as nat)
    }

    /// Appends the header's row-text form.
    pub fn append_csv(&self, out: &mut String)
        ensures
            final(out)@ == old(out)@ + self.csv_spec(),
    {
        append_dec(out, self.length as u64);
        out.append(",");
        append_dec(out, self.rtype as u64);
        out.append(",");
        append_dec(out, self.publisher_id as u64);
        out.append(",");
        append_dec(out, self.instrument_id as u64);
        out.append(",");
        append_dec(out, self.ts_event);
    }

    /// Appends the header's object-text fields.
    pub fn append_json_fields(&self, out: &mut String)
        ensures
            final(out)@ == old(out)@ + self.json_fields_spec(),
    {
        out.append("\"length\":");
        append_dec(out, self.length as u64);
        out.append(",\"rtype\":");
        append_dec(out, self.rtype as u64);
        out.append(",\"publisher_id\":");
        append_dec(out, self.publisher_id as u64);
        out.append(",\"instrument_id\":");
        append_dec(out, self.instrument_id as u64);
        out.append(",\"ts_event\":");
        append_dec(out, self.ts_event);
    }
}

impl DbnEncodable for OhlcvMsg {
    open spec fn csv_spec(self) -> Seq<char> {
        self.hd.csv_spec() + ","@ + dec_chars_of(self.open as nat) + ","@ + dec_chars_of(
            self.high as nat,
        ) + ","@ + dec_chars_of(self.low as nat) + ","@ + dec_chars_of(self.close as nat) + ","@
            + dec_chars_of(self.volume as nat)
    }

    open spec fn json_fields_spec(self) -> Seq<char> {
        self.hd.json_fields_spec() + ",\"open\":"@ + dec_chars_of(self.open as nat)
            + ",\"high\":"@ + dec_chars_of(self.high as nat) + ",\"low\":"@ + dec_chars_of(
            self.low as nat,
        ) + ",\"close\":"@ + dec_chars_of(self.close as nat) + ",\"volume\":"@ + dec_chars_of(
            self.volume as nat,
        )
    }

    fn append_csv(&self, out: &mut String) {
        self.hd.append_csv(out);
        out.append(",");
        append_dec(out, self.open);
        out.append(",");
        append_dec(out, self.high);
        out.append(",");
        append_dec(out, self.low);
        out.append(",");
        append_dec(out, self.close);
        out.append(",");
        append_dec(out, self.volume);
    }

    fn append_json_fields(&self, out: &mut String) {
        self.hd.append_json_fields(out);
        out.append(",\"open\":");
        append_dec(out, self.open);
        out.append(",\"high\":");
        append_dec(out, self.high);
        out.append(",\"low\":");
        append_dec(out, self.low);
        out.append(",\"close\":");
        append_dec(out, self.close);
        out.append(",\"volume\":");
        append_dec(out, self.volume);
    }
}

impl DbnEncodable for MboMsg {
    open spec fn csv_spec(self) -> Seq<char> {
        self.hd.csv_spec() + ","@ + dec_chars_of(self.order_id as nat) + ","@ + dec_chars_of(
            self.price as nat,
        ) + ","@ + dec_chars_of(self.size as nat) + ","@ + dec_chars_of(self.flags as nat) + ","@
            + dec_chars_of(self.channel_id as nat) + ","@ + dec_chars_of(self.action as nat)
            + ","@ + dec_chars_of(self.side as nat) + ","@ + dec_chars_of(self.ts_recv as nat)
            + ","@ + dec_chars_of(self.ts_in_delta as nat) + ","@ + dec_chars_of(
            self.sequence as nat,
        )
    }

    open spec fn json_fields_spec(self) -> Seq<char> {
        self.hd.json_fields_spec() + ",\"order_id\":"@ + dec_chars_of(self.order_id as nat)
            + ",\"price\":"@ + dec_chars_of(self.price as nat) + ",\"size\":"@ + dec_chars_of(
            self.size as nat,
        ) + ",\"flags\":"@ + dec_chars_of(self.flags as nat) + ",\"channel_id\":"@ + dec_chars_of(
            self.channel_id as nat,
        ) + ",\"action\":"@ + dec_chars_of(self.action as nat) + ",\"side\":"@ + dec_chars_of(
            self.side as nat,
        ) + ",\"ts_recv\":"@ + dec_chars_of(self.ts_recv as nat) + ",\"ts_in_delta\":"@
            + dec_chars_of(self.ts_in_delta as nat) + ",\"sequence\":"@ + dec_chars_of(
            self.sequence as nat,
        )
    }

    #[verifier::rlimit(100)]
    fn append_csv(&self, out: &mut String) {
        self.hd.append_csv(out);
        out.append(",");
        append_dec(out, self.order_id);
        out.append(",");
        append_dec(out, self.price);
        out.append(",");
        append_dec(out, self.size as u64);
        out.append(",");
        append_dec(out, self.flags as u64);
        out.append(",");
        append_dec(out, self.channel_id as u64);
        out.append(",");
        append_dec(out, self.action as u64);
        out.append(",");
        append_dec(out, self.side as u64);
        out.append(",");
        append_dec(out, self.ts_recv);
        out.append(",");
        append_dec(out, self.ts_in_delta as u64);
        out.append(",");
        append_dec(out, self.sequence as u64);
    }

    #[verifier::rlimit(100)]
    fn append_json_fields(&self, out: &mut String) {
        self.hd.append_json_fields(out);
        out.append(",\"order_id\":");
        append_dec(out, self.order_id);
        out.append(",\"price\":");
        append_dec(out, self.price);
        out.append(",\"size\":");
        append_dec(out, self.size as u64);
        out.append(",\"flags\":");
        append_dec(out, self.flags as u64);
        out.append(",\"channel_id\":");
        append_dec(out, self.channel_id as u64);
        out.append(",\"action\":");
        append_dec(out, self.action as u64);
        out.append(",\"side\":");
        append_dec(out, self.side as u64);
        out.append(",\"ts_recv\":");
        append_dec(out, self.ts_recv);
        out.append(",\"ts_in_delta\":");
        append_dec(out, self.ts_in_delta as u64);
        out.append(",\"sequence\":");
        append_dec(out, self.sequence as u64);
    }
}

/// One record's encoding in `W`'s format.
pub open spec fn record_fmt<W: EncodeRecord, R: DbnEncodable>(rec: R) -> Seq<W::Elem> {
    W::fmt_of(rec.wire_spec(), rec.csv_spec(), rec.json_fields_spec())
}

/// The concatenation of each record's encoding in `W`'s format.
pub open spec fn records_fmt<W: EncodeRecord, R: DbnEncodable>(rs: Seq<R>) -> Seq<W::Elem>
    decreases rs.len(),
{
    if rs.len() == 0 {
        Seq::empty()
    } else {
        record_fmt::<W, R>(rs[0]) + records_fmt::<W, R>(rs.skip(1))
    }
}

pub proof fn lemma_records_fmt_push<W: EncodeRecord, R: DbnEncodable>(rs: Seq<R>, x: R)
    ensures
        records_fmt::<W, R>(rs.push(x)) == records_fmt::<W, R>(rs) + record_fmt::<W, R>(x),
    decreases rs.len(),
{
    if rs.len() == 0 {
        assert(rs.push(x).skip(1) =~= Seq::<R>::empty());
        assert(records_fmt::<W, R>(Seq::<R>::empty()) == Seq::<W::Elem>::empty());
        assert(records_fmt::<W, R>(rs.push(x)) =~= records_fmt::<W, R>(rs)
            + record_fmt::<W, R>(x));
    } else {
        assert(rs.push(x).skip(1) =~= rs.skip(1).push(x));
        lemma_records_fmt_push::<W, R>(rs.skip(1), x);
        assert(rs.push(x)[0] == rs[0]);
        assert(records_fmt::<W, R>(rs.push(x)) =~= records_fmt::<W, R>(rs)
            + record_fmt::<W, R>(x));
    }
}

/// The records of a stream framed and parsed as one concrete type, `None`
/// when a record is mis-framed or of another type.
pub open spec fn typed_stream<T: HasRType>(rem: Seq<u8>) -> Option<Seq<T>>
    decreases rem.len(),
{
    if frames_end(rem) {
        Some(Seq::empty())
    } else if frames_invalid(rem) {
        None
    } else {
        let l = frame_len(rem) as int;
        match T::parse_spec(rem.take(l)) {
            None => None,
            Some(t) => match typed_stream::<T>(rem.skip(l)) {
                None => None,
                Some(rest) => Some(seq![t] + rest),
            },
        }
    }
}

impl<T: WrappableRType + DbnEncodable> DbnEncodable for WithTsOut<T> {
    open spec fn csv_spec(self) -> Seq<char> {
        self.rec.csv_spec() + ","@ + dec_chars_of(self.ts_out as nat)
    }

    open spec fn json_fields_spec(self) -> Seq<char> {
        self.rec.json_fields_spec() + ",\"ts_out\":"@ + dec_chars_of(self.ts_out as nat)
    }

    fn append_csv(&self, out: &mut String) {
        self.rec.append_csv(out);
        out.append(",");
        append_dec(out, self.ts_out);
    }

    fn append_json_fields(&self, out: &mut String) {
        self.rec.append_json_fields(out);
        out.append(",\"ts_out\":");
        append_dec(out, self.ts_out);
    }
}

/// An encoder of single records of a statically known type.
pub trait EncodeRecord: Sized {
    /// What the encoder's output is made of: bytes for the binary format,
    /// characters for the text formats.
    type Elem;

    /// The output the encoder has produced so far.
    spec fn out_spec(self) -> Seq<Self::Elem>;

    /// One record's encoding in this encoder's format, given the record's
    /// three rendered forms: its wire bytes, its row text, and its object
    /// fields.
    spec fn fmt_of(wire: Seq<u8>, csv: Seq<char>, json_fields: Seq<char>) -> Seq<Self::Elem>;

    /// Encodes a single record.
    fn encode_record<R: DbnEncodable>(&mut self, record: &R) -> (r: Result<(), DbnError>)
        ensures
            r is Ok,
            final(self).out_spec() == old(self).out_spec() + Self::fmt_of(
                record.wire_spec(),
                record.csv_spec(),
                record.json_fields_spec(),
            ),
    ;

    /// Flushes any buffered content; the output is unchanged for the
    /// in-memory encoders here.
    fn flush(&mut self) -> (r: Result<(), DbnError>)
        ensures
            r is Ok,
            final(self).out_spec() == old(self).out_spec(),
    ;
}

/// An encoder of type-erased records with mixed concrete types, dispatched
/// by the rtype tag, threading the stream-wide `ts_out` flag.
pub trait EncodeRecordRef: EncodeRecord {
    /// One type-erased record's encoding, `None` when this encoder cannot
    /// encode its bytes (an unknown rtype, or too few bytes for the layout
    /// the flag demands).
    spec fn ref_fmt_spec(bytes: Seq<u8>, ts_out: bool) -> Option<Seq<Self::Elem>>;

    /// Encodes a single type-erased record, reinterpreting it as carrying a
    /// trailing timestamp when `ts_out` is set. The flag is a stream-wide
    /// caller obligation, not detectable from the record's bytes.
    fn encode_record_ref_ts_out(&mut self, record: &RecordRef, ts_out: bool) -> (r: Result<
        (),
        DbnError,
    >)
        requires
            record.wf(),
        ensures
            match Self::ref_fmt_spec(record.bytes_spec(), ts_out) {
                Some(t) => r is Ok && final(self).out_spec() == old(self).out_spec() + t,
                None => r is Err && final(self).out_spec() == old(self).out_spec(),
            },
    ;

    /// Encodes a single type-erased record with no trailing timestamp.
    fn encode_record_ref(&mut self, record: &RecordRef) -> (r: Result<(), DbnError>)
        requires
            record.wf(),
        ensures
            match Self::ref_fmt_spec(record.bytes_spec(), false) {
                Some(t) => r is Ok && final(self).out_spec() == old(self).out_spec() + t,
                None => r is Err && final(self).out_spec() == old(self).out_spec(),
            },
    {
        self.encode_record_ref_ts_out(record, false)
    }
}

/// A stream's records, each encoded by `W`'s type-erased format, `None`
/// when a record is mis-framed or `W` cannot encode it.
pub open spec fn ref_stream_fmt<W: EncodeRecordRef>(rem: Seq<u8>, ts_out: bool) -> Option<
    Seq<W::Elem>,
>
    decreases rem.len(),
{
    if frames_end(rem) {
        Some(Seq::empty())
    } else if frames_invalid(rem) {
        None
    } else {
        let l = frame_len(rem) as int;
        match W::ref_fmt_spec(rem.take(l), ts_out) {
            None => None,
            Some(t) => match ref_stream_fmt::<W>(rem.skip(l), ts_out) {
                None => None,
                Some(rest) => Some(t + rest),
            },
        }
    }
}

/// The first `n` records of a stream, each encoded by `W`'s type-erased
/// format; the stream may continue beyond them.
pub open spec fn ref_stream_fmt_n<W: EncodeRecordRef>(rem: Seq<u8>, ts_out: bool, n: nat) -> Option<
    Seq<W::Elem>,
>
    decreases rem.len(),
{
    if n == 0 || frames_end(rem) {
        Some(Seq::empty())
    } else if frames_invalid(rem) {
        None
    } else {
        let l = frame_len(rem) as int;
        match W::ref_fmt_spec(rem.take(l), ts_out) {
            None => None,
            Some(t) => match ref_stream_fmt_n::<W>(rem.skip(l), ts_out, (n - 1) as nat) {
                None => None,
                Some(rest) => Some(t + rest),
            },
        }
    }
}
/// Bulk encoding, built by sequencing single-record encodes with a final
/// flush.
pub trait EncodeDbn: EncodeRecord + EncodeRecordRef {
    /// Encodes a slice of records.
    fn encode_records<R: DbnEncodable>(&mut self, records: &[R]) -> (r: Result<(), DbnError>)
        ensures
            r is Ok,
            final(self).out_spec() == old(self).out_spec() + records_fmt::<Self, R>(records@),
    {
        let n = records.len();
        let mut k: usize = 0;
        while k < n
            invariant
                k <= n,
                n == records@.len(),
                self.out_spec() == old(self).out_spec() + records_fmt::<Self, R>(
                    records@.take(k as int),
                ),
            decreases n - k,
        {
            match self.encode_record(&records[k]) {
                Ok(u) => u,
                Err(e) => {
                    return Err(e);
                },
            };
            proof {
                lemma_records_fmt_push::<Self, R>(records@.take(k as int), records@[k as int]);
                assert(records@.take(k + 1) =~= records@.take(k as int).push(
                    records@[k as int],
                ));
                assert(self.out_spec() =~= old(self).out_spec() + records_fmt::<Self, R>(
                    records@.take(k + 1),
                ));
            }
            k = k + 1;
        }
        proof {
            assert(records@.take(n as int) =~= records@);
        }
        self.flush()
    }
    /// Encodes every record a stream cursor yields, then flushes. The
    /// cursor swallows its own failures by ending early, as a pull-based
    /// sequence must; on a clean, well-typed stream the whole output is
    /// produced.
    #[verifier::loop_isolation(false)]
    fn encode_stream<S: ByteSource, R: DbnEncodable>(
        &mut self,
        stream: StreamIterDecoder<S, R>,
    ) -> (r: Result<(), DbnError>)
        requires
            stream.wf(),
        ensures
            r is Ok,
            typed_stream::<R>(stream.rem()) matches Some(rs) ==> ((stream.src_infallible()
                && stream.consumed() is Some) ==> final(self).out_spec()
                == old(self).out_spec() + records_fmt::<Self, R>(rs)),
    {
        let ghost good = stream.src_infallible() && stream.consumed() is Some
            && typed_stream::<R>(stream.rem()) is Some;
        let ghost rs: Seq<R> = if good {
            typed_stream::<R>(stream.rem()).unwrap()
        } else {
            Seq::empty()
        };
        let mut st = stream;
        let ghost mut done: Seq<R> = Seq::empty();
        loop
            invariant
                st.wf(),
                good ==> st.src_infallible(),
                good && st.consumed() is Some ==> ({
                    &&& typed_stream::<R>(st.rem()) == Some(rs.skip(done.len() as int))
                    &&& done.len() <= rs.len()
                    &&& done == rs.take(done.len() as int)
                    &&& self.out_spec() == old(self).out_spec() + records_fmt::<Self, R>(done)
                }),
                good && st.consumed() is None ==> self.out_spec() == old(self).out_spec()
                    + records_fmt::<Self, R>(rs),
            decreases st.rem().len() + 1,
        {
            let ghost rem0 = st.rem();
            let ghost c0 = st.consumed();
            let ghost rest = rs.skip(done.len() as int);
            st.advance();
            match st.get() {
                Some(rec) => {
                    proof {
                        if c0 is None {
                            assert(false);
                        }
                        assert(st.rem().len() < rem0.len());
                        if good {
                            assert(!frames_end(rem0));
                            assert(frames_record(rem0));
                            let l = frame_len(rem0) as int;
                            assert(R::parse_spec(rem0.take(l)) is Some);
                            assert(rest.len() > 0);
                            assert(rest[0] == R::parse_spec(rem0.take(l)).unwrap());
                            assert(st.current() == Some(
                                R::parse_spec(rem0.take(l)).unwrap(),
                            ));
                            assert(*rec == rs[done.len() as int]);
                        }
                    }
                    match self.encode_record(rec) {
                        Ok(u) => u,
                        Err(e) => {
                            return Err(e);
                        },
                    };
                    proof {
                        if good {
                            lemma_records_fmt_push::<Self, R>(done, rs[done.len() as int]);
                            let done2 = done.push(rs[done.len() as int]);
                            assert(rest.skip(1) =~= rs.skip(done2.len() as int));
                            assert(done2 =~= rs.take(done2.len() as int));
                            assert(self.out_spec() =~= old(self).out_spec()
                                + records_fmt::<Self, R>(done2));
                            done = done2;
                        }
                    }
                },
                None => {
                    proof {
                        if good && c0 is Some {
                            if rest.len() > 0 {
                                assert(!frames_end(rem0));
                                assert(frames_record(rem0));
                                assert(R::parse_spec(rem0.take(frame_len(rem0) as int))
                                    is Some);
                                assert(false);
                            }
                            assert(done =~= rs);
                        }
                    }
                    break ;
                },
            }
        }
        self.flush()
    }

    /// Encodes records directly from a whole-stream decoder, threading the
    /// metadata's `ts_out` flag through each type-erased encode, then
    /// flushes.
    #[verifier::loop_isolation(false)]
    fn encode_decoded<S: ByteSource>(&mut self, decoder: Decoder<S>) -> (r: Result<(), DbnError>)
        requires
            decoder.wf(),
        ensures
            ref_stream_fmt::<Self>(decoder.rem(), decoder.metadata_spec().ts_out) matches Some(
                t,
            ) ==> (decoder.src_infallible() ==> r is Ok
                && final(self).out_spec() == old(self).out_spec() + t),
            decoder.src_infallible() && ref_stream_fmt::<Self>(
                decoder.rem(),
                decoder.metadata_spec().ts_out,
            ) is None ==> r is Err,
    {
        let ghost good = decoder.src_infallible();
        let ghost whole = ref_stream_fmt::<Self>(decoder.rem(), decoder.metadata_spec().ts_out);
        let ts_out = decoder.metadata().ts_out;
        let mut dec = decoder;
        loop
            invariant
                dec.wf(),
                dec.src_infallible() == good,
                ts_out == dec.metadata_spec().ts_out,
                good ==> ({
                    &&& (whole is None <==> ref_stream_fmt::<Self>(dec.rem(), ts_out)
                        is None)
                    &&& (whole matches Some(t) ==> ref_stream_fmt::<Self>(dec.rem(), ts_out)
                        matches Some(rest) && self.out_spec() + rest == old(self).out_spec()
                        + t)
                }),
            decreases dec.rem().len() + 1,
        {
            let ghost rem0 = dec.rem();
            match dec.decode_record_ref() {
                Ok(Some(rr)) => {
                    let ghost l = frame_len(rem0) as int;
                    proof {
                        if good {
                            assert(!frames_end(rem0) && !frames_invalid(rem0));
                        }
                    }
                    match self.encode_record_ref_ts_out(&rr, ts_out) {
                        Ok(u) => u,
                        Err(e) => {
                            proof {
                                if good {
                                    assert(Self::ref_fmt_spec(rem0.take(l), ts_out) is None);
                                    assert(ref_stream_fmt::<Self>(rem0, ts_out) is None);
                                    assert(whole is None);
                                }
                            }
                            return Err(e);
                        },
                    };
                    proof {
                        if good {
                            assert(Self::ref_fmt_spec(rem0.take(l), ts_out) is Some);
                            let t0 = Self::ref_fmt_spec(rem0.take(l), ts_out).unwrap();
                            if whole is Some {
                                assert(ref_stream_fmt::<Self>(rem0, ts_out) is Some);
                                let r0 = ref_stream_fmt::<Self>(rem0, ts_out).unwrap();
                                assert(ref_stream_fmt::<Self>(dec.rem(), ts_out) is Some);
                                let rest2 = ref_stream_fmt::<Self>(
                                    dec.rem(),
                                    ts_out,
                                ).unwrap();
                                assert(r0 == t0 + rest2);
                                assert(self.out_spec() + rest2 =~= old(self).out_spec()
                                    + whole.unwrap());
                            } else {
                                assert(ref_stream_fmt::<Self>(rem0, ts_out) is None);
                                assert(ref_stream_fmt::<Self>(dec.rem(), ts_out) is None);
                            }
                        }
                    }
                },
                Ok(None) => {
                    proof {
                        if good {
                            assert(frames_end(rem0));
                            assert(ref_stream_fmt::<Self>(rem0, ts_out) == Some(Seq::<
                                Self::Elem,
                            >::empty()));
                            assert(whole is Some);
                            assert(self.out_spec() + Seq::<Self::Elem>::empty()
                                =~= self.out_spec());
                        }
                    }
                    break ;
                },
                Err(e) => {
                    proof {
                        if good {
                            assert(frames_invalid(rem0));
                            assert(ref_stream_fmt::<Self>(rem0, ts_out) is None);
                            assert(whole is None);
                        }
                    }
                    return Err(e);
                },
            }
        }
        self.flush()
    }

    /// Encodes records directly from a whole-stream decoder, stopping after
    /// `limit` records; reaching the limit is not an error.
    #[verifier::loop_isolation(false)]
    fn encode_decoded_with_limit<S: ByteSource>(&mut self, decoder: Decoder<S>, limit: u64) -> (r:
        Result<(), DbnError>)
        requires
            decoder.wf(),
            limit >= 1,
        ensures
            ref_stream_fmt_n::<Self>(
                decoder.rem(),
                decoder.metadata_spec().ts_out,
                limit as nat,
            ) matches Some(t) ==> (decoder.src_infallible() ==> r is Ok
                && final(self).out_spec() == old(self).out_spec() + t),
            decoder.src_infallible() && ref_stream_fmt_n::<Self>(
                decoder.rem(),
                decoder.metadata_spec().ts_out,
                limit as nat,
            ) is None ==> r is Err,
    {
        let ghost good = decoder.src_infallible();
        let ghost whole = ref_stream_fmt_n::<Self>(
            decoder.rem(),
            decoder.metadata_spec().ts_out,
            limit as nat,
        );
        let ts_out = decoder.metadata().ts_out;
        let mut dec = decoder;
        let mut i: u64 = 0;
        loop
            invariant
                dec.wf(),
                dec.src_infallible() == good,
                ts_out == dec.metadata_spec().ts_out,
                i <= limit,
                good && whole is Some ==> (ref_stream_fmt_n::<Self>(
                    dec.rem(),
                    ts_out,
                    (limit - i) as nat,
                ) matches Some(rest) && self.out_spec() + rest == old(self).out_spec()
                    + whole.unwrap()),
                good && whole is None ==> ref_stream_fmt_n::<Self>(
                    dec.rem(),
                    ts_out,
                    (limit - i) as nat,
                ) is None,
            decreases dec.rem().len() + 1,
        {
            if i == limit {
                proof {
                    if good {
                        assert(ref_stream_fmt_n::<Self>(dec.rem(), ts_out, 0) == Some(Seq::<
                            Self::Elem,
                        >::empty()));
                        if whole is Some {
                            assert(self.out_spec() + Seq::<Self::Elem>::empty()
                                =~= self.out_spec());
                        } else {
                            assert(false);
                        }
                    }
                }
                break ;
            }
            let ghost rem0 = dec.rem();
            let ghost n0 = (limit - i) as nat;
            match dec.decode_record_ref() {
                Ok(Some(rr)) => {
                    let ghost l = frame_len(rem0) as int;
                    proof {
                        if good {
                            assert(!frames_end(rem0) && !frames_invalid(rem0));
                            assert(n0 > 0);
                            if whole is Some {
                                assert(Self::ref_fmt_spec(rem0.take(l), ts_out) is Some);
                            }
                        }
                    }
                    match self.encode_record_ref_ts_out(&rr, ts_out) {
                        Ok(u) => u,
                        Err(e) => {
                            return Err(e);
                        },
                    };
                    i = i + 1;
                    proof {
                        if good && whole is None {
                            assert(ref_stream_fmt_n::<Self>(rem0, ts_out, n0) is None);
                            assert(ref_stream_fmt_n::<Self>(
                                dec.rem(),
                                ts_out,
                                (limit - i) as nat,
                            ) is None);
                        }
                        if good && whole is Some {
                            let t0 = Self::ref_fmt_spec(rem0.take(l), ts_out).unwrap();
                            let r0 = ref_stream_fmt_n::<Self>(rem0, ts_out, n0).unwrap();
                            assert(ref_stream_fmt_n::<Self>(
                                dec.rem(),
                                ts_out,
                                (n0 - 1) as nat,
                            ) is Some);
                            let rest2 = ref_stream_fmt_n::<Self>(
                                dec.rem(),
                                ts_out,
                                (n0 - 1) as nat,
                            ).unwrap();
                            assert(r0 == t0 + rest2);
                            assert((limit - i) as nat == (n0 - 1) as nat);
                            assert(self.out_spec() + rest2 =~= old(self).out_spec()
                                + whole.unwrap());
                        }
                    }
                },
                Ok(None) => {
                    proof {
                        if good {
                            assert(frames_end(rem0));
                            assert(ref_stream_fmt_n::<Self>(rem0, ts_out, n0) == Some(Seq::<
                                Self::Elem,
                            >::empty()));
                            if whole is Some {
                                assert(self.out_spec() + Seq::<Self::Elem>::empty()
                                    =~= self.out_spec());
                            } else {
                                assert(false);
                            }
                        }
                    }
                    break ;
                },
                Err(e) => {
                    return Err(e);
                },
            }
        }
        self.flush()
    }
}

/// Text encodings of single records together with the record's text symbol.
pub trait EncodeRecordTextExt: EncodeRecordRef {
    /// One record's encoding with its symbol column, given the record's
    /// rendered text forms.
    spec fn fmt_sym_of(csv: Seq<char>, json_fields: Seq<char>, sym: Option<Seq<char>>) -> Seq<
        Self::Elem,
    >;

    /// One type-erased record's encoding with its symbol column.
    spec fn ref_sym_fmt_spec(bytes: Seq<u8>, ts_out: bool, sym: Option<Seq<char>>) -> Option<
        Seq<Self::Elem>,
    >;

    /// Encodes a single record along with its text symbol.
    fn encode_record_with_sym<R: DbnEncodable>(
        &mut self,
        record: &R,
        symbol: Option<&str>,
    ) -> (r: Result<(), DbnError>)
        ensures
            r is Ok,
            final(self).out_spec() == old(self).out_spec() + Self::fmt_sym_of(
                record.csv_spec(),
                record.json_fields_spec(),
                match symbol {
                    Some(s) => Some(s@),
                    None => None,
                },
            ),
    ;

    /// Encodes a single type-erased record along with its text symbol,
    /// reinterpreting it under the stream-wide `ts_out` flag.
    fn encode_ref_ts_out_with_sym(
        &mut self,
        record: &RecordRef,
        ts_out: bool,
        symbol: Option<&str>,
    ) -> (r: Result<(), DbnError>)
        requires
            record.wf(),
        ensures
            match Self::ref_sym_fmt_spec(
                record.bytes_spec(),
                ts_out,
                match symbol {
                    Some(s) => Some(s@),
                    None => None,
                },
            ) {
                Some(t) => r is Ok && final(self).out_spec() == old(self).out_spec() + t,
                None => r is Err && final(self).out_spec() == old(self).out_spec(),
            },
    ;

    /// Encodes a single type-erased record along with its text symbol, with
    /// no trailing timestamp.
    fn encode_ref_with_sym(&mut self, record: &RecordRef, symbol: Option<&str>) -> (r: Result<
        (),
        DbnError,
    >)
        requires
            record.wf(),
        ensures
            match Self::ref_sym_fmt_spec(
                record.bytes_spec(),
                false,
                match symbol {
                    Some(s) => Some(s@),
                    None => None,
                },
            ) {
                Some(t) => r is Ok && final(self).out_spec() == old(self).out_spec() + t,
                None => r is Err && final(self).out_spec() == old(self).out_spec(),
            },
    {
        self.encode_ref_ts_out_with_sym(record, false, symbol)
    }
}

/// The native binary encoder: metadata, then records, byte-identical to the
/// wire format they were decoded from.
pub struct DbnEncoder {
    buf: Vec<u8>,
}

impl DbnEncoder {
    /// The bytes encoded so far.
    pub closed spec fn buf_spec(self) -> Seq<u8> {
        self.buf@
    }

    /// An encoder with an empty output buffer.
    pub fn new() -> (e: DbnEncoder)
        ensures
            e.buf_spec() == Seq::<u8>::empty(),
    {
        DbnEncoder { buf: Vec::new() }
    }

    /// Encodes the stream head: prelude and metadata block.
    pub fn encode_metadata(&mut self, metadata: &Metadata)
        requires
            metadata@.wf(),
        ensures
            final(self).buf_spec() == old(self).buf_spec() + metadata@.wire_spec(),
    {
        metadata.encode_to(&mut self.buf)
    }

    /// The encoder's output so far.
    pub fn buffer(&self) -> (b: &Vec<u8>)
        ensures
            b@ == self.buf_spec(),
    {
        &self.buf
    }

    /// Consumes the encoder and returns its output.
    pub fn into_inner(self) -> (b: Vec<u8>)
        ensures
            b@ == self.buf_spec(),
    {
        self.buf
    }

    /// Consumes the encoder and compresses its whole output as one frame.
    pub fn finish_zstd(self) -> (r: Result<Vec<u8>, DbnError>)
        ensures
            r is Ok,
            r matches Ok(c) ==> zstd_frames(c@) == Some(self.buf_spec()),
    {
        match zstd_compress(&self.buf, ZSTD_COMPRESSION_LEVEL) {
            Some(c) => Ok(c),
            None => Err(DbnError::Io(String::from_str("compressing zstd stream"))),
        }
    }
}

impl EncodeRecord for DbnEncoder {
    type Elem = u8;

    closed spec fn out_spec(self) -> Seq<u8> {
        self.buf@
    }

    open spec fn fmt_of(wire: Seq<u8>, csv: Seq<char>, json_fields: Seq<char>) -> Seq<u8> {
        wire
    }

    fn encode_record<R: DbnEncodable>(&mut self, record: &R) -> (r: Result<(), DbnError>) {
        record.encode_to(&mut self.buf);
        Ok(())
    }

    fn flush(&mut self) -> (r: Result<(), DbnError>) {
        Ok(())
    }
}

impl EncodeRecordRef for DbnEncoder {
    open spec fn ref_fmt_spec(bytes: Seq<u8>, ts_out: bool) -> Option<Seq<u8>> {
        Some(bytes)
    }

    fn encode_record_ref_ts_out(&mut self, record: &RecordRef, ts_out: bool) -> (r: Result<
        (),
        DbnError,
    >) {
        push_bytes(&mut self.buf, record.bytes());
        Ok(())
    }
}

impl EncodeDbn for DbnEncoder {

}

/// The row-text encoder: one line per record, fields as decimal text
/// separated by commas.
pub struct CsvEncoder {
    out: String,
}

impl CsvEncoder {
    /// An encoder with empty output.
    pub fn new() -> (e: CsvEncoder)
        ensures
            e.out_spec() == Seq::<char>::empty(),
    {
        CsvEncoder { out: String::new() }
    }

    /// The encoder's output so far.
    pub fn output(&self) -> (s: &String)
        ensures
            s@ == self.out_spec(),
    {
        &self.out
    }

    /// Consumes the encoder and returns its output.
    pub fn into_inner(self) -> (s: String)
        ensures
            s@ == self.out_spec(),
    {
        self.out
    }
}

impl EncodeRecord for CsvEncoder {
    type Elem = char;

    closed spec fn out_spec(self) -> Seq<char> {
        self.out@
    }

    open spec fn fmt_of(wire: Seq<u8>, csv: Seq<char>, json_fields: Seq<char>) -> Seq<char> {
        csv + "\n"@
    }

    fn encode_record<R: DbnEncodable>(&mut self, record: &R) -> (r: Result<(), DbnError>) {
        record.append_csv(&mut self.out);
        self.out.append("\n");
        proof {
            assert(self.out@ =~= old(self).out@ + (record.csv_spec() + "\n"@));
        }
        Ok(())
    }

    fn flush(&mut self) -> (r: Result<(), DbnError>) {
        Ok(())
    }
}

impl EncodeRecordRef for CsvEncoder {
    open spec fn ref_fmt_spec(bytes: Seq<u8>, ts_out: bool) -> Option<Seq<char>> {
        if bytes.len() >= 2 && MboMsg::matches_rtype_spec(bytes[1]) {
            if ts_out {
                match WithTsOut::<MboMsg>::parse_spec(bytes) {
                    Some(rec) => Some(rec.csv_spec() + "\n"@),
                    None => None,
                }
            } else {
                match MboMsg::parse_spec(bytes) {
                    Some(rec) => Some(rec.csv_spec() + "\n"@),
                    None => None,
                }
            }
        } else if bytes.len() >= 2 && OhlcvMsg::matches_rtype_spec(bytes[1]) {
            if ts_out {
                match WithTsOut::<OhlcvMsg>::parse_spec(bytes) {
                    Some(rec) => Some(rec.csv_spec() + "\n"@),
                    None => None,
                }
            } else {
                match OhlcvMsg::parse_spec(bytes) {
                    Some(rec) => Some(rec.csv_spec() + "\n"@),
                    None => None,
                }
            }
        } else {
            None
        }
    }

    fn encode_record_ref_ts_out(&mut self, record: &RecordRef, ts_out: bool) -> (r: Result<
        (),
        DbnError,
    >) {
        let rtype = record.header().rtype;
        if MboMsg::matches_rtype(rtype) {
            if ts_out {
                match record.get::<WithTsOut<MboMsg>>() {
                    Some(rec) => self.encode_record(&rec),
                    None => Err(
                        DbnError::Conversion(
                            String::from_str("record too short for a trailing timestamp"),
                        ),
                    ),
                }
            } else {
                match record.get::<MboMsg>() {
                    Some(rec) => self.encode_record(&rec),
                    None => Err(
                        DbnError::Conversion(String::from_str("record too short for its rtype")),
                    ),
                }
            }
        } else if OhlcvMsg::matches_rtype(rtype) {
            if ts_out {
                match record.get::<WithTsOut<OhlcvMsg>>() {
                    Some(rec) => self.encode_record(&rec),
                    None => Err(
                        DbnError::Conversion(
                            String::from_str("record too short for a trailing timestamp"),
                        ),
                    ),
                }
            } else {
                match record.get::<OhlcvMsg>() {
                    Some(rec) => self.encode_record(&rec),
                    None => Err(
                        DbnError::Conversion(String::from_str("record too short for its rtype")),
                    ),
                }
            }
        } else {
            Err(DbnError::Conversion(String::from_str("unexpected rtype")))
        }
    }
}

impl EncodeDbn for CsvEncoder {

}

/// The object-text encoder: one object per record, fields as `"name":value`
/// pairs.
pub struct JsonEncoder {
    out: String,
}

impl JsonEncoder {
    /// An encoder with empty output.
    pub fn new() -> (e: JsonEncoder)
        ensures
            e.out_spec() == Seq::<char>::empty(),
    {
        JsonEncoder { out: String::new() }
    }

    /// The encoder's output so far.
    pub fn output(&self) -> (s: &String)
        ensures
            s@ == self.out_spec(),
    {
        &self.out
    }

    /// Consumes the encoder and returns its output.
    pub fn into_inner(self) -> (s: String)
        ensures
            s@ == self.out_spec(),
    {
        self.out
    }
}

impl EncodeRecord for JsonEncoder {
    type Elem = char;

    closed spec fn out_spec(self) -> Seq<char> {
        self.out@
    }

    open spec fn fmt_of(wire: Seq<u8>, csv: Seq<char>, json_fields: Seq<char>) -> Seq<char> {
        "{"@ + json_fields + "}\n"@
    }

    fn encode_record<R: DbnEncodable>(&mut self, record: &R) -> (r: Result<(), DbnError>) {
        self.out.append("{");
        record.append_json_fields(&mut self.out);
        self.out.append("}\n");
        proof {
            assert(self.out@ =~= old(self).out@ + ("{"@ + record.json_fields_spec() + "}\n"@));
        }
        Ok(())
    }

    fn flush(&mut self) -> (r: Result<(), DbnError>) {
        Ok(())
    }
}

impl EncodeRecordRef for JsonEncoder {
    open spec fn ref_fmt_spec(bytes: Seq<u8>, ts_out: bool) -> Option<Seq<char>> {
        if bytes.len() >= 2 && MboMsg::matches_rtype_spec(bytes[1]) {
            if ts_out {
                match WithTsOut::<MboMsg>::parse_spec(bytes) {
                    Some(rec) => Some("{"@ + rec.json_fields_spec() + "}\n"@),
                    None => None,
                }
            } else {
                match MboMsg::parse_spec(bytes) {
                    Some(rec) => Some("{"@ + rec.json_fields_spec() + "}\n"@),
                    None => None,
                }
            }
        } else if bytes.len() >= 2 && OhlcvMsg::matches_rtype_spec(bytes[1]) {
            if ts_out {
                match WithTsOut::<OhlcvMsg>::parse_spec(bytes) {
                    Some(rec) => Some("{"@ + rec.json_fields_spec() + "}\n"@),
                    None => None,
                }
            } else {
                match OhlcvMsg::parse_spec(bytes) {
                    Some(rec) => Some("{"@ + rec.json_fields_spec() + "}\n"@),
                    None => None,
                }
            }
        } else {
            None
        }
    }

    fn encode_record_ref_ts_out(&mut self, record: &RecordRef, ts_out: bool) -> (r: Result<
        (),
        DbnError,
    >) {
        let rtype = record.header().rtype;
        if MboMsg::matches_rtype(rtype) {
            if ts_out {
                match record.get::<WithTsOut<MboMsg>>() {
                    Some(rec) => self.encode_record(&rec),
                    None => Err(
                        DbnError::Conversion(
                            String::from_str("record too short for a trailing timestamp"),
                        ),
                    ),
                }
            } else {
                match record.get::<MboMsg>() {
                    Some(rec) => self.encode_record(&rec),
                    None => Err(
                        DbnError::Conversion(String::from_str("record too short for its rtype")),
                    ),
                }
            }
        } else if OhlcvMsg::matches_rtype(rtype) {
            if ts_out {
                match record.get::<WithTsOut<OhlcvMsg>>() {
                    Some(rec) => self.encode_record(&rec),
                    None => Err(
                        DbnError::Conversion(
                            String::from_str("record too short for a trailing timestamp"),
                        ),
                    ),
                }
            } else {
                match record.get::<OhlcvMsg>() {
                    Some(rec) => self.encode_record(&rec),
                    None => Err(
                        DbnError::Conversion(String::from_str("record too short for its rtype")),
                    ),
                }
            }
        } else {
            Err(DbnError::Conversion(String::from_str("unexpected rtype")))
        }
    }
}

impl EncodeDbn for JsonEncoder {

}

impl EncodeRecordTextExt for CsvEncoder {
    open spec fn fmt_sym_of(csv: Seq<char>, json_fields: Seq<char>, sym: Option<Seq<char>>) -> Seq<
        char,
    > {
        match sym {
            Some(s) => csv + ","@ + s + "\n"@,
            None => csv + ","@ + "\n"@,
        }
    }

    open spec fn ref_sym_fmt_spec(bytes: Seq<u8>, ts_out: bool, sym: Option<Seq<char>>) -> Option<
        Seq<char>,
    > {
        if bytes.len() >= 2 && MboMsg::matches_rtype_spec(bytes[1]) {
            if ts_out {
                match WithTsOut::<MboMsg>::parse_spec(bytes) {
                    Some(rec) => Some(
                        Self::fmt_sym_of(rec.csv_spec(), rec.json_fields_spec(), sym),
                    ),
                    None => None,
                }
            } else {
                match MboMsg::parse_spec(bytes) {
                    Some(rec) => Some(
                        Self::fmt_sym_of(rec.csv_spec(), rec.json_fields_spec(), sym),
                    ),
                    None => None,
                }
            }
        } else if bytes.len() >= 2 && OhlcvMsg::matches_rtype_spec(bytes[1]) {
            if ts_out {
                match WithTsOut::<OhlcvMsg>::parse_spec(bytes) {
                    Some(rec) => Some(
                        Self::fmt_sym_of(rec.csv_spec(), rec.json_fields_spec(), sym),
                    ),
                    None => None,
                }
            } else {
                match OhlcvMsg::parse_spec(bytes) {
                    Some(rec) => Some(
                        Self::fmt_sym_of(rec.csv_spec(), rec.json_fields_spec(), sym),
                    ),
                    None => None,
                }
            }
        } else {
            None
        }
    }

    fn encode_record_with_sym<R: DbnEncodable>(
        &mut self,
        record: &R,
        symbol: Option<&str>,
    ) -> (r: Result<(), DbnError>) {
        record.append_csv(&mut self.out);
        self.out.append(",");
        match symbol {
            Some(s) => {
                self.out.append(s);
                self.out.append("\n");
                proof {
                    assert(self.out@ =~= old(self).out@ + (record.csv_spec() + ","@ + s@
                        + "\n"@));
                }
            },
            None => {
                self.out.append("\n");
                proof {
                    assert(self.out@ =~= old(self).out@ + (record.csv_spec() + ","@ + "\n"@));
                }
            },
        }
        Ok(())
    }

    fn encode_ref_ts_out_with_sym(
        &mut self,
        record: &RecordRef,
        ts_out: bool,
        symbol: Option<&str>,
    ) -> (r: Result<(), DbnError>) {
        let rtype = record.header().rtype;
        if MboMsg::matches_rtype(rtype) {
            if ts_out {
                match record.get::<WithTsOut<MboMsg>>() {
                    Some(rec) => self.encode_record_with_sym(&rec, symbol),
                    None => Err(
                        DbnError::Conversion(
                            String::from_str("record too short for a trailing timestamp"),
                        ),
                    ),
                }
            } else {
                match record.get::<MboMsg>() {
                    Some(rec) => self.encode_record_with_sym(&rec, symbol),
                    None => Err(
                        DbnError::Conversion(String::from_str("record too short for its rtype")),
                    ),
                }
            }
        } else if OhlcvMsg::matches_rtype(rtype) {
            if ts_out {
                match record.get::<WithTsOut<OhlcvMsg>>() {
                    Some(rec) => self.encode_record_with_sym(&rec, symbol),
                    None => Err(
                        DbnError::Conversion(
                            String::from_str("record too short for a trailing timestamp"),
                        ),
                    ),
                }
            } else {
                match record.get::<OhlcvMsg>() {
                    Some(rec) => self.encode_record_with_sym(&rec, symbol),
                    None => Err(
                        DbnError::Conversion(String::from_str("record too short for its rtype")),
                    ),
                }
            }
        } else {
            Err(DbnError::Conversion(String::from_str("unexpected rtype")))
        }
    }
}

impl EncodeRecordTextExt for JsonEncoder {
    open spec fn fmt_sym_of(csv: Seq<char>, json_fields: Seq<char>, sym: Option<Seq<char>>) -> Seq<
        char,
    > {
        match sym {
            Some(s) => "{"@ + json_fields + ",\"symbol\":\""@ + s + "\"}\n"@,
            None => "{"@ + json_fields + ",\"symbol\":null}\n"@,
        }
    }

    open spec fn ref_sym_fmt_spec(bytes: Seq<u8>, ts_out: bool, sym: Option<Seq<char>>) -> Option<
        Seq<char>,
    > {
        if bytes.len() >= 2 && MboMsg::matches_rtype_spec(bytes[1]) {
            if ts_out {
                match WithTsOut::<MboMsg>::parse_spec(bytes) {
                    Some(rec) => Some(
                        Self::fmt_sym_of(rec.csv_spec(), rec.json_fields_spec(), sym),
                    ),
                    None => None,
                }
            } else {
                match MboMsg::parse_spec(bytes) {
                    Some(rec) => Some(
                        Self::fmt_sym_of(rec.csv_spec(), rec.json_fields_spec(), sym),
                    ),
                    None => None,
                }
            }
        } else if bytes.len() >= 2 && OhlcvMsg::matches_rtype_spec(bytes[1]) {
            if ts_out {
                match WithTsOut::<OhlcvMsg>::parse_spec(bytes) {
                    Some(rec) => Some(
                        Self::fmt_sym_of(rec.csv_spec(), rec.json_fields_spec(), sym),
                    ),
                    None => None,
                }
            } else {
                match OhlcvMsg::parse_spec(bytes) {
                    Some(rec) => Some(
                        Self::fmt_sym_of(rec.csv_spec(), rec.json_fields_spec(), sym),
                    ),
                    None => None,
                }
            }
        } else {
            None
        }
    }

    fn encode_record_with_sym<R: DbnEncodable>(
        &mut self,
        record: &R,
        symbol: Option<&str>,
    ) -> (r: Result<(), DbnError>) {
        self.out.append("{");
        record.append_json_fields(&mut self.out);
        match symbol {
            Some(s) => {
                self.out.append(",\"symbol\":\"");
                self.out.append(s);
                self.out.append("\"}\n");
                proof {
                    assert(self.out@ =~= old(self).out@ + ("{"@ + record.json_fields_spec()
                        + ",\"symbol\":\""@ + s@ + "\"}\n"@));
                }
            },
            None => {
                self.out.append(",\"symbol\":null}\n");
                proof {
                    assert(self.out@ =~= old(self).out@ + ("{"@ + record.json_fields_spec()
                        + ",\"symbol\":null}\n"@));
                }
            },
        }
        Ok(())
    }

    fn encode_ref_ts_out_with_sym(
        &mut self,
        record: &RecordRef,
        ts_out: bool,
        symbol: Option<&str>,
    ) -> (r: Result<(), DbnError>) {
        let rtype = record.header().rtype;
        if MboMsg::matches_rtype(rtype) {
            if ts_out {
                match record.get::<WithTsOut<MboMsg>>() {
                    Some(rec) => self.encode_record_with_sym(&rec, symbol),
                    None => Err(
                        DbnError::Conversion(
                            String::from_str("record too short for a trailing timestamp"),
                        ),
                    ),
                }
            } else {
                match record.get::<MboMsg>() {
                    Some(rec) => self.encode_record_with_sym(&rec, symbol),
                    None => Err(
                        DbnError::Conversion(String::from_str("record too short for its rtype")),
                    ),
                }
            }
        } else if OhlcvMsg::matches_rtype(rtype) {
            if ts_out {
                match record.get::<WithTsOut<OhlcvMsg>>() {
                    Some(rec) => self.encode_record_with_sym(&rec, symbol),
                    None => Err(
                        DbnError::Conversion(
                            String::from_str("record too short for a trailing timestamp"),
                        ),
                    ),
                }
            } else {
                match record.get::<OhlcvMsg>() {
                    Some(rec) => self.encode_record_with_sym(&rec, symbol),
                    None => Err(
                        DbnError::Conversion(String::from_str("record too short for its rtype")),
                    ),
                }
            }
        } else {
            Err(DbnError::Conversion(String::from_str("unexpected rtype")))
        }
    }
}

/// Round-trip identity for the native binary format: a stream assembled
/// from a well-formed metadata value followed by the wire bytes of
/// well-formed records of one type has a valid head carrying exactly that
/// metadata, and its record section decodes back to exactly those records.
pub proof fn lemma_stream_round_trip<T: DbnEncodable>(m: MetadataView, rs: Seq<T>)
    requires
        m.wf(),
        forall|i: int| 0 <= i < rs.len() ==> (#[trigger] rs[i]).wf(),
    ensures
        metadata_head_ok(m.wire_spec() + records_fmt::<DbnEncoder, T>(rs)),
        metadata_head(m.wire_spec() + records_fmt::<DbnEncoder, T>(rs)) == m,
        metadata_head_len(m.wire_spec() + records_fmt::<DbnEncoder, T>(rs))
            == m.wire_spec().len(),
        typed_stream::<T>(
            (m.wire_spec() + records_fmt::<DbnEncoder, T>(rs)).skip(m.wire_spec().len() as int),
        ) == Some(rs),
{
    let w = m.wire_spec();
    let recs = records_fmt::<DbnEncoder, T>(rs);
    let s = w + recs;
    lemma_metadata_roundtrip(m);
    assert(s.len() >= 8 && s[0] == w[0] && s[1] == w[1] && s[2] == w[2] && s[3] == w[3]);
    assert(s.subrange(4, 8) =~= w.subrange(4, 8));
    assert(metadata_head_len(s) == 8 + m.block_len());
    assert(s.subrange(8, metadata_head_len(s) as int) =~= m.block_wire());
    assert(metadata_head_ok(s));
    assert(metadata_head(s) == m);
    assert(s.skip(w.len() as int) =~= recs);
    lemma_typed_stream_of_records(rs);
}

/// The wire bytes of a sequence of well-formed records of one type decode
/// back to exactly that sequence.
pub proof fn lemma_typed_stream_of_records<T: DbnEncodable>(rs: Seq<T>)
    requires
        forall|i: int| 0 <= i < rs.len() ==> (#[trigger] rs[i]).wf(),
    ensures
        typed_stream::<T>(records_fmt::<DbnEncoder, T>(rs)) == Some(rs),
    decreases rs.len(),
{
    let rem = records_fmt::<DbnEncoder, T>(rs);
    if rs.len() == 0 {
        assert(rem.len() == 0);
        assert(typed_stream::<T>(rem) == Some(Seq::<T>::empty()));
        assert(Seq::<T>::empty() =~= rs);
    } else {
        let r0 = rs[0];
        let w0 = r0.wire_spec();
        let rest = records_fmt::<DbnEncoder, T>(rs.skip(1));
        r0.lemma_parse_of_wire();
        r0.lemma_wf();
        T::lemma_size();
        assert(rem == w0 + rest);
        assert(rem[0] == w0[0]);
        assert(rec_len(rem[0]) == T::size_spec());
        assert(rem.len() >= T::size_spec());
        assert(frames_record(rem));
        assert(!frames_end(rem) && !frames_invalid(rem));
        let l = frame_len(rem) as int;
        assert(rem.take(l) =~= w0);
        assert(T::parse_spec(w0) == Some(r0));
        assert(rem.skip(l) =~= rest);
        assert(forall|i: int| 0 <= i < rs.skip(1).len() ==> (#[trigger] rs.skip(1)[i]).wf());
        lemma_typed_stream_of_records::<T>(rs.skip(1));
        assert(typed_stream::<T>(rem) == Some(seq![r0] + rs.skip(1)));
        assert(seq![r0] + rs.skip(1) =~= rs);
    }
}

} // verus!
