use dbn::decode::{Decoder, RecordDecoder};
use dbn::encode::{CsvEncoder, DbnEncoder, EncodeDbn, EncodeRecord, EncodeRecordRef,
    EncodeRecordTextExt, JsonEncoder};
use dbn::error::DbnError;
use dbn::metadata::{Metadata, DBN_VERSION, SCHEMA_MBO, SCHEMA_OHLCV_1D, SCHEMA_STATISTICS};
use dbn::record::{HasRType, MboMsg, OhlcvMsg, RecordHeader, WithTsOut, RTYPE_MBO,
    RTYPE_OHLCV_1S};
use dbn::source::BufSource;
use dbn::stream::StreamIterDecoder;
use dbn::write::{Dbz, OutputEncoding};

fn wrapped_ohlcv(ts_out: u64) -> WithTsOut<OhlcvMsg> {
    WithTsOut {
        rec: OhlcvMsg {
            hd: RecordHeader::new::<WithTsOut<OhlcvMsg>>(RTYPE_OHLCV_1S, 1, 5, 10),
            open: 1,
            high: 2,
            low: 3,
            close: 4,
            volume: 5,
        },
        ts_out,
    }
}

fn small_ohlcv() -> OhlcvMsg {
    OhlcvMsg {
        hd: RecordHeader::new::<OhlcvMsg>(RTYPE_OHLCV_1S, 1, 5, 10),
        open: 1,
        high: 2,
        low: 3,
        close: 4,
        volume: 5,
    }
}

fn metadata_with(schema: u16, record_count: Option<u64>, ts_out: bool) -> Metadata {
    Metadata {
        version: DBN_VERSION,
        dataset: vec![b'D'; 16],
        schema,
        start: 100,
        end: 200,
        limit: 0,
        record_count,
        stype_in: 1,
        stype_out: 1,
        ts_out,
        symbols: vec![],
    }
}

#[test]
fn test_dbn_identity_ohlcv1d() {
    let metadata = metadata_with(SCHEMA_OHLCV_1D, Some(2), false);
    let mut r1 = small_ohlcv();
    r1.hd.instrument_id = 11;
    let mut r2 = small_ohlcv();
    r2.hd.instrument_id = 22;
    let mut enc = DbnEncoder::new();
    enc.encode_metadata(&metadata);
    enc.encode_records(&[r1, r2]).unwrap();
    let wire = enc.into_inner();

    let mut decoder = Decoder::new(BufSource::new(wire.clone())).unwrap();
    let decoded_metadata = decoder.metadata().clone();
    let mut records = Vec::new();
    while let Ok(Some(rec)) = decoder.decode_record::<OhlcvMsg>() {
        records.push(rec);
    }
    assert_eq!(decoded_metadata, metadata);
    assert_eq!(records, vec![r1, r2]);

    let mut re_enc = DbnEncoder::new();
    re_enc.encode_metadata(&decoded_metadata);
    re_enc.encode_records(records.as_slice()).unwrap();
    assert_eq!(re_enc.into_inner(), wire);
}

#[test]
fn test_dbn_zstd_identity_ohlcv1d() {
    let metadata = metadata_with(SCHEMA_OHLCV_1D, None, false);
    let r1 = small_ohlcv();
    let mut enc = DbnEncoder::new();
    enc.encode_metadata(&metadata);
    enc.encode_record(&r1).unwrap();
    let wire = enc.buffer().clone();
    let compressed = enc.finish_zstd().unwrap();

    let mut decoder = Decoder::with_zstd(compressed).unwrap();
    assert_eq!(decoder.metadata(), &metadata);
    assert_eq!(decoder.decode_record::<OhlcvMsg>().unwrap().unwrap(), r1);
    assert!(decoder.decode_record::<OhlcvMsg>().unwrap().is_none());

    let mut re_enc = DbnEncoder::new();
    re_enc.encode_metadata(&metadata);
    re_enc.encode_record(&r1).unwrap();
    assert_eq!(re_enc.into_inner(), wire);
}

#[test]
fn test_dbn_identity_mbo() {
    let metadata = metadata_with(SCHEMA_MBO, Some(1), false);
    let rec = MboMsg {
        hd: RecordHeader::new::<MboMsg>(RTYPE_MBO, 1, 5482, 1609160400000429831),
        order_id: 647784973705,
        price: 3722750000000,
        size: 1,
        flags: 128,
        channel_id: 0,
        action: 65,
        side: 66,
        ts_recv: 1609160400000704060,
        ts_in_delta: 22993,
        sequence: 1170352,
    };
    let mut enc = DbnEncoder::new();
    enc.encode_metadata(&metadata);
    enc.encode_record(&rec).unwrap();
    let wire = enc.into_inner();
    let mut decoder = Decoder::new(BufSource::new(wire.clone())).unwrap();
    assert_eq!(decoder.metadata(), &metadata);
    assert_eq!(decoder.decode_record::<MboMsg>().unwrap().unwrap(), rec);
    let mut re_enc = DbnEncoder::new();
    re_enc.encode_metadata(&metadata);
    re_enc.encode_record(&rec).unwrap();
    assert_eq!(re_enc.into_inner(), wire);
}

#[test]
fn test_csv_encode_exact() {
    let mut enc = CsvEncoder::new();
    enc.encode_record(&small_ohlcv()).unwrap();
    // length 14 units, rtype 0x20 = 32, publisher 1, instrument 5, ts 10.
    assert_eq!(enc.output().as_str(), "14,32,1,5,10,1,2,3,4,5\n");
}

#[test]
fn test_json_encode_exact() {
    let mut enc = JsonEncoder::new();
    enc.encode_record(&small_ohlcv()).unwrap();
    assert_eq!(
        enc.output().as_str(),
        "{\"length\":14,\"rtype\":32,\"publisher_id\":1,\"instrument_id\":5,\"ts_event\":10,\"open\":1,\"high\":2,\"low\":3,\"close\":4,\"volume\":5}\n"
    );
}

#[test]
fn test_csv_encode_with_sym() {
    let mut enc = CsvEncoder::new();
    enc.encode_record_with_sym(&small_ohlcv(), Some("AAPL")).unwrap();
    enc.encode_record_with_sym(&small_ohlcv(), None).unwrap();
    assert_eq!(
        enc.output().as_str(),
        "14,32,1,5,10,1,2,3,4,5,AAPL\n14,32,1,5,10,1,2,3,4,5,\n"
    );
}

#[test]
fn test_json_encode_with_sym() {
    let mut enc = JsonEncoder::new();
    enc.encode_record_with_sym(&small_ohlcv(), Some("AAPL")).unwrap();
    let expected = "{\"length\":14,\"rtype\":32,\"publisher_id\":1,\"instrument_id\":5,\"ts_event\":10,\"open\":1,\"high\":2,\"low\":3,\"close\":4,\"volume\":5,\"symbol\":\"AAPL\"}\n";
    assert_eq!(enc.output().as_str(), expected);
}

#[test]
fn test_encode_ref_ts_out_csv() {
    let wrapped = wrapped_ohlcv(77);
    let mut bin = DbnEncoder::new();
    bin.encode_record(&wrapped).unwrap();
    let mut dec = RecordDecoder::new(BufSource::new(bin.into_inner()));
    let rec_ref = dec.decode_ref().unwrap().unwrap();
    let mut enc = CsvEncoder::new();
    enc.encode_record_ref_ts_out(&rec_ref, true).unwrap();
    // The wrapped record's length field covers the trailing timestamp: 16 units.
    assert_eq!(enc.output().as_str(), "16,32,1,5,10,1,2,3,4,5,77\n");
}

#[test]
fn test_encode_ref_unknown_rtype() {
    let mut rec = small_ohlcv();
    rec.hd.rtype = 0x7f;
    let mut bin = DbnEncoder::new();
    bin.encode_record(&rec).unwrap();
    let mut dec = RecordDecoder::new(BufSource::new(bin.into_inner()));
    let rec_ref = dec.decode_ref().unwrap().unwrap();
    let mut enc = CsvEncoder::new();
    assert!(matches!(
        enc.encode_record_ref(&rec_ref),
        Err(DbnError::Conversion(_))
    ));
    assert_eq!(enc.output().as_str(), "");
}

#[test]
fn test_stream_iter() {
    let metadata = metadata_with(SCHEMA_OHLCV_1D, Some(2), false);
    let mut r1 = small_ohlcv();
    r1.hd.instrument_id = 1;
    let mut r2 = small_ohlcv();
    r2.hd.instrument_id = 2;
    let mut enc = DbnEncoder::new();
    enc.encode_metadata(&metadata);
    enc.encode_records(&[r1, r2]).unwrap();
    let decoder = Decoder::new(BufSource::new(enc.into_inner())).unwrap();
    let mut stream = StreamIterDecoder::<BufSource, OhlcvMsg>::new(decoder);
    assert_eq!(stream.size_hint(), (2, Some(2)));
    stream.advance();
    assert_eq!(stream.get(), Some(&r1));
    assert_eq!(stream.size_hint(), (1, Some(1)));
    stream.advance();
    assert_eq!(stream.get(), Some(&r2));
    assert_eq!(stream.size_hint(), (0, Some(0)));
    stream.advance();
    assert!(stream.get().is_none());
}

#[test]
fn test_stream_iter_no_hint() {
    let metadata = metadata_with(SCHEMA_OHLCV_1D, None, false);
    let mut enc = DbnEncoder::new();
    enc.encode_metadata(&metadata);
    let decoder = Decoder::new(BufSource::new(enc.into_inner())).unwrap();
    let stream = StreamIterDecoder::<BufSource, OhlcvMsg>::new(decoder);
    assert_eq!(stream.size_hint(), (0, None));
}

#[test]
fn test_encode_stream() {
    let metadata = metadata_with(SCHEMA_OHLCV_1D, None, false);
    let rec = small_ohlcv();
    let mut enc = DbnEncoder::new();
    enc.encode_metadata(&metadata);
    enc.encode_record(&rec).unwrap();
    let decoder = Decoder::new(BufSource::new(enc.into_inner())).unwrap();
    let stream = StreamIterDecoder::<BufSource, OhlcvMsg>::new(decoder);
    let mut csv = CsvEncoder::new();
    csv.encode_stream(stream).unwrap();
    assert_eq!(csv.output().as_str(), "14,32,1,5,10,1,2,3,4,5\n");
}

#[test]
fn test_encode_decoded() {
    let metadata = metadata_with(SCHEMA_OHLCV_1D, None, false);
    let r1 = small_ohlcv();
    let mut enc = DbnEncoder::new();
    enc.encode_metadata(&metadata);
    enc.encode_records(&[r1, r1]).unwrap();
    let decoder = Decoder::new(BufSource::new(enc.into_inner())).unwrap();
    let mut bin = DbnEncoder::new();
    bin.encode_decoded(decoder).unwrap();
    let mut expected = DbnEncoder::new();
    expected.encode_records(&[r1, r1]).unwrap();
    assert_eq!(bin.into_inner(), expected.into_inner());
}

#[test]
fn test_encode_decoded_with_limit() {
    let metadata = metadata_with(SCHEMA_OHLCV_1D, None, false);
    let mut r1 = small_ohlcv();
    r1.hd.instrument_id = 1;
    let mut r2 = small_ohlcv();
    r2.hd.instrument_id = 2;
    let mut enc = DbnEncoder::new();
    enc.encode_metadata(&metadata);
    enc.encode_records(&[r1, r2]).unwrap();
    let decoder = Decoder::new(BufSource::new(enc.into_inner())).unwrap();
    let mut bin = DbnEncoder::new();
    bin.encode_decoded_with_limit(decoder, 1).unwrap();
    let mut expected = DbnEncoder::new();
    expected.encode_record(&r1).unwrap();
    assert_eq!(bin.into_inner(), expected.into_inner());
}

#[test]
fn test_encode_decoded_ts_out_csv() {
    let metadata = metadata_with(SCHEMA_OHLCV_1D, None, true);
    let wrapped = wrapped_ohlcv(99);
    let mut enc = DbnEncoder::new();
    enc.encode_metadata(&metadata);
    enc.encode_record(&wrapped).unwrap();
    let decoder = Decoder::new(BufSource::new(enc.into_inner())).unwrap();
    let mut csv = CsvEncoder::new();
    csv.encode_decoded(decoder).unwrap();
    assert_eq!(csv.output().as_str(), "16,32,1,5,10,1,2,3,4,5,99\n");
}

#[test]
fn test_dbz_write_to_csv() {
    let metadata = metadata_with(SCHEMA_OHLCV_1D, None, false);
    let rec = small_ohlcv();
    let mut enc = DbnEncoder::new();
    enc.encode_metadata(&metadata);
    enc.encode_record(&rec).unwrap();
    let compressed = enc.finish_zstd().unwrap();
    let dbz = Dbz::from_bytes(compressed).unwrap();
    assert_eq!(dbz.schema(), SCHEMA_OHLCV_1D);
    let text = dbz.write_to(OutputEncoding::Csv).unwrap();
    assert_eq!(text.as_str(), "14,32,1,5,10,1,2,3,4,5\n");
}

#[test]
fn test_dbz_write_to_json() {
    let metadata = metadata_with(SCHEMA_OHLCV_1D, None, false);
    let rec = small_ohlcv();
    let mut enc = DbnEncoder::new();
    enc.encode_metadata(&metadata);
    enc.encode_record(&rec).unwrap();
    let compressed = enc.finish_zstd().unwrap();
    let dbz = Dbz::from_bytes(compressed).unwrap();
    let text = dbz.write_to(OutputEncoding::Json).unwrap();
    assert_eq!(
        text.as_str(),
        "{\"length\":14,\"rtype\":32,\"publisher_id\":1,\"instrument_id\":5,\"ts_event\":10,\"open\":1,\"high\":2,\"low\":3,\"close\":4,\"volume\":5}\n"
    );
}

#[test]
fn test_dbz_write_to_statistics_unsupported() {
    let metadata = metadata_with(SCHEMA_STATISTICS, None, false);
    let mut enc = DbnEncoder::new();
    enc.encode_metadata(&metadata);
    let compressed = enc.finish_zstd().unwrap();
    let dbz = Dbz::from_bytes(compressed).unwrap();
    match dbz.write_to(OutputEncoding::Csv) {
        Err(DbnError::Conversion(msg)) => {
            assert_eq!(msg, "Not implemented for schema Statistics");
        }
        other => panic!("expected a conversion error, got {other:?}"),
    }
}

#[test]
fn test_csv_encode_largest_value() {
    let mut rec = small_ohlcv();
    rec.open = u64::MAX;
    let mut enc = CsvEncoder::new();
    enc.encode_record(&rec).unwrap();
    assert_eq!(
        enc.output().as_str(),
        "14,32,1,5,10,18446744073709551615,2,3,4,5\n"
    );
}

#[test]
fn test_record_size_of() {
    assert_eq!(OhlcvMsg::record_size_of(), 56);
    assert_eq!(MboMsg::record_size_of(), 56);
    assert_eq!(WithTsOut::<OhlcvMsg>::record_size_of(), 64);
}
