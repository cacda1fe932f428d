use dbn::decode::{Decoder, MetadataDecoder, RecordDecoder};
use dbn::encode::{DbnEncoder, EncodeRecord};
use dbn::error::DbnError;
use dbn::metadata::{Metadata, DBN_VERSION, SCHEMA_OHLCV_1D};
use dbn::record::{MboMsg, OhlcvMsg, RecordHeader, WithTsOut, LENGTH_MULTIPLIER, RTYPE_MBO,
    RTYPE_OHLCV_1D};
use dbn::source::BufSource;

fn sample_ohlcv(instrument_id: u32) -> OhlcvMsg {
    OhlcvMsg {
        hd: RecordHeader::new::<OhlcvMsg>(RTYPE_OHLCV_1D, 1, instrument_id, 1678284110),
        open: 160270000000,
        high: 161870000000,
        low: 157510000000,
        close: 158180000000,
        volume: 3170000,
    }
}

fn sample_mbo() -> MboMsg {
    MboMsg {
        hd: RecordHeader::new::<MboMsg>(RTYPE_MBO, 1, 5482, 1609160400000429831),
        order_id: 647784973705,
        price: 3722750000000,
        size: 1,
        flags: 128,
        channel_id: 0,
        action: 65,
        side: 66,
        ts_recv: 1609160400000704060,
        ts_in_delta: 22993,
        sequence: 1170352,
    }
}

fn sample_metadata() -> Metadata {
    Metadata {
        version: DBN_VERSION,
        dataset: b"XNAS.ITCH\0\0\0\0\0\0\0".to_vec(),
        schema: SCHEMA_OHLCV_1D,
        start: 1678284110000000000,
        end: 1678370510000000000,
        limit: 0,
        record_count: Some(2),
        stype_in: 1,
        stype_out: 2,
        ts_out: false,
        symbols: vec![vec![b'A'; 71], vec![b'B'; 71]],
    }
}

#[test]
fn test_decode_record_0_length() {
    let buf = vec![0u8];
    let mut target = RecordDecoder::new(BufSource::new(buf));
    assert!(
        matches!(target.decode_ref(), Err(DbnError::Decode(msg)) if msg.starts_with("Invalid record with length"))
    );
}

#[test]
fn test_decode_record_length_less_than_header() {
    let buf = vec![3u8, 1, 2, 3, 4, 5, 6, 7, 8, 9, 10, 11];
    assert_eq!(buf[0] as usize * LENGTH_MULTIPLIER, buf.len());
    let mut target = RecordDecoder::new(BufSource::new(buf));
    assert!(
        matches!(target.decode_ref(), Err(DbnError::Decode(msg)) if msg.starts_with("Invalid record with length"))
    );
}

#[test]
fn test_invalid_length_message_value() {
    let buf = vec![3u8, 1, 2, 3, 4, 5, 6, 7, 8, 9, 10, 11];
    let mut target = RecordDecoder::new(BufSource::new(buf));
    match target.decode_ref() {
        Err(DbnError::Decode(msg)) => {
            assert_eq!(msg, "Invalid record with length 12 shorter than header");
        }
        other => panic!("expected a decode error, got {other:?}"),
    }
}

#[test]
fn test_decode_record_length_longer_than_buffer() {
    let rec = sample_ohlcv(446);
    let mut enc = DbnEncoder::new();
    enc.encode_record(&rec).unwrap();
    let mut bytes = enc.into_inner();
    bytes.pop();
    let mut target = RecordDecoder::new(BufSource::new(bytes));
    assert!(matches!(target.decode_ref(), Ok(None)));
}

#[test]
fn test_decode_multiframe_zst() {
    let mut enc1 = DbnEncoder::new();
    for i in 0..3u32 {
        enc1.encode_record(&sample_ohlcv(100 + i)).unwrap();
    }
    let mut enc2 = DbnEncoder::new();
    for i in 0..5u32 {
        enc2.encode_record(&sample_ohlcv(200 + i)).unwrap();
    }
    let mut compressed = zstd::stream::encode_all(enc1.buffer().as_slice(), 0).unwrap();
    compressed.extend(zstd::stream::encode_all(enc2.buffer().as_slice(), 0).unwrap());
    let mut decoder = RecordDecoder::with_zstd(compressed).unwrap();
    let mut count = 0;
    while let Some(_rec) = decoder.decode::<OhlcvMsg>().unwrap() {
        count += 1;
    }
    assert_eq!(count, 8);
}

#[test]
fn test_dbn_identity_with_ts_out() {
    let rec1 = WithTsOut {
        rec: OhlcvMsg {
            hd: RecordHeader::new::<WithTsOut<OhlcvMsg>>(RTYPE_OHLCV_1D, 1, 446, 1678284110),
            open: 160270000000,
            high: 161870000000,
            low: 157510000000,
            close: 158180000000,
            volume: 3170000,
        },
        ts_out: 1678486110,
    };
    let mut rec2 = rec1.clone();
    rec2.rec.hd.instrument_id += 1;
    rec2.ts_out = 1678486827;
    let mut encoder = DbnEncoder::new();
    encoder.encode_record(&rec1).unwrap();
    encoder.encode_record(&rec2).unwrap();
    let buffer = encoder.into_inner();
    let mut decoder_with = RecordDecoder::new(BufSource::new(buffer.clone()));
    let res1_with = decoder_with
        .decode::<WithTsOut<OhlcvMsg>>()
        .unwrap()
        .unwrap();
    let res2_with = decoder_with
        .decode::<WithTsOut<OhlcvMsg>>()
        .unwrap()
        .unwrap();
    assert_eq!(rec1, res1_with);
    assert_eq!(rec2, res2_with);
    let mut decoder_without = RecordDecoder::new(BufSource::new(buffer));
    let res1_without = decoder_without.decode::<OhlcvMsg>().unwrap().unwrap();
    let res2_without = decoder_without.decode::<OhlcvMsg>().unwrap().unwrap();
    assert_eq!(rec1.rec, res1_without);
    assert_eq!(rec2.rec, res2_without);
}

#[test]
fn test_metadata_roundtrip() {
    let metadata = sample_metadata();
    let mut enc = DbnEncoder::new();
    enc.encode_metadata(&metadata);
    let mut dec = MetadataDecoder::new(BufSource::new(enc.into_inner()));
    let decoded = dec.decode().unwrap();
    assert_eq!(decoded, metadata);
}

#[test]
fn test_metadata_older_version_symbol_width() {
    let mut metadata = sample_metadata();
    metadata.version = 1;
    metadata.symbols = vec![vec![b'C'; 22]];
    let mut enc = DbnEncoder::new();
    enc.encode_metadata(&metadata);
    let mut dec = MetadataDecoder::new(BufSource::new(enc.into_inner()));
    let decoded = dec.decode().unwrap();
    assert_eq!(decoded, metadata);
}

#[test]
fn test_metadata_bad_magic() {
    let mut enc = DbnEncoder::new();
    enc.encode_metadata(&sample_metadata());
    let mut bytes = enc.into_inner();
    bytes[0] = b'Q';
    let mut dec = MetadataDecoder::new(BufSource::new(bytes));
    match dec.decode() {
        Err(DbnError::Decode(msg)) => assert_eq!(msg, "Invalid DBN header"),
        other => panic!("expected a decode error, got {other:?}"),
    }
}

#[test]
fn test_metadata_newer_version() {
    let mut enc = DbnEncoder::new();
    enc.encode_metadata(&sample_metadata());
    let mut bytes = enc.into_inner();
    bytes[3] = DBN_VERSION + 1;
    let mut dec = MetadataDecoder::new(BufSource::new(bytes));
    match dec.decode() {
        Err(DbnError::Decode(msg)) => {
            assert!(msg.starts_with("Can't decode newer version of DBN"));
            assert_eq!(
                msg,
                "Can't decode newer version of DBN. Decoder version is 2, input version is 3"
            );
        }
        other => panic!("expected a decode error, got {other:?}"),
    }
}

#[test]
fn test_metadata_length_shorter_than_fixed() {
    // A prelude declaring a ten-byte metadata block: under the fixed length.
    let bytes = vec![b'D', b'B', b'N', 2, 10, 0, 0, 0];
    let mut dec = MetadataDecoder::new(BufSource::new(bytes));
    match dec.decode() {
        Err(DbnError::Decode(msg)) => {
            assert_eq!(msg, "Invalid DBN metadata. Metadata length shorter than fixed length.");
        }
        other => panic!("expected a decode error, got {other:?}"),
    }
}

#[test]
fn test_metadata_truncated_is_io_error() {
    let mut enc = DbnEncoder::new();
    enc.encode_metadata(&sample_metadata());
    let mut bytes = enc.into_inner();
    bytes.truncate(bytes.len() - 1);
    let mut dec = MetadataDecoder::new(BufSource::new(bytes));
    match dec.decode() {
        Err(DbnError::Io(msg)) => {
            assert!(msg.starts_with("reading fixed metadata: "));
        }
        other => panic!("expected an io error, got {other:?}"),
    }
}

#[test]
fn test_metadata_prelude_truncated_is_io_error() {
    let bytes = vec![b'D', b'B', b'N'];
    let mut dec = MetadataDecoder::new(BufSource::new(bytes));
    match dec.decode() {
        Err(DbnError::Io(msg)) => {
            assert!(msg.starts_with("reading metadata prelude: "));
        }
        other => panic!("expected an io error, got {other:?}"),
    }
}

#[test]
fn test_with_zstd_rejects_invalid_input() {
    let garbage = vec![1u8, 2, 3, 4, 5, 6, 7, 8];
    assert!(matches!(
        RecordDecoder::with_zstd(garbage),
        Err(DbnError::Io(_))
    ));
}

#[test]
fn test_metadata_symbol_section_overrun() {
    let mut enc = DbnEncoder::new();
    enc.encode_metadata(&sample_metadata());
    let mut bytes = enc.into_inner();
    // The symbol count sits right after the fixed portion of the block:
    // eight prelude bytes, then fifty-six fixed bytes. Claim many more
    // symbols than the block holds.
    bytes[64] = 99;
    let mut dec = MetadataDecoder::new(BufSource::new(bytes));
    match dec.decode() {
        Err(DbnError::Decode(msg)) => {
            assert_eq!(msg, "Invalid DBN metadata. Symbol section shorter than symbol count.");
        }
        other => panic!("expected a decode error, got {other:?}"),
    }
}

#[test]
fn test_metadata_ts_out_any_nonzero_byte() {
    let mut enc = DbnEncoder::new();
    enc.encode_metadata(&sample_metadata());
    let mut bytes = enc.into_inner();
    // The ts_out flag byte sits at offset fifty-two of the block.
    bytes[8 + 52] = 2;
    let mut dec = MetadataDecoder::new(BufSource::new(bytes));
    let decoded = dec.decode().unwrap();
    assert!(decoded.ts_out);
}

#[test]
fn test_typed_decode_rtype_mismatch() {
    let mut enc = DbnEncoder::new();
    enc.encode_record(&sample_mbo()).unwrap();
    let mut dec = RecordDecoder::new(BufSource::new(enc.into_inner()));
    match dec.decode::<OhlcvMsg>() {
        Err(DbnError::Conversion(msg)) => assert_eq!(msg, "record with rtype 160"),
        other => panic!("expected a conversion error, got {other:?}"),
    }
}

#[test]
fn test_record_ref_get_mismatch() {
    let mut enc = DbnEncoder::new();
    enc.encode_record(&sample_mbo()).unwrap();
    let mut dec = RecordDecoder::new(BufSource::new(enc.into_inner()));
    let rec_ref = dec.decode_ref().unwrap().unwrap();
    assert!(rec_ref.get::<OhlcvMsg>().is_none());
    assert_eq!(rec_ref.get::<MboMsg>().unwrap(), sample_mbo());
}

#[test]
fn test_record_ref_header() {
    let rec = sample_ohlcv(77);
    let mut enc = DbnEncoder::new();
    enc.encode_record(&rec).unwrap();
    let mut dec = RecordDecoder::new(BufSource::new(enc.into_inner()));
    let rec_ref = dec.decode_ref().unwrap().unwrap();
    let hd = rec_ref.header();
    assert_eq!(hd, rec.hd);
    assert_eq!(hd.length as usize * LENGTH_MULTIPLIER, 56);
    assert_eq!(rec_ref.record_size(), 56);
}

#[test]
fn test_whole_stream_decoder() {
    let metadata = sample_metadata();
    let mut enc = DbnEncoder::new();
    enc.encode_metadata(&metadata);
    let r1 = sample_ohlcv(1);
    let r2 = sample_ohlcv(2);
    enc.encode_record(&r1).unwrap();
    enc.encode_record(&r2).unwrap();
    let mut decoder = Decoder::new(BufSource::new(enc.into_inner())).unwrap();
    assert_eq!(decoder.metadata(), &metadata);
    assert_eq!(decoder.decode_record::<OhlcvMsg>().unwrap().unwrap(), r1);
    assert_eq!(decoder.decode_record::<OhlcvMsg>().unwrap().unwrap(), r2);
    assert!(decoder.decode_record::<OhlcvMsg>().unwrap().is_none());
}
