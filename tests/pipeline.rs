use aria_telemetry::codec::{ICodec, ProtobufCodec, SchemaRegistry};
use aria_telemetry::compression::{CompressionProfile, FramedCompressor, ICompressor, Lz4Compressor, ZstdCompressor};
use aria_telemetry::delta::{IDeltaCodec, SimpleDeltaCodec};
use aria_telemetry::envelope::{CryptoInfo, FecInfo, FragmentInfo};
use aria_telemetry::wire::{decode_record, encode_record};
use aria_telemetry::error::AriaError;
use aria_telemetry::fec::{ReedSolomonFec, IFEC};
use aria_telemetry::VERSION;

// ---- sdk ----

#[test]
fn test_init() {
    assert!(!VERSION.is_empty());
}

// ---- codec ----

#[test]
fn test_schema_registry() {
    let mut registry = SchemaRegistry::new();
    registry.register(1, "Envelope".into());
    assert_eq!(registry.get(1), Some(&"Envelope".into()));
}

#[test]
fn test_codec_roundtrip() {
    let codec = ProtobufCodec::new();
    let data: u32 = 42;
    let encoded = codec.encode(&data.to_le_bytes(), 1).unwrap();
    assert!(!encoded.is_empty());
}

#[test]
fn codec_frame_layout_and_round_trip() {
    let mut codec = ProtobufCodec::new();
    codec.register_schema(7, "Ack".into());
    let encoded = codec.encode(b"payload", 7).unwrap();
    assert_eq!(&encoded[..4], &[7, 0, 0, 0]);
    assert_eq!(&encoded[4..], b"payload");
    assert_eq!(codec.decode(&encoded, 7).unwrap(), b"payload".to_vec());
    let again = codec.encode(b"payload", 7).unwrap();
    assert_eq!(encoded, again);
}

#[test]
fn codec_unknown_schema() {
    let codec = ProtobufCodec::new();
    let encoded = codec.encode(b"x", 3).unwrap();
    assert!(matches!(codec.decode(&encoded, 3), Err(AriaError::SchemaUnknown)));
}

#[test]
fn codec_malformed_payload() {
    let mut codec = ProtobufCodec::new();
    codec.register_schema(3, "State".into());
    assert!(matches!(codec.decode(&[1, 2], 3), Err(AriaError::CodecMalformed)));
    let other = codec.encode(b"x", 4).unwrap();
    assert!(matches!(codec.decode(&other, 3), Err(AriaError::CodecMalformed)));
}

// ---- compression ----

#[test]
fn test_lz4_roundtrip() {
    let compressor = Lz4Compressor::new(1);
    let original = b"Hello, World! This is a test message that should compress well.";
    let compressed = compressor.compress(original).unwrap();
    let decompressed = compressor.decompress(&compressed).unwrap();
    assert_eq!(original.as_slice(), decompressed.as_slice());
}

#[test]
fn test_zstd_roundtrip() {
    let compressor = ZstdCompressor::new(3);
    let original = b"Hello, World! This is a test message that should compress well.";
    let compressed = compressor.compress(original).unwrap();
    let decompressed = compressor.decompress(&compressed).unwrap();
    assert_eq!(original.as_slice(), decompressed.as_slice());
}

#[test]
fn test_compression_ratio() {
    let compressor = ZstdCompressor::new(9);
    let original = vec![0u8; 1024];
    let compressed = compressor.compress(&original).unwrap();
    assert!(compressed.len() < original.len());
}

#[test]
fn lz4_shrinks_repetitive_data() {
    let compressor = Lz4Compressor::new(1);
    let original = vec![7u8; 4096];
    let compressed = compressor.compress(&original).unwrap();
    assert!(compressed.len() < original.len());
    assert_eq!(compressor.decompress(&compressed).unwrap(), original);
}

#[test]
fn compression_round_trip_empty_input() {
    let lz4 = Lz4Compressor::new(1);
    let c = lz4.compress(&[]).unwrap();
    assert_eq!(lz4.decompress(&c).unwrap(), Vec::<u8>::new());
    let zstd = ZstdCompressor::new(3);
    let c = zstd.compress(&[]).unwrap();
    assert_eq!(zstd.decompress(&c).unwrap(), Vec::<u8>::new());
}

#[test]
fn compressor_names() {
    assert_eq!(Lz4Compressor::new(1).name(), "LZ4");
    assert_eq!(ZstdCompressor::new(3).name(), "Zstd");
}

#[test]
fn framed_compression_carries_profile() {
    let framed = FramedCompressor::new(1, 3);
    let data = b"telemetry telemetry telemetry telemetry".to_vec();
    let fast = framed.compress(CompressionProfile::Fast, &data).unwrap();
    assert_eq!(fast[0], 0);
    let high = framed.compress(CompressionProfile::HighRatio, &data).unwrap();
    assert_eq!(high[0], 1);
    assert_eq!(framed.decompress(&fast).unwrap(), data);
    assert_eq!(framed.decompress(&high).unwrap(), data);
    let mut unknown = fast.clone();
    unknown[0] = 9;
    assert!(matches!(framed.decompress(&unknown), Err(AriaError::Compression(_))));
    assert!(matches!(framed.decompress(&[]), Err(AriaError::Compression(_))));
}

#[test]
fn decompress_garbage_fails() {
    let zstd = ZstdCompressor::new(3);
    assert!(matches!(zstd.decompress(b"not a frame"), Err(AriaError::Compression(_))));
}

// ---- delta ----

#[test]
fn test_delta_roundtrip() {
    let mut encoder = SimpleDeltaCodec::new();
    let mut decoder = SimpleDeltaCodec::new();

    let frame1 = b"Hello World";
    let frame2 = b"Hello Rust!";

    let delta1 = encoder.encode(frame1, None).unwrap();
    let delta2 = encoder.encode(frame2, None).unwrap();

    let decoded1 = decoder.decode(&delta1, None).unwrap();
    let decoded2 = decoder.decode(&delta2, None).unwrap();

    assert_eq!(frame1.as_slice(), decoded1.as_slice());
    assert_eq!(frame2.as_slice(), decoded2.as_slice());
}

#[test]
fn test_delta_compression() {
    let mut codec = SimpleDeltaCodec::new();

    let frame1 = vec![1, 2, 3, 4, 5];
    let frame2 = vec![1, 2, 3, 4, 6];

    let delta1 = codec.encode(&frame1, None).unwrap();
    let delta2 = codec.encode(&frame2, None).unwrap();

    assert_eq!(delta1, frame1);
    assert!(delta2.iter().take(4).all(|&b| b == 0));
}

#[test]
fn delta_exact_values_and_padding() {
    let mut codec = SimpleDeltaCodec::new();
    codec.encode(&[0x0f, 0xf0], None).unwrap();
    let d = codec.encode(&[0xff, 0xff, 0x55], None).unwrap();
    assert_eq!(d, vec![0xf0, 0x0f, 0x55]);
    let explicit = codec.encode(&[1, 1], Some(&[1, 0])).unwrap();
    assert_eq!(explicit, vec![0, 1]);
}

#[test]
fn delta_stream_round_trip() {
    let frames: Vec<Vec<u8>> = vec![b"aaaa".to_vec(), b"abab".to_vec(), b"ab".to_vec(), b"zzzzzz".to_vec(), vec![]];
    let mut enc = SimpleDeltaCodec::new();
    let mut dec = SimpleDeltaCodec::new();
    for f in &frames {
        let d = enc.encode(f, None).unwrap();
        assert_eq!(&dec.decode(&d, None).unwrap(), f);
    }
}

// ---- fec ----

#[test]
fn test_fec_no_loss() {
    let fec = ReedSolomonFec;
    let original = b"Hello, World! This is a test message.";

    let k = 4;
    let m = 2;
    let shards = fec.encode(original, k, m).unwrap();
    assert_eq!(shards.len(), k + m);

    let fragments: Vec<Option<Vec<u8>>> = shards.into_iter().map(Some).collect();
    let decoded = fec.decode(&fragments, k, m).unwrap();

    assert_eq!(&decoded[..original.len()], original);
}

#[test]
fn test_fec_with_loss() {
    let fec = ReedSolomonFec;
    let original = b"Hello, World! This is a test message.";

    let k = 4;
    let m = 2;
    let shards = fec.encode(original, k, m).unwrap();

    let mut fragments: Vec<Option<Vec<u8>>> = shards.into_iter().map(Some).collect();
    fragments[1] = None;
    fragments[3] = None;

    let decoded = fec.decode(&fragments, k, m).unwrap();
    assert_eq!(&decoded[..original.len()], original);
}

#[test]
fn test_fec_too_much_loss() {
    let fec = ReedSolomonFec;
    let original = b"Hello, World!";

    let k = 4;
    let m = 2;
    let shards = fec.encode(original, k, m).unwrap();

    let mut fragments: Vec<Option<Vec<u8>>> = shards.into_iter().map(Some).collect();
    fragments[0] = None;
    fragments[1] = None;
    fragments[2] = None;

    let result = fec.decode(&fragments, k, m);
    assert!(result.is_err());
}

#[test]
fn fec_recovery_scenario_1024_bytes() {
    let fec = ReedSolomonFec;
    let original: Vec<u8> = (0..1024u32).map(|i| (i * 7 % 251) as u8).collect();
    let shards = fec.encode(&original, 4, 2).unwrap();
    assert_eq!(shards.len(), 6);
    for s in &shards {
        assert_eq!(s.len(), 256);
    }
    let mut fragments: Vec<Option<Vec<u8>>> = shards.into_iter().map(Some).collect();
    fragments[1] = None;
    fragments[3] = None;
    assert_eq!(fec.decode(&fragments, 4, 2).unwrap(), original);
    fragments[0] = None;
    assert!(matches!(fec.decode(&fragments, 4, 2), Err(AriaError::FecUnrecoverable)));
}

#[test]
fn fec_parity_differs_from_data_and_padding() {
    let fec = ReedSolomonFec;
    let shards = fec.encode(b"abcde", 2, 1).unwrap();
    assert_eq!(shards[0], b"abc".to_vec());
    assert_eq!(shards[1], vec![b'd', b'e', 0]);
    assert_ne!(shards[2], shards[0]);
    let frags = vec![None, Some(shards[1].clone()), Some(shards[2].clone())];
    assert_eq!(fec.decode(&frags, 2, 1).unwrap(), vec![b'a', b'b', b'c', b'd', b'e', 0]);
}

#[test]
fn fec_bad_parameters() {
    let fec = ReedSolomonFec;
    assert!(matches!(fec.encode(b"abc", 0, 2), Err(AriaError::FecEncode)));
    assert!(matches!(fec.encode(b"abc", 2, 0), Err(AriaError::FecEncode)));
    assert!(matches!(fec.encode(b"abc", 200, 100), Err(AriaError::FecEncode)));
    assert!(matches!(fec.encode(b"", 2, 1), Err(AriaError::FecEncode)));
    assert!(matches!(fec.decode(&[None], 2, 1), Err(AriaError::Fec(_))));
}

#[test]
fn fec_info_records_original_length() {
    let info = FecInfo { k: 4, m: 2, block_id: 9, original_len: 13 };
    let fec = ReedSolomonFec;
    let shards = fec.encode(b"Hello, World!", info.k as usize, info.m as usize).unwrap();
    let frags: Vec<Option<Vec<u8>>> = shards.into_iter().map(Some).collect();
    let decoded = fec.decode(&frags, 4, 2).unwrap();
    assert_eq!(&decoded[..info.original_len as usize], b"Hello, World!");
}

fn shard_source(payload: &[u8]) -> aria_telemetry::envelope::Envelope {
    aria_telemetry::envelope::Envelope {
        id: 77,
        timestamp: 1_700_000_000_000_000,
        schema_id: 2,
        priority: aria_telemetry::envelope::Priority::P1,
        topic: "imu".into(),
        payload: payload.to_vec(),
        metadata: aria_telemetry::envelope::EnvelopeMetadata {
            source_node: "rover".into(),
            sequence_number: 12,
            fragment_info: None,
            fec_info: None,
            crypto_info: None,
            qos_class: "default".into(),
        },
    }
}

#[test]
fn fec_decode_exact_strips_padding() {
    let fec = ReedSolomonFec;
    let shards = fec.encode(b"Hello, World!", 4, 2).unwrap();
    let mut frags: Vec<Option<Vec<u8>>> = shards.into_iter().map(Some).collect();
    frags[2] = None;
    assert_eq!(fec.decode_exact(&frags, 4, 2, 13).unwrap(), b"Hello, World!".to_vec());
    assert!(matches!(fec.decode_exact(&frags, 4, 2, 17), Err(AriaError::Fec(_))));
}

#[test]
fn fec_envelope_round_trip() {
    let fec = ReedSolomonFec;
    let source = shard_source(b"state estimate 0042");
    let shards = fec.encode_envelope(&source, 3, 2, 5).unwrap();
    assert_eq!(shards.len(), 5);
    for s in &shards {
        assert_eq!(s.metadata.fec_info, Some(FecInfo { k: 3, m: 2, block_id: 5, original_len: 19 }));
        assert_eq!(s.payload.len(), 7);
        assert_eq!(s.topic, "imu");
    }
    let mut slots: Vec<Option<aria_telemetry::envelope::Envelope>> = shards.into_iter().map(Some).collect();
    slots[0] = None;
    slots[4] = None;
    let back = fec.decode_envelope(&slots).unwrap();
    assert_eq!(back.payload, source.payload);
    assert!(back.metadata.fec_info.is_none());
    assert_eq!(back.id, 77);
    assert_eq!(back.metadata.sequence_number, 12);
    slots[1] = None;
    assert!(matches!(fec.decode_envelope(&slots), Err(AriaError::FecUnrecoverable)));
    let none: Vec<Option<aria_telemetry::envelope::Envelope>> = vec![None, None];
    assert!(matches!(fec.decode_envelope(&none), Err(AriaError::FecUnrecoverable)));
}

#[test]
fn fec_envelope_refuses_stamped_slot() {
    let fec = ReedSolomonFec;
    let mut source = shard_source(b"abc");
    source.metadata.fec_info = Some(FecInfo { k: 1, m: 1, block_id: 0, original_len: 3 });
    assert!(matches!(fec.encode_envelope(&source, 2, 1, 0), Err(AriaError::InvalidState(_))));
}

#[test]
fn fec_envelope_mixed_blocks_rejected() {
    let fec = ReedSolomonFec;
    let a = fec.encode_envelope(&shard_source(b"first block"), 2, 1, 1).unwrap();
    let b = fec.encode_envelope(&shard_source(b"other block"), 2, 1, 2).unwrap();
    let slots = vec![Some(a[0].clone()), Some(b[1].clone()), None];
    assert!(matches!(fec.decode_envelope(&slots), Err(AriaError::Fec(_))));
}

#[test]
fn wire_record_round_trip_with_all_metadata() {
    let mut e = shard_source("naïve payload ✓".as_bytes());
    e.timestamp = -5;
    e.metadata.fragment_info = Some(FragmentInfo { fragment_id: 1, total_fragments: 3, fragment_offset: 1400, correlation_key: 1 << 100 });
    e.metadata.fec_info = Some(FecInfo { k: 4, m: 2, block_id: 7, original_len: 1024 });
    e.metadata.crypto_info = Some(CryptoInfo { signature: vec![9u8; 64], key_id: "clé".into(), nonce: vec![3u8; 12] });
    let mut bytes = encode_record(&e).unwrap();
    let len = bytes.len();
    bytes.extend_from_slice(&[0xAA, 0xBB]);
    let (back, used) = decode_record(&bytes).unwrap();
    assert_eq!(used, len);
    assert_eq!(back.id, e.id);
    assert_eq!(back.timestamp, -5);
    assert_eq!(back.schema_id, e.schema_id);
    assert_eq!(back.priority, e.priority);
    assert_eq!(back.topic, e.topic);
    assert_eq!(back.payload, e.payload);
    assert_eq!(back.metadata.source_node, "rover");
    assert_eq!(back.metadata.sequence_number, 12);
    assert_eq!(back.metadata.fragment_info, e.metadata.fragment_info);
    assert_eq!(back.metadata.fec_info, e.metadata.fec_info);
    let c = back.metadata.crypto_info.unwrap();
    assert_eq!(c.signature, vec![9u8; 64]);
    assert_eq!(c.key_id, "clé");
    assert_eq!(c.nonce, vec![3u8; 12]);
    assert_eq!(back.metadata.qos_class, "default");
}

#[test]
fn wire_layout_is_big_endian_and_length_prefixed() {
    let e = shard_source(b"");
    let bytes = encode_record(&e).unwrap();
    let body_len = u32::from_be_bytes([bytes[0], bytes[1], bytes[2], bytes[3]]) as usize;
    assert_eq!(body_len, bytes.len() - 4);
    assert_eq!(&bytes[4..20], &77u128.to_be_bytes());
    assert_eq!(&bytes[20..28], &1_700_000_000_000_000u64.to_be_bytes());
    assert_eq!(&bytes[28..32], &2u32.to_be_bytes());
    assert_eq!(bytes[32], 1);
    assert_eq!(&bytes[33..37], &3u32.to_be_bytes());
    assert_eq!(&bytes[37..40], b"imu");
}

#[test]
fn wire_rejects_malformed_records() {
    let bytes = encode_record(&shard_source(b"abc")).unwrap();
    assert!(matches!(decode_record(&bytes[..bytes.len() - 1]), Err(AriaError::CodecMalformed)));
    assert!(matches!(decode_record(&[0, 0]), Err(AriaError::CodecMalformed)));
    let mut bad_priority = bytes.clone();
    bad_priority[32] = 9;
    assert!(matches!(decode_record(&bad_priority), Err(AriaError::CodecMalformed)));
    let mut bad_utf8 = bytes.clone();
    bad_utf8[37] = 0xFF;
    assert!(matches!(decode_record(&bad_utf8), Err(AriaError::CodecMalformed)));
}

#[test]
fn delta_flagged_frames() {
    let mut enc = SimpleDeltaCodec::new();
    let mut dec = SimpleDeltaCodec::new();
    let f1 = enc.encode_flagged(&[1, 2, 3]);
    assert_eq!(f1, vec![1, 1, 2, 3]);
    let f2 = enc.encode_flagged(&[1, 2, 4]);
    assert_eq!(f2, vec![0, 0, 0, 7]);
    assert!(matches!(dec.decode_flagged(&f2), Err(AriaError::CodecMalformed)));
    assert_eq!(dec.decode_flagged(&f1).unwrap(), vec![1, 2, 3]);
    assert_eq!(dec.decode_flagged(&f2).unwrap(), vec![1, 2, 4]);
    assert!(matches!(dec.decode_flagged(&[]), Err(AriaError::CodecMalformed)));
    assert!(matches!(dec.decode_flagged(&[5, 1]), Err(AriaError::CodecMalformed)));
}

#[test]
fn fec_every_shard_has_ceil_length() {
    let fec = ReedSolomonFec;
    let shards = fec.encode(&[7u8; 10], 3, 2).unwrap();
    assert!(shards.iter().all(|s| s.len() == 4));
}

#[test]
fn delta_frame_batches_round_trip() {
    let frames: Vec<Vec<u8>> = vec![b"alpha".to_vec(), b"alphabet".to_vec(), b"al".to_vec(), vec![], b"zeta".to_vec()];
    let mut enc = SimpleDeltaCodec::new();
    let mut dec = SimpleDeltaCodec::new();
    let deltas = enc.encode_frames(&frames);
    assert_eq!(deltas[0], frames[0]);
    assert_eq!(dec.decode_frames(&deltas), frames);
}
