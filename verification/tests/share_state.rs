use base64::Engine;
use nicorandompicker::share_state::v1::wire::{
    decode_signed, encode_signed, parse_bytes, parse_varint, write_bytes, write_varint,
};
use nicorandompicker::share_state::v1::{
    self, DecodeError, SearchStateV1, ShareStateV1, MAX_CONTENT_IDS, MAX_DECOMPRESSED_SIZE, VERSION,
};
use nicorandompicker::share_state::{self as share, ContentId, ContentIdError, SearchState, ShareState};

fn content_id(prefix: &str, number: u64) -> ContentId {
    ContentId { prefix: prefix.to_owned(), number }
}

#[test]
fn content_id_deserializes_from_string() {
    let content_id = ContentId::parse("sm34594493").unwrap();

    assert_eq!(content_id, ContentId { prefix: "sm".to_owned(), number: 34_594_493 });
}

#[test]
fn content_id_rejects_invalid_strings() {
    assert!(ContentId::parse("sm").is_err());
    assert!(ContentId::parse("12345").is_err());
    assert!(ContentId::parse("sm12x").is_err());
}

#[test]
fn content_id_errors_and_text() {
    assert_eq!(ContentId::parse("sm"), Err(ContentIdError::NoNumericPart));
    assert_eq!(ContentId::parse("12345"), Err(ContentIdError::NoPrefix));
    assert_eq!(ContentId::parse("sm12x"), Err(ContentIdError::InvalidNumber));
    assert_eq!(ContentId::parse("sm99999999999999999999"), Err(ContentIdError::InvalidNumber));
    assert_eq!(content_id("so", 123).to_string(), "so123");
    let id = ContentId::parse("lv0").unwrap();
    assert_eq!(ContentId::parse(&id.to_string()).unwrap(), id);
}

fn sample_state() -> ShareStateV1 {
    ShareStateV1 {
        search: SearchStateV1 {
            tag: "歌うボイスロイド OR VOICEVOX".to_owned(),
            // 2020-01-01 00:00 UTC and 2024-12-31 23:59:59 UTC.
            uploaded_since: Some(1_577_836_800),
            uploaded_until: Some(1_735_689_599),
            view_min: Some(10_000),
            view_max: Some(3_000_000),
            result_count: 100,
        },
        content_ids: vec![
            content_id("sm", 34594493),
            content_id("so", 12345678),
            content_id("ss", 23456789),
            content_id("nm", 8848208),
            content_id("lv", 123),
        ],
    }
}

#[test]
fn roundtrips_share_state() {
    let state = sample_state();

    let encoded = v1::encode(&state).unwrap();

    assert!(encoded.starts_with(VERSION));
    assert_eq!(v1::decode(&encoded).unwrap(), state);
}

#[test]
fn decode_rejects_unsupported_version() {
    assert!(matches!(v1::decode("2abc"), Err(DecodeError::UnsupportedVersion('2'))));
}

#[test]
fn decode_rejects_oversized_decompressed_payload() {
    let state = ShareStateV1 {
        search: SearchStateV1 {
            tag: "a".repeat(MAX_DECOMPRESSED_SIZE + 1),
            uploaded_since: None,
            uploaded_until: None,
            view_min: None,
            view_max: None,
            result_count: 100,
        },
        content_ids: Vec::new(),
    };
    let encoded = v1::encode(&state).unwrap();

    assert!(matches!(
        v1::decode(&encoded),
        Err(DecodeError::DecompressedSizeLimitExceeded { limit }) if limit == MAX_DECOMPRESSED_SIZE
    ));
}

fn brotli_compress(bytes: &[u8]) -> Vec<u8> {
    let mut output = Vec::new();
    let params = brotli::enc::BrotliEncoderParams { quality: 11, ..Default::default() };
    brotli::BrotliCompress(&mut std::io::Cursor::new(bytes), &mut output, &params).unwrap();
    output
}

#[test]
fn decode_rejects_too_many_content_ids() {
    let mut raw = Vec::new();
    write_bytes(&mut raw, b"tag");
    write_varint(&mut raw, 100);
    raw.push(0);
    raw.push(1);
    write_bytes(&mut raw, b"sm");
    write_varint(&mut raw, MAX_CONTENT_IDS + 1);
    for number in 1..=(MAX_CONTENT_IDS + 1) {
        write_varint(&mut raw, 0);
        write_varint(&mut raw, number);
    }
    let compressed = brotli_compress(&raw);
    let encoded = format!("{VERSION}{}", base64::prelude::BASE64_URL_SAFE_NO_PAD.encode(compressed));

    assert!(matches!(
        v1::decode(&encoded),
        Err(DecodeError::TooManyContentIds { limit }) if limit == MAX_CONTENT_IDS
    ));
}

#[test]
fn decode_rejects_empty_and_garbage() {
    assert!(matches!(v1::decode(""), Err(DecodeError::Empty)));
    assert!(matches!(v1::decode("1!!!"), Err(DecodeError::Base64(_))));
}

#[test]
fn encode_rejects_too_many_content_ids() {
    let mut state = sample_state();
    state.content_ids = (0..=MAX_CONTENT_IDS).map(|n| content_id("sm", n)).collect();
    assert_eq!(v1::encode(&state), Err(v1::EncodeError::TooManyContentIds));
    state.content_ids.pop();
    let encoded = v1::encode(&state).unwrap();
    assert_eq!(v1::decode(&encoded).unwrap(), state);
}

#[test]
fn share_state_roundtrips_through_current_version() {
    let state = ShareState {
        search: SearchState {
            tag: "tag\\with\0escapes".to_owned(),
            uploaded_since: None,
            uploaded_until: Some(-1),
            view_min: None,
            view_max: Some(0),
            result_count: 7,
        },
        content_ids: vec![content_id("sm", 9), content_id("so", 9), content_id("sm", 10)],
    };
    let encoded = share::encode(state.clone()).unwrap();
    assert_eq!(share::decode(&encoded).unwrap(), state);
}

#[test]
fn varint_and_bytes_roundtrip() {
    for value in [0u64, 1, 127, 128, 300, u64::MAX] {
        let mut encoded = Vec::new();
        write_varint(&mut encoded, value);
        assert_eq!(parse_varint(&encoded, 0).unwrap(), (encoded.len(), value));
    }
    let mut encoded = Vec::new();
    write_varint(&mut encoded, 300);
    assert_eq!(encoded, vec![0xac, 0x02]);
    let bytes = vec![0u8, 1, b'\\', 0, 255];
    let mut encoded = Vec::new();
    write_bytes(&mut encoded, &bytes);
    assert_eq!(parse_bytes(&encoded, 0).unwrap(), (encoded.len(), bytes));
}

#[test]
fn zigzag_roundtrip() {
    assert_eq!(encode_signed(0), 0);
    assert_eq!(encode_signed(-1), 1);
    assert_eq!(encode_signed(1), 2);
    assert_eq!(encode_signed(i64::MIN), u64::MAX);
    for value in [0i64, -1, 1, i64::MIN, i64::MAX, -377_705_116_800] {
        assert_eq!(decode_signed(encode_signed(value)), value);
    }
}

#[test]
fn decode_rejects_timestamps_out_of_range() {
    let mut state = sample_state();
    state.search.uploaded_since = Some(v1::MAX_UNIX_TIMESTAMP + 1);
    let encoded = v1::encode(&state).unwrap();
    assert!(matches!(v1::decode(&encoded), Err(DecodeError::Timestamp(_))));
    state.search.uploaded_since = Some(v1::MIN_UNIX_TIMESTAMP);
    let encoded = v1::encode(&state).unwrap();
    assert_eq!(v1::decode(&encoded).unwrap(), state);
}

#[test]
fn encoded_text_is_version_and_url_safe_base64() {
    let encoded = v1::encode(&sample_state()).unwrap();
    let mut chars = encoded.chars();
    assert_eq!(chars.next(), Some(VERSION));
    assert!(chars.all(|c| c.is_ascii_alphanumeric() || c == '-' || c == '_'));
}

#[test]
fn decode_errors_have_their_messages() {
    assert_eq!(DecodeError::Empty.message(), "共有データが空です");
    assert_eq!(DecodeError::UnsupportedVersion('2').message(), "未対応の共有データバージョンです: 2");
    assert_eq!(
        DecodeError::DecompressedSizeLimitExceeded { limit: MAX_DECOMPRESSED_SIZE }.message(),
        "共有データの展開後サイズが大きすぎます: limit=65536 bytes"
    );
    assert_eq!(
        DecodeError::TooManyContentIds { limit: MAX_CONTENT_IDS }.message(),
        "共有データのcontentIdsが多すぎます: limit=100"
    );
    assert_eq!(DecodeError::InvalidEscapeSequence.message(), "デコードに失敗しました: InvalidEscapeSequence");
    assert_eq!(DecodeError::TrailingBytes.message(), "デコードに失敗しました: TrailingBytes");
    assert_eq!(DecodeError::UnexpectedEof.message(), "デコードに失敗しました: UnexpectedEof");
    assert_eq!(DecodeError::InvalidContentIdPrefix.message(), "デコードに失敗しました: InvalidContentIdPrefix");
    assert_eq!(DecodeError::InvalidVarint.message(), "デコードに失敗しました: InvalidVarint");
}

#[test]
fn decode_errors_from_outside_crates_show_their_debug_text() {
    let error = v1::decode("1!!!").unwrap_err();
    assert!(matches!(error, DecodeError::Base64(_)));
    assert_eq!(error.message(), format!("デコードに失敗しました: {error:?}"));
    assert!(error.message().starts_with("デコードに失敗しました: Base64(InvalidByte("));

    let shared = share::decode("").unwrap_err();
    assert_eq!(shared.message(), "共有データが空です");
}
