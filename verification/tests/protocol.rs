use metricrs::codec::{build_query, decode_query, decode_result, encode_query, encode_result,
    frame, frame_len};
use metricrs::wire::{InstrumentKind, Metadata, Query, QueryResult, Value, WireError};

fn labels(pairs: &[(&str, &str)]) -> Vec<(String, String)> {
    pairs.iter().map(|(k, v)| (k.to_string(), v.to_string())).collect()
}

#[test]
fn query_encodes_as_eight_little_endian_bytes() {
    let body = encode_query(&Query { version: 0x0102_0304_0506_0708 });
    assert_eq!(body, vec![0x08, 0x07, 0x06, 0x05, 0x04, 0x03, 0x02, 0x01]);
}

#[test]
fn query_decode_round_trip() {
    let body = encode_query(&Query { version: 42 });
    let q = decode_query(&body).expect("valid query body");
    assert_eq!(q.version, 42);
}

#[test]
fn query_decode_rejects_wrong_length() {
    assert_eq!(decode_query(&[0u8; 7]), Err(WireError::Malformed));
    assert_eq!(decode_query(&[0u8; 9]), Err(WireError::Malformed));
    assert_eq!(decode_query(&[]), Err(WireError::Malformed));
}

#[test]
fn frame_prefixes_big_endian_length() {
    let body: Vec<u8> = vec![9, 9, 9, 9, 9];
    let f = frame(&body).expect("small body fits");
    assert_eq!(f.len(), body.len() + 4);
    assert_eq!(&f[0..4], &[0, 0, 0, 5]);
    assert_eq!(&f[4..], &body[..]);
    assert_eq!(frame_len(&f[0..4]), 5);
}

#[test]
fn framed_query_parses_back() {
    let f = build_query(&Query { version: 7 });
    assert_eq!(f.len(), 12);
    let n = frame_len(&f[0..4]);
    assert_eq!(n, 8);
    let q = decode_query(&f[4..]).expect("framed body is a query");
    assert_eq!(q.version, 7);
}

#[test]
fn result_round_trip_with_unicode_metadata() {
    let r = QueryResult {
        values: vec![Value { hash: 11, value: 250 }, Value { hash: 22, value: 0 }],
        metadatas: vec![
            Metadata {
                hash: 11,
                kind: InstrumentKind::Counter,
                name: "naïve.requests.총".to_string(),
                labels: labels(&[("host", "a-1"), ("région", "ÜÅ")]),
            },
            Metadata {
                hash: 22,
                kind: InstrumentKind::Histogram,
                name: "lat".to_string(),
                labels: labels(&[]),
            },
        ],
        version: 2,
    };
    let body = encode_result(&r).expect("small result encodes");
    let back = decode_result(&body).expect("own encoding decodes");
    assert_eq!(back.version, 2);
    assert_eq!(back.values, r.values);
    assert_eq!(back.metadatas.len(), 2);
    assert_eq!(back.metadatas[0].hash, 11);
    assert_eq!(back.metadatas[0].kind, InstrumentKind::Counter);
    assert_eq!(back.metadatas[0].name, "naïve.requests.총");
    assert_eq!(back.metadatas[0].labels, r.metadatas[0].labels);
    assert_eq!(back.metadatas[1].kind, InstrumentKind::Histogram);
    assert!(back.metadatas[1].labels.is_empty());
}

#[test]
fn result_decode_rejects_truncated_bodies() {
    let r = QueryResult {
        values: vec![Value { hash: 5, value: 6 }],
        metadatas: vec![Metadata {
            hash: 5,
            kind: InstrumentKind::Gauge,
            name: "g".to_string(),
            labels: labels(&[("k", "v")]),
        }],
        version: 1,
    };
    let body = encode_result(&r).expect("encodes");
    for cut in [0, 3, 4, 10, body.len() - 1] {
        assert_eq!(decode_result(&body[0..cut]), Err(WireError::Malformed), "cut {cut}");
    }
    let mut extended = body.clone();
    extended.push(0);
    assert_eq!(decode_result(&extended), Err(WireError::Malformed));
}

#[test]
fn result_decode_rejects_unknown_kind_byte() {
    let r = QueryResult {
        values: vec![],
        metadatas: vec![Metadata {
            hash: 1,
            kind: InstrumentKind::Counter,
            name: "c".to_string(),
            labels: labels(&[]),
        }],
        version: 1,
    };
    let mut body = encode_result(&r).expect("encodes");
    // the kind byte of the first metadata follows the two counts and its hash
    let kind_pos = 4 + 4 + 8;
    assert_eq!(body[kind_pos], 0);
    body[kind_pos] = 9;
    assert_eq!(decode_result(&body), Err(WireError::Malformed));
}

#[test]
fn result_decode_rejects_invalid_utf8_name() {
    let r = QueryResult {
        values: vec![],
        metadatas: vec![Metadata {
            hash: 1,
            kind: InstrumentKind::Counter,
            name: "ab".to_string(),
            labels: labels(&[]),
        }],
        version: 1,
    };
    let mut body = encode_result(&r).expect("encodes");
    let name_pos = 4 + 4 + 8 + 1 + 4;
    assert_eq!(&body[name_pos..name_pos + 2], b"ab");
    body[name_pos] = 0xff;
    body[name_pos + 1] = 0xfe;
    assert_eq!(decode_result(&body), Err(WireError::Malformed));
}

#[test]
fn kind_bytes_cover_all_instruments() {
    for (kind, byte) in [
        (InstrumentKind::Counter, 0u8),
        (InstrumentKind::Gauge, 1u8),
        (InstrumentKind::Histogram, 2u8),
    ] {
        let r = QueryResult {
            values: vec![],
            metadatas: vec![Metadata {
                hash: 1,
                kind,
                name: "x".to_string(),
                labels: labels(&[]),
            }],
            version: 1,
        };
        let body = encode_result(&r).expect("encodes");
        assert_eq!(body[4 + 4 + 8], byte);
        let back = decode_result(&body).expect("decodes");
        assert_eq!(back.metadatas[0].kind, kind);
    }
}
