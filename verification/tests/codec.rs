use respkv::codec::{decode, encode, DecodeResult, ReplyValue};

fn bulk(b: &[u8]) -> ReplyValue {
    ReplyValue::Bulk(b.to_vec())
}

fn decode_all(bytes: &[u8]) -> (ReplyValue, usize) {
    let buf = bytes.to_vec();
    match decode(&buf, 0) {
        DecodeResult::Value(v, end) => (v, end),
        DecodeResult::EndOfStream => panic!("unexpected end of stream"),
        DecodeResult::NeedMore => panic!("unexpected incomplete value"),
        DecodeResult::Malformed => panic!("unexpected malformed value"),
    }
}

fn round_trip(v: ReplyValue) {
    let bytes = encode(&v);
    let (back, end) = decode_all(&bytes);
    assert_eq!(end, bytes.len());
    assert_eq!(encode(&back), bytes);
}

#[test]
fn round_trip_status() {
    round_trip(ReplyValue::Status(b"OK".to_vec()));
}

#[test]
fn round_trip_error() {
    round_trip(ReplyValue::Error(b"something went wrong".to_vec()));
}

#[test]
fn round_trip_bulk() {
    round_trip(bulk(b"hello world"));
}

#[test]
fn round_trip_empty_bulk() {
    let v = bulk(b"");
    let bytes = encode(&v);
    assert_eq!(bytes, b"$0\r\n\r\n".to_vec());
    round_trip(v);
}

#[test]
fn round_trip_null() {
    let v = ReplyValue::Null;
    let bytes = encode(&v);
    assert_eq!(bytes, b"$-1\r\n".to_vec());
    round_trip(v);
}

#[test]
fn round_trip_binary_bulk() {
    round_trip(bulk(&[0, 13, 10, 255, 36, 42]));
}

#[test]
fn round_trip_array() {
    round_trip(ReplyValue::Array(vec![
        ReplyValue::Status(b"OK".to_vec()),
        bulk(b"abc"),
        ReplyValue::Null,
        ReplyValue::Error(b"e".to_vec()),
    ]));
}

#[test]
fn round_trip_nested_array() {
    round_trip(ReplyValue::Array(vec![
        ReplyValue::Array(vec![bulk(b"x"), bulk(b"y")]),
        ReplyValue::Array(vec![]),
        bulk(b"tail"),
    ]));
}

#[test]
fn encode_exact_bytes() {
    assert_eq!(encode(&ReplyValue::Status(b"PONG".to_vec())), b"+PONG\r\n".to_vec());
    assert_eq!(encode(&ReplyValue::Error(b"bad".to_vec())), b"-bad\r\n".to_vec());
    assert_eq!(encode(&bulk(b"bar")), b"$3\r\nbar\r\n".to_vec());
    assert_eq!(
        encode(&ReplyValue::Array(vec![bulk(b"a"), bulk(b"bc")])),
        b"*2\r\n$1\r\na\r\n$2\r\nbc\r\n".to_vec()
    );
}

#[test]
fn decode_request_array() {
    let (v, end) = decode_all(b"*3\r\n$3\r\nSET\r\n$3\r\nfoo\r\n$3\r\nbar\r\n");
    assert_eq!(end, 31);
    match v {
        ReplyValue::Array(items) => {
            assert_eq!(items.len(), 3);
            match &items[0] {
                ReplyValue::Bulk(b) => assert_eq!(b, &b"SET".to_vec()),
                _ => panic!("expected a bulk string"),
            }
            match &items[2] {
                ReplyValue::Bulk(b) => assert_eq!(b, &b"bar".to_vec()),
                _ => panic!("expected a bulk string"),
            }
        },
        _ => panic!("expected an array"),
    }
}

#[test]
fn decode_end_of_stream() {
    let buf: Vec<u8> = Vec::new();
    assert!(matches!(decode(&buf, 0), DecodeResult::EndOfStream));
    let buf = b"+OK\r\n".to_vec();
    assert!(matches!(decode(&buf, 5), DecodeResult::EndOfStream));
}

#[test]
fn decode_incomplete() {
    for partial in [
        &b"$"[..],
        b"$3",
        b"$3\r",
        b"$3\r\n",
        b"$3\r\nba",
        b"$3\r\nbar",
        b"$3\r\nbar\r",
        b"+OK",
        b"*2\r\n$1\r\na\r\n",
    ] {
        let buf = partial.to_vec();
        assert!(matches!(decode(&buf, 0), DecodeResult::NeedMore), "{:?}", partial);
    }
}

#[test]
fn decode_malformed() {
    for bad in [
        &b"!oops\r\n"[..],
        b"$x\r\n",
        b"$2\r\nabX\n",
        b"$-2\r\n",
        b"*1\r\n!b\r\n",
        b"+OK\rX",
        b"$18446744073709551616\r\n",
    ] {
        let buf = bad.to_vec();
        assert!(matches!(decode(&buf, 0), DecodeResult::Malformed), "{:?}", bad);
    }
}

#[test]
fn decode_consecutive_values() {
    let buf = b"+OK\r\n$1\r\nz\r\n".to_vec();
    let (first, end) = match decode(&buf, 0) {
        DecodeResult::Value(v, end) => (v, end),
        _ => panic!("expected a value"),
    };
    assert_eq!(encode(&first), b"+OK\r\n".to_vec());
    let (second, end2) = match decode(&buf, end) {
        DecodeResult::Value(v, end2) => (v, end2),
        _ => panic!("expected a value"),
    };
    assert_eq!(encode(&second), b"$1\r\nz\r\n".to_vec());
    assert_eq!(end2, buf.len());
}
