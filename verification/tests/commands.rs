use respkv::codec::{decode, encode, DecodeResult, ReplyValue};
use respkv::dispatch::{dispatch, extract_command, unpack_bulk_string, RequestError};
use respkv::store::Store;

fn bulk(b: &[u8]) -> ReplyValue {
    ReplyValue::Bulk(b.to_vec())
}

fn request(parts: &[&[u8]]) -> ReplyValue {
    ReplyValue::Array(parts.iter().map(|p| bulk(p)).collect())
}

fn error_text(r: &ReplyValue) -> Vec<u8> {
    match r {
        ReplyValue::Error(m) => m.clone(),
        _ => panic!("expected an error reply"),
    }
}

#[test]
fn ping_replies_pong() {
    let mut s = Store::new();
    let r = dispatch(request(&[b"PING"]), &mut s, 0, false);
    assert_eq!(encode(&r), b"+PONG\r\n".to_vec());
}

#[test]
fn echo_replies_argument() {
    let mut s = Store::new();
    let r = dispatch(request(&[b"ECHO", b"hello"]), &mut s, 0, false);
    assert_eq!(encode(&r), b"$5\r\nhello\r\n".to_vec());
}

#[test]
fn echo_without_argument_is_an_arity_error() {
    let mut s = Store::new();
    let r = dispatch(request(&[b"ECHO"]), &mut s, 0, false);
    assert_eq!(error_text(&r), b"wrong number of arguments for 'echo' command".to_vec());
}

#[test]
fn set_arity_error_literal_text() {
    let mut s = Store::new();
    let r = dispatch(request(&[b"SET", b"k"]), &mut s, 0, false);
    assert_eq!(error_text(&r), b"wrong number of arguments for 'set' command".to_vec());
}

#[test]
fn get_arity_error_literal_text() {
    let mut s = Store::new();
    let r = dispatch(request(&[b"GET"]), &mut s, 0, false);
    assert_eq!(error_text(&r), b"wrong number of arguments for 'get' command".to_vec());
}

#[test]
fn set_then_get() {
    let mut s = Store::new();
    let r = dispatch(request(&[b"SET", b"foo", b"bar"]), &mut s, 0, false);
    assert_eq!(encode(&r), b"+OK\r\n".to_vec());
    let r = dispatch(request(&[b"GET", b"foo"]), &mut s, 0, false);
    assert_eq!(encode(&r), b"$3\r\nbar\r\n".to_vec());
}

#[test]
fn get_missing_key_is_null() {
    let mut s = Store::new();
    let r = dispatch(request(&[b"GET", b"nothing"]), &mut s, 0, false);
    assert_eq!(encode(&r), b"$-1\r\n".to_vec());
}

#[test]
fn set_with_unsupported_option() {
    let mut s = Store::new();
    let r = dispatch(request(&[b"SET", b"k", b"v", b"EX", b"10"]), &mut s, 0, false);
    assert_eq!(error_text(&r), b"option not supported".to_vec());
}

#[test]
fn set_with_non_bulk_option() {
    let mut s = Store::new();
    let req = ReplyValue::Array(vec![bulk(b"SET"), bulk(b"k"), bulk(b"v"), ReplyValue::Null]);
    let r = dispatch(req, &mut s, 0, false);
    assert_eq!(error_text(&r), b"option is not a bulk string".to_vec());
}

#[test]
fn set_px_without_value() {
    let mut s = Store::new();
    let r = dispatch(request(&[b"SET", b"k", b"v", b"PX"]), &mut s, 0, false);
    assert_eq!(error_text(&r), b"argument is not a bulk string".to_vec());
}

#[test]
fn set_px_with_unparseable_value() {
    let mut s = Store::new();
    let r = dispatch(request(&[b"SET", b"k", b"v", b"PX", b"soon"]), &mut s, 0, false);
    assert_eq!(error_text(&r), b"argument is not a bulk string".to_vec());
}

#[test]
fn set_px_with_overflowing_value() {
    let mut s = Store::new();
    // one past u64::MAX
    let r = dispatch(
        request(&[b"SET", b"k", b"v", b"PX", b"18446744073709551616"]),
        &mut s,
        0,
        false,
    );
    assert_eq!(error_text(&r), b"argument is not a bulk string".to_vec());
}

#[test]
fn set_px_expiry_applies() {
    let mut s = Store::new();
    let r = dispatch(request(&[b"SET", b"k", b"v", b"px", b"100"]), &mut s, 1000, false);
    assert_eq!(encode(&r), b"+OK\r\n".to_vec());
    let r = dispatch(request(&[b"GET", b"k"]), &mut s, 1050, false);
    assert_eq!(encode(&r), b"$1\r\nv\r\n".to_vec());
    let r = dispatch(request(&[b"GET", b"k"]), &mut s, 1150, false);
    assert_eq!(encode(&r), b"$-1\r\n".to_vec());
}

#[test]
fn command_names_are_case_insensitive() {
    let mut s = Store::new();
    let r = dispatch(request(&[b"SeT", b"k", b"v"]), &mut s, 0, false);
    assert_eq!(encode(&r), b"+OK\r\n".to_vec());
    let r = dispatch(request(&[b"get", b"k"]), &mut s, 0, false);
    assert_eq!(encode(&r), b"$1\r\nv\r\n".to_vec());
    let r = dispatch(request(&[b"pInG"]), &mut s, 0, false);
    assert_eq!(encode(&r), b"+PONG\r\n".to_vec());
}

#[test]
fn unknown_command_names_the_command() {
    let mut s = Store::new();
    let r = dispatch(request(&[b"FLUSHALL"]), &mut s, 0, false);
    assert_eq!(error_text(&r), b"unknown command 'flushall'".to_vec());
}

#[test]
fn info_reports_master_role() {
    let mut s = Store::new();
    let r = dispatch(request(&[b"INFO"]), &mut s, 0, false);
    let expected =
        b"role:mastermaster_replid:8371b4fb1155b71f4a04d3e1bc3e18c4a990aeebmaster_repl_offset:0";
    match r {
        ReplyValue::Bulk(b) => assert_eq!(b, expected.to_vec()),
        _ => panic!("expected a bulk reply"),
    }
}

#[test]
fn info_reports_slave_role_for_replica() {
    let mut s = Store::new();
    let r = dispatch(request(&[b"INFO"]), &mut s, 0, true);
    let expected =
        b"role:slavemaster_replid:8371b4fb1155b71f4a04d3e1bc3e18c4a990aeebmaster_repl_offset:0";
    match r {
        ReplyValue::Bulk(b) => assert_eq!(b, expected.to_vec()),
        _ => panic!("expected a bulk reply"),
    }
}

#[test]
fn info_ignores_extra_arguments() {
    let mut s = Store::new();
    let r = dispatch(request(&[b"INFO", b"replication"]), &mut s, 0, false);
    assert!(matches!(r, ReplyValue::Bulk(_)));
}

#[test]
fn empty_array_request_is_refused() {
    let mut s = Store::new();
    let r = dispatch(ReplyValue::Array(vec![]), &mut s, 0, false);
    assert_eq!(error_text(&r), b"unexpected command format".to_vec());
}

#[test]
fn non_array_request_is_refused() {
    let mut s = Store::new();
    let r = dispatch(bulk(b"PING"), &mut s, 0, false);
    assert_eq!(error_text(&r), b"unexpected command format".to_vec());
}

#[test]
fn extract_command_errors() {
    assert_eq!(extract_command(bulk(b"x")).unwrap_err(), RequestError::NotArray);
    assert_eq!(
        extract_command(ReplyValue::Array(vec![])).unwrap_err(),
        RequestError::EmptyRequest
    );
    assert_eq!(
        extract_command(ReplyValue::Array(vec![ReplyValue::Null])).unwrap_err(),
        RequestError::NameNotBulk
    );
    let (name, args) = extract_command(request(&[b"GET", b"k"])).unwrap();
    assert_eq!(name, b"GET".to_vec());
    assert_eq!(args.len(), 1);
}

#[test]
fn unpack_bulk_string_accepts_only_bulk() {
    assert_eq!(unpack_bulk_string(bulk(b"abc")).unwrap(), b"abc".to_vec());
    assert!(unpack_bulk_string(ReplyValue::Null).is_err());
    assert!(unpack_bulk_string(ReplyValue::Status(b"OK".to_vec())).is_err());
}

#[test]
fn end_to_end_scenario() {
    // one connection's request bytes, dispatched against a shared store
    // with a simulated clock
    let mut s = Store::new();
    let mut run = |wire: &[u8], now: u64| -> Vec<u8> {
        let buf = wire.to_vec();
        let v = match decode(&buf, 0) {
            DecodeResult::Value(v, end) => {
                assert_eq!(end, buf.len());
                v
            },
            _ => panic!("request did not decode"),
        };
        encode(&dispatch(v, &mut s, now, false))
    };
    let r = run(b"*5\r\n$3\r\nSET\r\n$3\r\nfoo\r\n$3\r\nbar\r\n$2\r\nPX\r\n$2\r\n50\r\n", 0);
    assert_eq!(r, b"+OK\r\n".to_vec());
    let r = run(b"*2\r\n$3\r\nGET\r\n$3\r\nfoo\r\n", 0);
    assert_eq!(r, b"$3\r\nbar\r\n".to_vec());
    let r = run(b"*2\r\n$3\r\nGET\r\n$3\r\nfoo\r\n", 60);
    assert_eq!(r, b"$-1\r\n".to_vec());
    let r = run(b"*2\r\n$4\r\nECHO\r\n$5\r\nhello\r\n", 60);
    assert_eq!(r, b"$5\r\nhello\r\n".to_vec());
    let r = run(b"*1\r\n$4\r\nPING\r\n", 60);
    assert_eq!(r, b"+PONG\r\n".to_vec());
}
