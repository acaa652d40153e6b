use bytes::BytesMut;
use simple_redis::{BulkString, RespDecode, RespEncode, RespError, RespFrame, RespNullBulkString};

#[test]
fn bulk_string_test_bulk_string_decode() -> Result<(), RespError> {
    let mut buf = BytesMut::new();
    buf.extend_from_slice(b"$5\r\nhello\r\n");

    let frame = BulkString::decode(&mut buf)?;
    assert_eq!(frame, BulkString::from(b"hello"));
    buf.extend_from_slice(b"$5\r\nhello");
    let ret = BulkString::decode(&mut buf);
    assert_eq!(ret.unwrap_err(), RespError::NotComplete);
    buf.extend_from_slice(b"\r\n");
    let frame = BulkString::decode(&mut buf)?;
    assert_eq!(frame, BulkString::from(b"hello"));
    Ok(())
}

#[test]
fn bulk_string_test_null_bulk_string_decode() -> Result<(), RespError> {
    let mut buf = BytesMut::new();
    buf.extend_from_slice(b"$-1\r\n");
    let frame = RespNullBulkString::decode(&mut buf)?;
    assert_eq!(frame, RespNullBulkString);
    Ok(())
}

#[test]
fn bulk_string_test_bulk_string_encode() {
    let frame: RespFrame = BulkString::from("OK".to_string()).into();
    assert_eq!(frame.encode(), b"$2\r\nOK\r\n");
}

#[test]
fn test_null_bulk_string_encode() {
    let frame: RespFrame = RespNullBulkString.into();
    assert_eq!(frame.encode(), b"$-1\r\n");
}
