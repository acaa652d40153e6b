use bytes::{BufMut, BytesMut};
use simple_redis::{
    calc_total_length, parse_length, BulkString, RespArray, RespDecode, RespDouble, RespError,
    RespMap, RespNull, RespNullArray, RespNullBulkString, RespSet, SimpleError, SimpleString,
};

#[test]
fn decode_test_decode_simple_string() -> Result<(), RespError> {
    let mut buf = BytesMut::new();
    buf.extend_from_slice(b"+OK\r\n");
    let frame: SimpleString = SimpleString::decode(&mut buf)?;
    assert_eq!(frame, SimpleString::new("OK".to_string()));
    buf.extend_from_slice(b"+hello\r");
    let ret = SimpleString::decode(&mut buf);
    assert_eq!(ret.unwrap_err(), RespError::NotComplete);
    buf.put_u8(b'\n');
    let frame: SimpleString = SimpleString::decode(&mut buf)?;
    assert_eq!(frame, SimpleString::new("hello".to_string()));
    Ok(())
}

#[test]
fn decode_test_simple_error_decode() -> Result<(), RespError> {
    let mut buf = BytesMut::new();
    buf.extend_from_slice(b"-Error message\r\n");
    let frame = SimpleError::decode(&mut buf)?;
    assert_eq!(frame, SimpleError::new("Error message".to_string()));
    Ok(())
}

#[test]
fn test_integer_decode() -> Result<(), RespError> {
    let mut buf = BytesMut::new();
    buf.extend_from_slice(b":+123\r\n");
    let frame = i64::decode(&mut buf)?;
    assert_eq!(frame, 123);
    buf.extend_from_slice(b":-123\r\n");
    let frame = i64::decode(&mut buf)?;
    assert_eq!(frame, -123);
    Ok(())
}

#[test]
fn decode_test_bulk_string_decode() -> Result<(), RespError> {
    let mut buf = BytesMut::new();
    buf.extend_from_slice(b"$5\r\nhello\r\n");

    let frame = BulkString::decode(&mut buf)?;
    assert_eq!(frame, BulkString::from(b"hello"));
    buf.extend_from_slice(b"$5\r\nhello");
    let ret = BulkString::decode(&mut buf);
    assert_eq!(ret.unwrap_err(), RespError::NotComplete);
    buf.extend_from_slice(b"\r\n");
    let frame = BulkString::decode(&mut buf)?;
    assert_eq!(frame, BulkString::from(b"hello"));
    Ok(())
}

#[test]
fn decode_test_null_bulk_string_decode() -> Result<(), RespError> {
    let mut buf = BytesMut::new();
    buf.extend_from_slice(b"$-1\r\n");
    let frame = RespNullBulkString::decode(&mut buf)?;
    assert_eq!(frame, RespNullBulkString);
    Ok(())
}

#[test]
fn decode_test_null_array_decode() -> Result<(), RespError> {
    let mut buf = BytesMut::new();
    buf.extend_from_slice(b"*-1\r\n");
    let frame = RespNullArray::decode(&mut buf)?;
    assert_eq!(frame, RespNullArray);
    Ok(())
}

#[test]
fn decode_test_null_decode() -> Result<(), RespError> {
    let mut buf = BytesMut::new();
    buf.extend_from_slice(b"_\r\n");
    let frame = RespNull::decode(&mut buf)?;
    assert_eq!(frame, RespNull);
    Ok(())
}

#[test]
fn test_boolean_decode() -> Result<(), RespError> {
    let mut buf = BytesMut::new();
    buf.extend_from_slice(b"#t\r\n");
    let frame = bool::decode(&mut buf)?;
    assert!(frame);

    buf.extend_from_slice(b"#f\r\n");
    let frame = bool::decode(&mut buf)?;
    assert!(!frame);

    buf.extend_from_slice(b"#f\r");
    let ret = bool::decode(&mut buf);
    assert_eq!(ret.unwrap_err(), RespError::NotComplete);
    buf.extend_from_slice(b"\n");
    let frame = bool::decode(&mut buf)?;
    assert!(!frame);

    Ok(())
}

#[test]
fn decode_test_array_decode() -> Result<(), RespError> {
    let mut buf = BytesMut::new();
    buf.extend_from_slice(b"*2\r\n$3\r\nset\r\n$5\r\nhello\r\n");

    let frame = RespArray::decode(&mut buf)?;
    assert_eq!(frame, RespArray::new(vec![b"set".into(), b"hello".into()]));

    buf.extend_from_slice(b"*2\r\n$3\r\nset\r\n");
    let ret = RespArray::decode(&mut buf);
    assert_eq!(ret.unwrap_err(), RespError::NotComplete);

    buf.extend_from_slice(b"$5\r\nhello\r\n");
    let frame = RespArray::decode(&mut buf)?;
    assert_eq!(frame, RespArray::new(vec![b"set".into(), b"hello".into()]));

    Ok(())
}

#[test]
fn test_double_decode() -> Result<(), RespError> {
    let mut buf = BytesMut::new();
    buf.extend_from_slice(b",123.456\r\n");
    let frame = RespDouble::decode(&mut buf)?;
    let value: f64 = std::str::from_utf8(&frame).unwrap().parse().unwrap();
    assert_eq!(value, 123.456);
    buf.extend_from_slice(b",+1.23456e-9\r\n");
    let frame = RespDouble::decode(&mut buf)?;
    let value: f64 = std::str::from_utf8(&frame).unwrap().parse().unwrap();
    assert_eq!(value, 1.23456e-9);
    Ok(())
}

#[test]
fn decode_test_map_decode() -> Result<(), RespError> {
    let mut buf = BytesMut::new();
    buf.extend_from_slice(b"%2\r\n+set\r\n$5\r\nhello\r\n+set\r\n$5\r\nhello\r\n");
    let frame: RespMap = RespMap::decode(&mut buf)?;
    let mut map = RespMap::new();
    map.insert("set".to_string(), BulkString::new(b"hello".to_vec()).into());
    map.insert("set".to_string(), BulkString::new(b"hello".to_vec()).into());
    assert_eq!(frame, map);
    Ok(())
}

#[test]
fn test_set_decode() -> Result<(), RespError> {
    let mut buf = BytesMut::new();
    buf.extend_from_slice(b"~2\r\n$3\r\nset\r\n$5\r\nhello\r\n");
    let frame: RespSet = RespSet::decode(&mut buf)?;
    let set = RespSet::new(vec![
        BulkString::new(b"set".to_vec()).into(),
        BulkString::new(b"hello".to_vec()).into(),
    ]);
    assert_eq!(frame, set);
    Ok(())
}

#[test]
fn decode_test_calc_array_length() -> Result<(), RespError> {
    let buf = b"*2\r\n$3\r\nset\r\n$5\r\nhello\r\n";
    let (end, len) = parse_length(buf, "*")?;
    let total_len = calc_total_length(buf, end, len, "*")?;
    assert_eq!(total_len, buf.len());

    let buf = b"*2\r\n$3\r\nset\r\n";
    let (end, len) = parse_length(buf, "*")?;
    let ret = calc_total_length(buf, end, len, "*");
    assert_eq!(ret.unwrap_err(), RespError::NotComplete);
    Ok(())
}
