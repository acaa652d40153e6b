use bytes::BytesMut;
use simple_redis::{
    calc_total_length, parse_length, BulkString, RespArray, RespDecode, RespEncode, RespError,
    RespFrame, RespNullArray,
};

#[test]
fn array_test_null_array_decode() -> Result<(), RespError> {
    let mut buf = BytesMut::new();
    buf.extend_from_slice(b"*-1\r\n");
    let frame = RespNullArray::decode(&mut buf)?;
    assert_eq!(frame, RespNullArray);
    Ok(())
}

#[test]
fn array_test_array_decode() -> Result<(), RespError> {
    let mut buf = BytesMut::new();
    buf.extend_from_slice(b"*2\r\n$3\r\nset\r\n$5\r\nhello\r\n");

    let frame = RespArray::decode(&mut buf)?;
    assert_eq!(frame, RespArray::new(vec![b"set".into(), b"hello".into()]));

    buf.extend_from_slice(b"*2\r\n$3\r\nset\r\n");
    let ret = RespArray::decode(&mut buf);
    assert_eq!(ret.unwrap_err(), RespError::NotComplete);

    buf.extend_from_slice(b"$5\r\nhello\r\n");
    let frame = RespArray::decode(&mut buf)?;
    assert_eq!(frame, RespArray::new(vec![b"set".into(), b"hello".into()]));

    Ok(())
}

#[test]
fn array_test_array_encode() {
    let frame: RespFrame = RespArray::new(vec![
        BulkString::from("set".to_string()).into(),
        BulkString::from("hello".to_string()).into(),
        BulkString::from("world".to_string()).into(),
    ])
    .into();
    assert_eq!(
        frame.encode(),
        b"*3\r\n$3\r\nset\r\n$5\r\nhello\r\n$5\r\nworld\r\n"
    );
}

#[test]
fn array_test_calc_array_length() -> Result<(), RespError> {
    let buf = b"*2\r\n$3\r\nset\r\n$5\r\nhello\r\n";
    let (end, len) = parse_length(buf, "*")?;
    let total_len = calc_total_length(buf, end, len, "*")?;
    assert_eq!(total_len, buf.len());

    let buf = b"*2\r\n$3\r\nset\r\n";
    let (end, len) = parse_length(buf, "*")?;
    let ret = calc_total_length(buf, end, len, "*");
    assert_eq!(ret.unwrap_err(), RespError::NotComplete);
    Ok(())
}
