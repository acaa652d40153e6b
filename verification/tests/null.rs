use bytes::BytesMut;
use simple_redis::{RespDecode, RespEncode, RespError, RespFrame, RespNull};

#[test]
fn null_test_null_decode() -> Result<(), RespError> {
    let mut buf = BytesMut::new();
    buf.extend_from_slice(b"_\r\n");
    let frame = RespNull::decode(&mut buf)?;
    assert_eq!(frame, RespNull);
    Ok(())
}

#[test]
fn null_test_null_encode() {
    let frame: RespFrame = RespNull::new().into();

    assert_eq!(frame.encode(), b"_\r\n");
}
