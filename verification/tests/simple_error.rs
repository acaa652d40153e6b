use bytes::BytesMut;
use simple_redis::{RespDecode, RespEncode, RespError, RespFrame, SimpleError};

#[test]
fn simple_error_test_simple_error_decode() -> Result<(), RespError> {
    let mut buf = BytesMut::new();
    buf.extend_from_slice(b"-Error message\r\n");
    let frame = SimpleError::decode(&mut buf)?;
    assert_eq!(frame, SimpleError::new("Error message".to_string()));
    Ok(())
}

#[test]
fn simple_error_test_simple_error_encode() {
    let frame: RespFrame = SimpleError::new("Error message".to_string()).into();
    assert_eq!(frame.encode(), b"-Error message\r\n");
}

#[test]
fn test_error_encode() {
    let frame: RespFrame = SimpleError::new("Error message".to_string()).into();
    assert_eq!(frame.encode(), b"-Error message\r\n");
}
