use bytes::BytesMut;
use simple_redis::{BulkString, RespDecode, RespEncode, RespError, RespFrame, RespMap, SimpleString};

#[test]
fn map_test_map_decode() -> Result<(), RespError> {
    let mut buf = BytesMut::new();
    buf.extend_from_slice(b"%2\r\n+set\r\n$5\r\nhello\r\n+set\r\n$5\r\nhello\r\n");
    let frame: RespMap = RespMap::decode(&mut buf)?;
    let mut map = RespMap::new();
    map.insert("set".to_string(), BulkString::new(b"hello".to_vec()).into());
    map.insert("set".to_string(), BulkString::new(b"hello".to_vec()).into());
    assert_eq!(frame, map);
    Ok(())
}

#[test]
fn map_test_map_encode() {
    let mut map: RespMap = RespMap::new();
    map.insert(
        "key".to_string(),
        SimpleString::new("value".to_string()).into(),
    );
    let frame: RespFrame = map.into();
    assert_eq!(frame.encode(), b"%1\r\n+key\r\n+value\r\n");
}
