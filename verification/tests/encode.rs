use simple_redis::{
    BulkString, RespArray, RespDouble, RespEncode, RespFrame, RespMap, RespNull, RespSet,
    SimpleError, SimpleString,
};

#[test]
fn encode_test_simple_string_encode() {
    let frame: RespFrame = SimpleString::new("OK".to_string()).into();
    assert_eq!(frame.encode(), b"+OK\r\n");
}

#[test]
fn encode_test_simple_error_encode() {
    let frame: RespFrame = SimpleError::new("Error message".to_string()).into();
    assert_eq!(frame.encode(), b"-Error message\r\n");
}

#[test]
fn test_integer_encode() {
    let frame: RespFrame = 123.into();
    assert_eq!(frame.encode(), b":+123\r\n");
    let frame: RespFrame = (-123).into();
    assert_eq!(frame.encode(), b":-123\r\n");
}

#[test]
fn encode_test_bulk_string_encode() {
    let frame: RespFrame = BulkString::from("OK".to_string()).into();
    assert_eq!(frame.encode(), b"$2\r\nOK\r\n");
}

#[test]
fn encode_test_array_encode() {
    let frame: RespFrame = RespArray::new(vec![
        BulkString::from("set".to_string()).into(),
        BulkString::from("hello".to_string()).into(),
        BulkString::from("world".to_string()).into(),
    ])
    .into();
    assert_eq!(
        frame.encode(),
        b"*3\r\n$3\r\nset\r\n$5\r\nhello\r\n$5\r\nworld\r\n"
    );
}

#[test]
fn encode_test_null_encode() {
    let frame: RespFrame = RespNull::new().into();

    assert_eq!(frame.encode(), b"_\r\n");
}

#[test]
fn test_boolean_encode() {
    let frame: RespFrame = true.into();
    assert_eq!(frame.encode(), b"#t\r\n");
    let frame: RespFrame = false.into();
    assert_eq!(frame.encode(), b"#f\r\n");
}

#[test]
fn test_double_encode() {
    let value: f64 = 123.456;
    let frame: RespFrame =
        RespDouble::from_renderings(&format!("{}", value), &format!("{:e}", value))
            .unwrap()
            .into();
    assert_eq!(frame.encode(), b",+123.456\r\n");
    let value: f64 = -123.456;
    let frame: RespFrame =
        RespDouble::from_renderings(&format!("{}", value), &format!("{:e}", value))
            .unwrap()
            .into();
    assert_eq!(frame.encode(), b",-123.456\r\n");
    let value: f64 = 1.23456e+8;
    let frame: RespFrame =
        RespDouble::from_renderings(&format!("{}", value), &format!("{:e}", value))
            .unwrap()
            .into();
    assert_eq!(frame.encode(), b",+1.23456e8\r\n");
    let value: f64 = -1.23456e-9;
    let frame: RespFrame =
        RespDouble::from_renderings(&format!("{}", value), &format!("{:e}", value))
            .unwrap()
            .into();
    assert_eq!(frame.encode(), b",-1.23456e-9\r\n");
}

#[test]
fn encode_test_map_encode() {
    let mut map: RespMap = RespMap::new();
    map.insert(
        "key".to_string(),
        SimpleString::new("value".to_string()).into(),
    );
    let frame: RespFrame = map.into();
    assert_eq!(frame.encode(), b"%1\r\n+key\r\n+value\r\n");
}

#[test]
fn test_set_encode() {
    let frame: RespSet = RespSet::new(vec![
        SimpleString::new("value".to_string()).into(),
        BulkString::from("world".to_string()).into(),
    ]);
    assert_eq!(frame.encode(), b"~2\r\n+value\r\n$5\r\nworld\r\n");
}
