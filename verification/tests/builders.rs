use simple_redis::{
    BulkString, RespArray, RespDouble, RespFrame, RespMap, RespNull, RespNullArray,
    RespNullBulkString, RespSet, SimpleError, SimpleString,
};

#[test]
fn simple_string_builders_and_getters() {
    let s = SimpleString::new("OK".to_string());
    assert_eq!(s, SimpleString::from("OK"));
    assert_eq!(s.len(), 2);
    let text: &str = s.as_ref();
    assert_eq!(text, "OK");
    assert_eq!(s.0, "OK");
}

#[test]
fn simple_error_builders_and_getters() {
    let e = SimpleError::new("ERR".to_string());
    assert_eq!(e, SimpleError::from("ERR"));
    assert_eq!(e.as_str(), "ERR");
}

#[test]
fn bulk_string_builders_and_getters() {
    let b = BulkString::new(b"hello".to_vec());
    assert_eq!(b, BulkString::from("hello"));
    assert_eq!(b, BulkString::from("hello".to_string()));
    assert_eq!(b, BulkString::from(&b"hello"[..]));
    assert_eq!(b, BulkString::from(b"hello"));
    assert_eq!(b.len(), 5);
    let bytes: &[u8] = b.as_ref();
    assert_eq!(bytes, b"hello");
    assert_eq!(BulkString::from("h\u{e9}").0, vec![0x68, 0xc3, 0xa9]);
}

#[test]
fn frame_from_each_kind() {
    assert_eq!(
        RespFrame::from(SimpleString::from("a")),
        RespFrame::SimpleString(SimpleString::from("a"))
    );
    assert_eq!(
        RespFrame::from(SimpleError::from("a")),
        RespFrame::Error(SimpleError::from("a"))
    );
    assert_eq!(RespFrame::from(5i64), RespFrame::Integer(5));
    assert_eq!(
        RespFrame::from(BulkString::from("a")),
        RespFrame::BulkString(BulkString::from("a"))
    );
    assert_eq!(
        RespFrame::from(RespNullBulkString),
        RespFrame::NullBulkString(RespNullBulkString)
    );
    assert_eq!(
        RespFrame::from(RespArray::new(vec![])),
        RespFrame::Array(RespArray::new(vec![]))
    );
    assert_eq!(
        RespFrame::from(RespNullArray),
        RespFrame::NullArray(RespNullArray)
    );
    assert_eq!(RespFrame::from(RespNull::new()), RespFrame::Null(RespNull));
    assert_eq!(RespFrame::from(true), RespFrame::Boolean(true));
    let d = RespDouble::new(b"1.5".to_vec()).unwrap();
    assert_eq!(RespFrame::from(d.clone()), RespFrame::Double(d));
    assert_eq!(
        RespFrame::from(RespMap::new()),
        RespFrame::RespMap(RespMap::default())
    );
    assert_eq!(
        RespFrame::from(RespSet::new(vec![])),
        RespFrame::RespSet(RespSet::new(vec![]))
    );
    assert_eq!(
        RespFrame::from("text"),
        RespFrame::SimpleString(SimpleString::from("text"))
    );
    assert_eq!(
        RespFrame::from(&b"bytes"[..]),
        RespFrame::BulkString(BulkString::from("bytes"))
    );
    assert_eq!(
        RespFrame::from(b"bytes"),
        RespFrame::BulkString(BulkString::from("bytes"))
    );
}

#[test]
fn aggregates_give_their_members() {
    let a = RespArray::new(vec![RespFrame::Integer(1), RespFrame::Integer(2)]);
    assert_eq!(a.len(), 2);
    assert_eq!(a[1], RespFrame::Integer(2));
    let s = RespSet::new(vec![RespFrame::Integer(1)]);
    assert_eq!(s.len(), 1);
    assert_eq!(s.first(), Some(&RespFrame::Integer(1)));
    assert_eq!(a.clone(), a);
    assert_eq!(s.clone(), s);
}

#[test]
fn double_gives_its_text() {
    let d = RespDouble::new(b"-2.5e3".to_vec()).unwrap();
    assert_eq!(&d[..], b"-2.5e3");
    assert_eq!(d.0, b"-2.5e3".to_vec());
}
