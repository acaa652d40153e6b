use bytes::BytesMut;
use simple_redis::{
    try_decode_one, BulkString, RespArray, RespDecode, RespDouble, RespEncode, RespError,
    RespFrame, RespMap, RespNull, RespNullArray, RespNullBulkString, RespSet, SimpleError,
    SimpleString,
};

fn sample_map() -> RespMap {
    let mut map = RespMap::new();
    map.insert("b".to_string(), RespFrame::Integer(2));
    map.insert("a".to_string(), b"one".into());
    map.insert(
        "c".to_string(),
        RespArray::new(vec![RespFrame::Null(RespNull), RespFrame::Boolean(false)]).into(),
    );
    map
}

fn samples() -> Vec<RespFrame> {
    vec![
        SimpleString::new("OK".to_string()).into(),
        SimpleString::new(String::new()).into(),
        SimpleString::new("caf\u{e9} \r and \n apart".to_string()).into(),
        SimpleError::new("ERR unknown command".to_string()).into(),
        RespFrame::Integer(0),
        RespFrame::Integer(-1),
        RespFrame::Integer(i64::MAX),
        RespFrame::Integer(i64::MIN),
        BulkString::new(vec![]).into(),
        BulkString::new(b"hello".to_vec()).into(),
        BulkString::new(b"with\r\ninside\r\n".to_vec()).into(),
        BulkString::new(vec![0, 255, 13, 10, 36, 42]).into(),
        RespNullBulkString.into(),
        RespNullArray.into(),
        RespNull::new().into(),
        true.into(),
        false.into(),
        RespDouble::new(b"+123.456".to_vec()).unwrap().into(),
        RespDouble::new(b"-1.23456e-9".to_vec()).unwrap().into(),
        RespDouble::new(b"inf".to_vec()).unwrap().into(),
        RespArray::new(vec![]).into(),
        RespArray::new(vec![b"get".into(), b"hello".into()]).into(),
        RespArray::new(vec![
            RespNullBulkString.into(),
            RespNullArray.into(),
            RespArray::new(vec![]).into(),
            RespArray::new(vec![RespArray::new(vec![RespFrame::Integer(7)]).into()]).into(),
        ])
        .into(),
        RespSet::new(vec![]).into(),
        RespSet::new(vec![RespFrame::Integer(1), RespFrame::Integer(1)]).into(),
        RespMap::new().into(),
        sample_map().into(),
        RespArray::new(vec![sample_map().into(), sample_map().into()]).into(),
    ]
}

#[test]
fn round_trip_gives_the_frame_back() {
    for frame in samples() {
        let bytes = frame.clone().encode();
        let mut buf = BytesMut::new();
        buf.extend_from_slice(&bytes);
        let decoded = RespFrame::decode(&mut buf);
        assert_eq!(decoded, Ok(frame));
        assert_eq!(buf.len(), 0);
    }
}

#[test]
fn round_trip_leaves_what_follows_the_frame() {
    for frame in samples() {
        let bytes = frame.clone().encode();
        let mut buf = BytesMut::new();
        buf.extend_from_slice(&bytes);
        buf.extend_from_slice(b"*1\r\n+trailing");
        let decoded = RespFrame::decode(&mut buf);
        assert_eq!(decoded, Ok(frame));
        assert_eq!(&buf[..], b"*1\r\n+trailing");
    }
}

#[test]
fn every_proper_prefix_is_incomplete_and_untouched() {
    for frame in samples() {
        let bytes = frame.encode();
        for cut in 0..bytes.len() {
            let mut buf = BytesMut::new();
            buf.extend_from_slice(&bytes[..cut]);
            assert_eq!(RespFrame::decode(&mut buf), Err(RespError::NotComplete));
            assert_eq!(&buf[..], &bytes[..cut]);
            assert_eq!(
                RespFrame::expect_length(&bytes[..cut]),
                Err(RespError::NotComplete)
            );
            assert_eq!(try_decode_one(&mut buf), Ok(None));
            assert_eq!(&buf[..], &bytes[..cut]);
        }
    }
}

#[test]
fn probe_gives_what_decode_consumes() {
    for frame in samples() {
        let bytes = frame.encode();
        let mut buf = BytesMut::new();
        buf.extend_from_slice(&bytes);
        buf.extend_from_slice(b"$3\r\nabc");
        let before = buf.len();
        let probed = RespFrame::expect_length(&buf).unwrap();
        assert_eq!(probed, bytes.len());
        RespFrame::decode(&mut buf).unwrap();
        assert_eq!(before - buf.len(), probed);
    }
}

#[test]
fn array_with_a_partial_last_member_is_incomplete() {
    let mut buf = BytesMut::new();
    buf.extend_from_slice(b"*3\r\n:+1\r\n:+2\r\n:+");
    assert_eq!(RespFrame::decode(&mut buf), Err(RespError::NotComplete));
    assert_eq!(RespArray::decode(&mut buf), Err(RespError::NotComplete));
    assert_eq!(&buf[..], b"*3\r\n:+1\r\n:+2\r\n:+");
    buf.extend_from_slice(b"3\r\n");
    assert_eq!(
        RespFrame::decode(&mut buf),
        Ok(RespArray::new(vec![
            RespFrame::Integer(1),
            RespFrame::Integer(2),
            RespFrame::Integer(3)
        ])
        .into())
    );
}

#[test]
fn array_with_missing_members_is_incomplete_before_a_member_is_judged() {
    let mut buf = BytesMut::new();
    buf.extend_from_slice(b"*2\r\n:abc\r\n");
    assert_eq!(RespFrame::decode(&mut buf), Err(RespError::NotComplete));
    buf.extend_from_slice(b":+1\r\n");
    assert_eq!(RespFrame::decode(&mut buf), Err(RespError::ParseIntError));
    assert_eq!(&buf[..], b"*2\r\n:abc\r\n:+1\r\n");
}

#[test]
fn map_keys_go_out_in_their_order() {
    let mut map = RespMap::new();
    map.insert("b".to_string(), RespFrame::Integer(2));
    map.insert("a".to_string(), RespFrame::Integer(1));
    map.insert("c".to_string(), RespFrame::Integer(3));
    assert_eq!(map.len(), 3);
    assert_eq!(
        map.encode(),
        b"%3\r\n+a\r\n:+1\r\n+b\r\n:+2\r\n+c\r\n:+3\r\n"
    );
}

#[test]
fn map_keys_come_in_in_any_order() {
    let mut buf = BytesMut::new();
    buf.extend_from_slice(b"%3\r\n+b\r\n:+2\r\n+a\r\n:+1\r\n+c\r\n:+3\r\n");
    let map = RespMap::decode(&mut buf).unwrap();
    assert_eq!(
        map.encode(),
        b"%3\r\n+a\r\n:+1\r\n+b\r\n:+2\r\n+c\r\n:+3\r\n"
    );
}

#[test]
fn map_keeps_the_later_value_of_a_key() {
    let mut map = RespMap::new();
    assert_eq!(map.insert("k".to_string(), RespFrame::Integer(1)), None);
    assert_eq!(
        map.insert("k".to_string(), RespFrame::Integer(2)),
        Some(RespFrame::Integer(1))
    );
    assert_eq!(map.len(), 1);
    assert_eq!(map.get("k"), Some(&RespFrame::Integer(2)));
    assert_eq!(map.get("j"), None);
    let mut buf = BytesMut::new();
    buf.extend_from_slice(b"%2\r\n+k\r\n:+1\r\n+k\r\n:+2\r\n");
    assert_eq!(RespMap::decode(&mut buf), Ok(map));
}

#[test]
fn map_orders_keys_by_their_bytes() {
    let mut map = RespMap::new();
    for key in ["b", "", "ab", "a", "B", "\u{e9}", "z"] {
        map.insert(key.to_string(), RespFrame::Null(RespNull));
    }
    let keys: Vec<&str> = map.0.iter().map(|entry| entry.0.as_str()).collect();
    assert_eq!(keys, vec!["", "B", "a", "ab", "b", "z", "\u{e9}"]);
}

#[test]
fn map_key_must_be_a_simple_string() {
    let mut buf = BytesMut::new();
    buf.extend_from_slice(b"%1\r\n$3\r\nkey\r\n+value\r\n");
    assert_eq!(RespFrame::decode(&mut buf), Err(RespError::InvalidFrameType));
    assert_eq!(buf.len(), 21);
}

#[test]
fn scenario_simple_string() {
    let mut buf = BytesMut::new();
    buf.extend_from_slice(b"+OK\r\n");
    assert_eq!(
        RespFrame::decode(&mut buf),
        Ok(SimpleString::new("OK".to_string()).into())
    );
    assert_eq!(buf.len(), 0);
}

#[test]
fn scenario_array_of_bulk_strings() {
    let mut buf = BytesMut::new();
    buf.extend_from_slice(b"*2\r\n$3\r\nget\r\n$5\r\nhello\r\n");
    assert_eq!(
        RespFrame::decode(&mut buf),
        Ok(RespArray::new(vec![b"get".into(), b"hello".into()]).into())
    );
    assert_eq!(buf.len(), 0);
}

#[test]
fn scenario_array_with_missing_member() {
    let mut buf = BytesMut::new();
    buf.extend_from_slice(b"*2\r\n$3\r\nset\r\n");
    assert_eq!(RespFrame::decode(&mut buf), Err(RespError::NotComplete));
    assert_eq!(&buf[..], b"*2\r\n$3\r\nset\r\n");
}

#[test]
fn scenario_map() {
    let mut buf = BytesMut::new();
    buf.extend_from_slice(b"%1\r\n+key\r\n+value\r\n");
    let mut map = RespMap::new();
    map.insert(
        "key".to_string(),
        SimpleString::new("value".to_string()).into(),
    );
    assert_eq!(RespFrame::decode(&mut buf), Ok(map.into()));
}

#[test]
fn scenario_null_bulk_string() {
    let mut buf = BytesMut::new();
    buf.extend_from_slice(b"$-1\r\n");
    assert_eq!(
        RespFrame::decode(&mut buf),
        Ok(RespFrame::NullBulkString(RespNullBulkString))
    );
    assert_eq!(buf.len(), 0);
    assert_eq!(RespFrame::expect_length(b"$-1\r\n"), Ok(5));
}

#[test]
fn absent_values_inside_an_array() {
    let mut buf = BytesMut::new();
    buf.extend_from_slice(b"*2\r\n$-1\r\n*-1\r\n");
    assert_eq!(RespFrame::expect_length(&buf), Ok(14));
    assert_eq!(
        RespFrame::decode(&mut buf),
        Ok(RespArray::new(vec![RespNullBulkString.into(), RespNullArray.into()]).into())
    );
}

#[test]
fn empty_array_is_complete() {
    let mut buf = BytesMut::new();
    buf.extend_from_slice(b"*0\r\n");
    assert_eq!(RespFrame::decode(&mut buf), Ok(RespArray::new(vec![]).into()));
    assert_eq!(buf.len(), 0);
}

#[test]
fn short_of_an_absent_value_is_incomplete() {
    for cut in [&b"$"[..], b"$-", b"$-1", b"$-1\r", b"*", b"*-", b"*-1", b"*-1\r"] {
        let mut buf = BytesMut::new();
        buf.extend_from_slice(cut);
        assert_eq!(RespFrame::decode(&mut buf), Err(RespError::NotComplete));
        assert_eq!(&buf[..], cut);
    }
}

#[test]
fn empty_buffer_is_incomplete() {
    let mut buf = BytesMut::new();
    assert_eq!(RespFrame::decode(&mut buf), Err(RespError::NotComplete));
    assert_eq!(RespFrame::expect_length(b""), Err(RespError::NotComplete));
    assert_eq!(try_decode_one(&mut buf), Ok(None));
}

#[test]
fn unknown_marker_is_an_invalid_frame_type() {
    let mut buf = BytesMut::new();
    buf.extend_from_slice(b"?what\r\n");
    assert_eq!(RespFrame::decode(&mut buf), Err(RespError::InvalidFrameType));
    assert_eq!(&buf[..], b"?what\r\n");
    assert_eq!(RespFrame::expect_length(&buf), Err(RespError::NotComplete));
}

#[test]
fn wrong_fixed_pattern_is_an_invalid_frame_type() {
    let mut buf = BytesMut::new();
    buf.extend_from_slice(b"#x\r\n");
    assert_eq!(bool::decode(&mut buf), Err(RespError::InvalidFrameType));
    assert_eq!(RespFrame::decode(&mut buf), Err(RespError::InvalidFrameType));
    assert_eq!(&buf[..], b"#x\r\n");
    let mut buf = BytesMut::new();
    buf.extend_from_slice(b"_x\n");
    assert_eq!(RespNull::decode(&mut buf), Err(RespError::InvalidFrameType));
    let mut buf = BytesMut::new();
    buf.extend_from_slice(b"+OK\r\n");
    assert_eq!(SimpleError::decode(&mut buf), Err(RespError::InvalidFrameType));
    assert_eq!(i64::decode(&mut buf), Err(RespError::InvalidFrameType));
    assert_eq!(
        RespNullBulkString::decode(&mut buf),
        Err(RespError::InvalidFrameType)
    );
    assert_eq!(&buf[..], b"+OK\r\n");
}

#[test]
fn bad_length_is_an_invalid_frame_length() {
    for bytes in [
        &b"$abc\r\n"[..],
        b"$-2\r\n",
        b"$\r\n",
        b"*-2\r\n",
        b"*1x\r\n",
        b"~-1\r\n",
        b"%+\r\n",
        b"$99999999999999999999999999\r\n",
    ] {
        let mut buf = BytesMut::new();
        buf.extend_from_slice(bytes);
        assert_eq!(RespFrame::decode(&mut buf), Err(RespError::InvalidFrameLength));
        assert_eq!(
            RespFrame::expect_length(bytes),
            Err(RespError::InvalidFrameLength)
        );
        assert_eq!(try_decode_one(&mut buf), Err(RespError::InvalidFrameLength));
        assert_eq!(&buf[..], bytes);
    }
}

#[test]
fn length_may_carry_a_plus_and_zeros() {
    let mut buf = BytesMut::new();
    buf.extend_from_slice(b"$+005\r\nhello\r\n");
    assert_eq!(
        BulkString::decode(&mut buf),
        Ok(BulkString::new(b"hello".to_vec()))
    );
}

#[test]
fn huge_length_is_incomplete() {
    let text = format!("${}\r\nabc\r\n", usize::MAX);
    let mut buf = BytesMut::new();
    buf.extend_from_slice(text.as_bytes());
    assert_eq!(RespFrame::decode(&mut buf), Err(RespError::NotComplete));
    assert_eq!(
        RespFrame::expect_length(text.as_bytes()),
        Err(RespError::NotComplete)
    );
    let text = format!("*{}\r\n:+1\r\n", usize::MAX);
    assert_eq!(
        RespFrame::expect_length(text.as_bytes()),
        Err(RespError::NotComplete)
    );
}

#[test]
fn bad_integer_is_a_parse_error() {
    for bytes in [
        &b":abc\r\n"[..],
        b":\r\n",
        b":+\r\n",
        b":-\r\n",
        b":1.5\r\n",
        b": 1\r\n",
        b":9223372036854775808\r\n",
        b":-9223372036854775809\r\n",
    ] {
        let mut buf = BytesMut::new();
        buf.extend_from_slice(bytes);
        assert_eq!(i64::decode(&mut buf), Err(RespError::ParseIntError));
        assert_eq!(&buf[..], bytes);
        assert_eq!(i64::expect_length(bytes), Ok(bytes.len()));
        assert_eq!(try_decode_one(&mut buf), Err(RespError::ParseIntError));
    }
}

#[test]
fn integer_limits_decode() {
    let mut buf = BytesMut::new();
    buf.extend_from_slice(b":9223372036854775807\r\n:-9223372036854775808\r\n:007\r\n:-0\r\n");
    assert_eq!(i64::decode(&mut buf), Ok(i64::MAX));
    assert_eq!(i64::decode(&mut buf), Ok(i64::MIN));
    assert_eq!(i64::decode(&mut buf), Ok(7));
    assert_eq!(i64::decode(&mut buf), Ok(0));
    assert_eq!(buf.len(), 0);
}

#[test]
fn integer_limits_encode() {
    assert_eq!(i64::MAX.encode(), b":+9223372036854775807\r\n");
    assert_eq!(i64::MIN.encode(), b":-9223372036854775808\r\n");
    assert_eq!(0i64.encode(), b":+0\r\n");
    assert_eq!((-10i64).encode(), b":-10\r\n");
    assert_eq!(1000i64.encode(), b":+1000\r\n");
}

#[test]
fn bad_double_is_a_parse_error() {
    for bytes in [
        &b",abc\r\n"[..],
        b",\r\n",
        b",+\r\n",
        b",.\r\n",
        b",1e\r\n",
        b",e5\r\n",
        b",1.2.3\r\n",
        b",1 \r\n",
        b",infinit\r\n",
        b",1e+\r\n",
        b",--1\r\n",
    ] {
        let mut buf = BytesMut::new();
        buf.extend_from_slice(bytes);
        assert_eq!(RespDouble::decode(&mut buf), Err(RespError::ParseFloatError));
        assert_eq!(&buf[..], bytes);
        let text = std::str::from_utf8(&bytes[1..bytes.len() - 2]).unwrap();
        assert!(text.parse::<f64>().is_err());
    }
}

#[test]
fn double_literals_decode() {
    for text in [
        "0", "-0", "+5", "5.", ".5", "-.5e10", "1e5", "1E5", "1e-5", "1.E+5", "123.456",
        "inf", "-inf", "+Infinity", "NaN", "nan", "-NAN", "INF", "0.00000001", "1e400",
    ] {
        let mut buf = BytesMut::new();
        buf.extend_from_slice(format!(",{}\r\n", text).as_bytes());
        let frame = RespDouble::decode(&mut buf).unwrap();
        assert_eq!(&frame[..], text.as_bytes());
        assert!(text.parse::<f64>().is_ok());
        assert_eq!(buf.len(), 0);
    }
}

#[test]
fn double_text_follows_the_magnitude() {
    let cases: Vec<(f64, &str)> = vec![
        (0.0, "+0"),
        (1.0, "+1"),
        (-1.5, "-1.5"),
        (123.456, "+123.456"),
        (99999999.0, "+99999999"),
        (100000000.0, "+1e8"),
        (-100000000.0, "-1e8"),
        (123456000.0, "+1.23456e8"),
        (0.00000001, "+0.00000001"),
        (0.000000009, "+9e-9"),
        (-0.00000000123456, "-1.23456e-9"),
        (1e300, "+1e300"),
        (f64::INFINITY, "+inf"),
        (f64::NEG_INFINITY, "-inf"),
        (f64::NAN, "+NaN"),
        (f64::MIN_POSITIVE, "+2.2250738585072014e-308"),
    ];
    for (value, text) in cases {
        let frame =
            RespDouble::from_renderings(&format!("{}", value), &format!("{:e}", value)).unwrap();
        assert_eq!(&frame[..], text.as_bytes());
        let back: f64 = text.parse().unwrap();
        assert!(back == value || (back.is_nan() && value.is_nan()));
        let mut wire = vec![b','];
        wire.extend_from_slice(text.as_bytes());
        wire.extend_from_slice(b"\r\n");
        assert_eq!(frame.encode(), wire);
    }
}

#[test]
fn double_text_must_be_a_literal() {
    assert_eq!(RespDouble::new(b"12x".to_vec()), None);
    assert_eq!(RespDouble::new(b"".to_vec()), None);
    assert_eq!(RespDouble::from_renderings("abc", "abc"), None);
    assert!(RespDouble::new(b"+1.5e-3".to_vec()).is_some());
}

#[test]
fn text_is_decoded_permissively() {
    let mut buf = BytesMut::new();
    buf.extend_from_slice(b"+a\xffb\r\n-\xc3\x28\r\n+caf\xc3\xa9\r\n");
    assert_eq!(
        SimpleString::decode(&mut buf),
        Ok(SimpleString::new("a\u{fffd}b".to_string()))
    );
    assert_eq!(
        SimpleError::decode(&mut buf),
        Ok(SimpleError::new("\u{fffd}(".to_string()))
    );
    assert_eq!(
        SimpleString::decode(&mut buf),
        Ok(SimpleString::new("caf\u{e9}".to_string()))
    );
    assert_eq!(buf.len(), 0);
}

#[test]
fn text_with_a_terminator_inside_does_not_round_trip() {
    let frame: RespFrame = SimpleString::new("a\r\nb".to_string()).into();
    let mut buf = BytesMut::new();
    buf.extend_from_slice(&frame.encode());
    assert_eq!(
        RespFrame::decode(&mut buf),
        Ok(SimpleString::new("a".to_string()).into())
    );
    assert_eq!(&buf[..], b"b\r\n");
}

#[test]
fn bulk_string_takes_its_length_on_trust() {
    let mut buf = BytesMut::new();
    buf.extend_from_slice(b"$5\r\nhelloXY+next\r\n");
    assert_eq!(BulkString::expect_length(&buf), Ok(11));
    assert_eq!(
        BulkString::decode(&mut buf),
        Ok(BulkString::new(b"hello".to_vec()))
    );
    assert_eq!(&buf[..], b"+next\r\n");
}

#[test]
fn kinds_decode_on_their_own() {
    let mut buf = BytesMut::new();
    buf.extend_from_slice(b"~2\r\n:+1\r\n#t\r\n*1\r\n_\r\n%0\r\n");
    assert_eq!(RespSet::expect_length(&buf), Ok(13));
    assert_eq!(
        RespSet::decode(&mut buf),
        Ok(RespSet::new(vec![
            RespFrame::Integer(1),
            RespFrame::Boolean(true)
        ]))
    );
    assert_eq!(RespArray::expect_length(&buf), Ok(7));
    assert_eq!(
        RespArray::decode(&mut buf),
        Ok(RespArray::new(vec![RespFrame::Null(RespNull)]))
    );
    assert_eq!(RespMap::expect_length(&buf), Ok(4));
    assert_eq!(RespMap::decode(&mut buf), Ok(RespMap::new()));
    assert_eq!(buf.len(), 0);
}

#[test]
fn array_alone_does_not_take_the_absent_array() {
    let mut buf = BytesMut::new();
    buf.extend_from_slice(b"*-1\r\n");
    assert_eq!(RespArray::decode(&mut buf), Err(RespError::InvalidFrameLength));
    assert_eq!(RespNullArray::expect_length(&buf), Ok(5));
    assert_eq!(RespNullArray::decode(&mut buf), Ok(RespNullArray));
}

#[test]
fn fixed_lengths() {
    assert_eq!(RespNull::expect_length(b"_\r\n"), Ok(3));
    assert_eq!(RespNull::expect_length(b"_\r"), Err(RespError::NotComplete));
    assert_eq!(bool::expect_length(b"#t\r\n"), Ok(4));
    assert_eq!(bool::expect_length(b"#t\r"), Err(RespError::NotComplete));
    assert_eq!(RespNullBulkString::expect_length(b"$-1\r\n"), Ok(5));
    assert_eq!(
        RespNullBulkString::expect_length(b"$-1\r"),
        Err(RespError::NotComplete)
    );
}

#[test]
fn driver_drains_whole_frames_only() {
    let mut buf = BytesMut::new();
    buf.extend_from_slice(b"+OK\r\n:+1\r\n*2\r\n$3\r\nget\r\n$5\r\nhel");
    assert_eq!(
        try_decode_one(&mut buf),
        Ok(Some(SimpleString::new("OK".to_string()).into()))
    );
    assert_eq!(try_decode_one(&mut buf), Ok(Some(RespFrame::Integer(1))));
    assert_eq!(try_decode_one(&mut buf), Ok(None));
    assert_eq!(&buf[..], b"*2\r\n$3\r\nget\r\n$5\r\nhel");
    buf.extend_from_slice(b"lo\r\n");
    assert_eq!(
        try_decode_one(&mut buf),
        Ok(Some(
            RespArray::new(vec![b"get".into(), b"hello".into()]).into()
        ))
    );
    assert_eq!(try_decode_one(&mut buf), Ok(None));
    assert_eq!(buf.len(), 0);
}

#[test]
fn a_verdict_stays_when_more_bytes_arrive() {
    for bytes in [
        &b":abc\r\n"[..],
        b",x\r\n",
        b"#x\r\n",
        b"_xx",
        b"?",
        b"$x\r\n",
        b"*2\r\n:+1\r\n$z\r\n",
        b"*2\r\n:+1\r\n:z\r\n",
        b"%1\r\n:+1\r\n",
        b"%1\r\n+k\r\n:+1\r\n",
        b"~1\r\n*0\r\n",
        b"$3\r\nabcXY",
    ] {
        let mut short = BytesMut::new();
        short.extend_from_slice(bytes);
        let first = RespFrame::decode(&mut short);
        assert_ne!(first, Err(RespError::NotComplete));
        for more in [&b"\r\n"[..], b"+OK\r\n", b"*", b"\r", b"0123456789"] {
            let mut long = BytesMut::new();
            long.extend_from_slice(bytes);
            long.extend_from_slice(more);
            assert_eq!(RespFrame::decode(&mut long), first);
            if first.is_ok() {
                assert_eq!(&long[..], more);
            } else {
                assert_eq!(long.len(), bytes.len() + more.len());
            }
        }
    }
}

#[test]
fn clone_copies_the_whole_frame() {
    for frame in samples() {
        assert_eq!(frame.clone(), frame);
    }
}
