use bytes::BytesMut;
use simple_redis::{
    extract_args, validate_command, BulkString, Command, CommandError, Get, HGet, HGetAll, HSet,
    RespArray, RespDecode, RespError, RespFrame, SetCommand,
};

#[test]
fn test_get_try_resp_array() -> Result<(), CommandError> {
    let mut buf = BytesMut::new();

    buf.extend_from_slice(b"*2\r\n$3\r\nget\r\n$5\r\nhello\r\n");
    let frame = RespArray::decode(&mut buf)?;

    let result: Get = frame.try_into()?;

    assert_eq!(result.key, "hello");
    Ok(())
}

#[test]
fn test_set_from_resp_array() -> Result<(), CommandError> {
    let mut buf = BytesMut::new();
    buf.extend_from_slice(b"*3\r\n$3\r\nset\r\n$5\r\nhello\r\n$5\r\nworld\r\n");
    let frame = RespArray::decode(&mut buf)?;
    let result: SetCommand = frame.try_into()?;
    assert_eq!(result.key, "hello");
    assert_eq!(result.value, RespFrame::BulkString(b"world".into()));
    Ok(())
}

#[test]
fn test_hget_from_resp_array() -> Result<(), CommandError> {
    let mut buf = BytesMut::new();
    buf.extend_from_slice(b"*3\r\n$4\r\nhget\r\n$3\r\nmap\r\n$5\r\nhello\r\n");
    let frame = RespArray::decode(&mut buf)?;
    let result: HGet = frame.try_into()?;
    assert_eq!(result.key, "map");
    assert_eq!(result.field, "hello");
    Ok(())
}

#[test]
fn test_hgetall_from_resp_array() -> Result<(), CommandError> {
    let mut buf = BytesMut::new();
    buf.extend_from_slice(b"*2\r\n$7\r\nhgetall\r\n$3\r\nmap\r\n");
    let frame = RespArray::decode(&mut buf)?;
    let result: HGetAll = frame.try_into()?;
    assert_eq!(result.key, "map");
    Ok(())
}

#[test]
fn test_hset_from_resp_array() -> Result<(), CommandError> {
    let mut buf = BytesMut::new();
    buf.extend_from_slice(b"*4\r\n$4\r\nhset\r\n$3\r\nmap\r\n$5\r\nhello\r\n:+7\r\n");
    let frame = RespArray::decode(&mut buf)?;
    let result: HSet = frame.try_into()?;
    assert_eq!(result.key, "map");
    assert_eq!(result.field, "hello");
    assert_eq!(result.value, RespFrame::Integer(7));
    Ok(())
}

#[test]
fn test_command_name_ignores_case() -> Result<(), CommandError> {
    let array = RespArray::new(vec![b"GeT".into(), b"hello".into()]);
    let result: Get = array.try_into()?;
    assert_eq!(result.key, "hello");
    Ok(())
}

#[test]
fn test_validate_command_counts_arguments() {
    let array = RespArray::new(vec![b"get".into(), b"a".into(), b"b".into()]);
    assert_eq!(
        validate_command(&array, &["get"], 1),
        Err(CommandError::InvalidArgument)
    );
    assert_eq!(validate_command(&array, &["get"], 2), Ok(()));
    let array = RespArray::new(vec![]);
    assert_eq!(
        validate_command(&array, &["get"], 1),
        Err(CommandError::InvalidArgument)
    );
}

#[test]
fn test_validate_command_checks_the_name() {
    let array = RespArray::new(vec![b"got".into(), b"a".into()]);
    assert_eq!(
        validate_command(&array, &["get"], 1),
        Err(CommandError::InvalidCommand)
    );
    let array = RespArray::new(vec![RespFrame::Integer(1), b"a".into()]);
    assert_eq!(
        validate_command(&array, &["get"], 1),
        Err(CommandError::InvalidCommand)
    );
    let array = RespArray::new(vec![b"config".into(), b"GET".into(), b"a".into()]);
    assert_eq!(validate_command(&array, &["config", "get"], 1), Ok(()));
}

#[test]
fn test_extract_args_skips_the_names() {
    let array = RespArray::new(vec![b"get".into(), b"a".into(), RespFrame::Integer(3)]);
    assert_eq!(
        extract_args(array, 1),
        Ok(vec![b"a".into(), RespFrame::Integer(3)])
    );
    let array = RespArray::new(vec![b"get".into()]);
    assert_eq!(extract_args(array, 1), Ok(vec![]));
    let array = RespArray::new(vec![b"get".into()]);
    assert_eq!(extract_args(array, 5), Ok(vec![]));
}

#[test]
fn test_key_must_be_a_bulk_string() {
    let array = RespArray::new(vec![b"get".into(), RespFrame::Integer(3)]);
    let result: Result<Get, CommandError> = array.try_into();
    assert_eq!(result.unwrap_err(), CommandError::InvalidArgument);
    let array = RespArray::new(vec![b"hget".into(), b"k".into(), RespFrame::Integer(3)]);
    let result: Result<HGet, CommandError> = array.try_into();
    assert_eq!(result.unwrap_err(), CommandError::InvalidArgument);
}

#[test]
fn test_key_must_be_utf8() {
    let array = RespArray::new(vec![
        b"get".into(),
        BulkString::new(vec![0xff, 0xfe]).into(),
    ]);
    let result: Result<Get, CommandError> = array.try_into();
    assert_eq!(result.unwrap_err(), CommandError::Utf8Error);
    let array = RespArray::new(vec![
        b"get".into(),
        BulkString::new("h\u{e9}llo".as_bytes().to_vec()).into(),
    ]);
    let result: Get = array.try_into().unwrap();
    assert_eq!(result.key, "h\u{e9}llo");
}

#[test]
fn test_decode_error_becomes_command_error() {
    let error: CommandError = RespError::NotComplete.into();
    assert_eq!(error, CommandError::RespError(RespError::NotComplete));
}

#[test]
fn test_command_dispatch() {
    let array = RespArray::new(vec![b"SET".into(), b"k".into(), RespFrame::Boolean(true)]);
    match Command::try_from(array) {
        Ok(Command::SetCommand(c)) => {
            assert_eq!(c.key, "k");
            assert_eq!(c.value, RespFrame::Boolean(true));
        }
        _ => panic!("a set command was expected"),
    }
    let array = RespArray::new(vec![b"hgetall".into(), b"k".into()]);
    assert!(matches!(Command::try_from(array), Ok(Command::HGetAll(_))));
    let array = RespArray::new(vec![b"get".into()]);
    assert!(matches!(
        Command::try_from(array),
        Err(CommandError::InvalidArgument)
    ));
    let array = RespArray::new(vec![b"ping".into()]);
    assert!(matches!(
        Command::try_from(array),
        Err(CommandError::InvalidCommand)
    ));
    let array = RespArray::new(vec![]);
    assert!(matches!(
        Command::try_from(array),
        Err(CommandError::InvalidCommand)
    ));
}
