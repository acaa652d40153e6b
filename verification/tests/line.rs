use simple_redis::{
    calc_total_length, extract_simple_frame_data, find_crlf, parse_length, RespError,
};

#[test]
fn find_crlf_counts_from_one() {
    let buf = b"+a\r\nbc\r\n\r\n";
    assert_eq!(find_crlf(buf, 1), Some(2));
    assert_eq!(find_crlf(buf, 2), Some(6));
    assert_eq!(find_crlf(buf, 3), Some(8));
    assert_eq!(find_crlf(buf, 4), None);
    assert_eq!(find_crlf(buf, 0), None);
}

#[test]
fn find_crlf_skips_the_marker_byte() {
    assert_eq!(find_crlf(b"\r\n", 1), None);
    assert_eq!(find_crlf(b"\r\n\r\n", 1), Some(2));
    assert_eq!(find_crlf(b"+\r\n", 1), Some(1));
    assert_eq!(find_crlf(b"+\r", 1), None);
    assert_eq!(find_crlf(b"+\n\r", 1), None);
    assert_eq!(find_crlf(b"", 1), None);
    assert_eq!(find_crlf(b"+", 1), None);
}

#[test]
fn simple_frame_data_checks_length_then_marker_then_terminator() {
    assert_eq!(
        extract_simple_frame_data(b"-x", "+"),
        Err(RespError::NotComplete)
    );
    assert_eq!(
        extract_simple_frame_data(b"-xy", "+"),
        Err(RespError::InvalidFrameType)
    );
    assert_eq!(
        extract_simple_frame_data(b"+xy", "+"),
        Err(RespError::NotComplete)
    );
    assert_eq!(extract_simple_frame_data(b"+xy\r\n", "+"), Ok(3));
    assert_eq!(extract_simple_frame_data(b"+\r\n", "+"), Ok(1));
    assert_eq!(extract_simple_frame_data(b"+xy\r\nz\r\n", ""), Ok(3));
}

#[test]
fn parse_length_reads_the_header() {
    assert_eq!(parse_length(b"$5\r\nhello\r\n", "$"), Ok((2, 5)));
    assert_eq!(parse_length(b"*12\r\n", "*"), Ok((3, 12)));
    assert_eq!(parse_length(b"*12\r", "*"), Err(RespError::NotComplete));
    assert_eq!(parse_length(b"*12\r\n", "$"), Err(RespError::InvalidFrameType));
    assert_eq!(
        parse_length(b"*x\r\n", "*"),
        Err(RespError::InvalidFrameLength)
    );
    assert_eq!(
        parse_length(b"*-1\r\n", "*"),
        Err(RespError::InvalidFrameLength)
    );
    assert_eq!(
        parse_length(b"*1\r\n", "*1\r\n"),
        Err(RespError::InvalidFrameLength)
    );
}

#[test]
fn total_length_by_marker() {
    let buf = b"~2\r\n+a\r\n+b\r\n+c\r\n";
    assert_eq!(calc_total_length(buf, 2, 2, "~"), Ok(12));
    assert_eq!(calc_total_length(buf, 2, 3, "~"), Ok(16));
    assert_eq!(
        calc_total_length(buf, 2, 4, "~"),
        Err(RespError::NotComplete)
    );
    let buf = b"%1\r\n+a\r\n:+1\r\n";
    assert_eq!(calc_total_length(buf, 2, 1, "%"), Ok(13));
    assert_eq!(
        calc_total_length(buf, 2, 2, "%"),
        Err(RespError::NotComplete)
    );
    let buf = b"%1\r\n:+1\r\n+a\r\n";
    assert_eq!(
        calc_total_length(buf, 2, 1, "%"),
        Err(RespError::InvalidFrameType)
    );
    assert_eq!(calc_total_length(buf, 2, 5, "$"), Ok(7));
    assert_eq!(calc_total_length(buf, 2, 0, "*"), Ok(4));
    assert_eq!(
        calc_total_length(buf, 100, 0, "*"),
        Err(RespError::NotComplete)
    );
}
