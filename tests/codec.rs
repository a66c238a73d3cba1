use bytes::BytesMut;
use resp_codec::{
    decode_any, encode, extract_simple_data_end_index, find_ctrl_index, parse_i64, parse_length,
    parse_usize, predict_length, BigNumber, BulkNullString, BulkString, Double, RespDecode,
    RespEncode, RespError, RespFrame, RespFrameArray, RespNullArray, SimpleError, SimpleNull,
    SimpleString,
};

fn bulk(b: &[u8]) -> RespFrame {
    RespFrame::BulkStrings(BulkString::new(b.to_vec()))
}

fn buffer(b: &[u8]) -> BytesMut {
    let mut buf = BytesMut::new();
    buf.extend_from_slice(b);
    buf
}

#[test]
fn test_array_encode() {
    let frame: RespFrame = RespFrameArray::new(vec![
        BulkString::new("set".to_string().into_bytes()).into(),
        BulkString::new("hello".to_string().into_bytes()).into(),
        BulkString::new("world".to_string().into_bytes()).into(),
    ])
    .into();
    assert_eq!(
        &frame.encode(),
        b"*3\r\n$3\r\nset\r\n$5\r\nhello\r\n$5\r\nworld\r\n"
    );
}

#[test]
fn test_null_array_encode() {
    let frame: RespFrame = RespNullArray.into();
    assert_eq!(frame.encode(), b"*-1\r\n");
}

#[test]
fn test_null_array_decode() {
    let mut buf = BytesMut::new();
    buf.extend_from_slice(b"*-1\r\n");
    let frame = RespNullArray::decode(&mut buf).unwrap();
    assert_eq!(frame, RespNullArray);
}

#[test]
fn test_array_decode() {
    let mut buf = BytesMut::new();
    buf.extend_from_slice(b"*2\r\n$3\r\nset\r\n$5\r\nhello\r\n");
    let frame = RespFrameArray::decode(&mut buf).unwrap();
    println!("{:?}", frame);
    assert_eq!(frame, RespFrameArray::new(vec![bulk(b"set"), bulk(b"hello")]));

    buf.extend_from_slice(b"*2\r\n$3\r\nset\r\n");
    let ret = RespFrameArray::decode(&mut buf);
    assert_eq!(ret.unwrap_err(), RespError::NotComplete);

    buf.extend_from_slice(b"$5\r\nhello\r\n");
    let frame = RespFrameArray::decode(&mut buf).unwrap();
    assert_eq!(frame, RespFrameArray::new(vec![bulk(b"set"), bulk(b"hello")]));
}

#[test]
fn test_bulk_string_encode() {
    let frame: RespFrame = BulkString::new(b"hello".to_vec()).into();
    assert_eq!(frame.encode(), b"$5\r\nhello\r\n");
}

#[test]
fn test_null_bulk_string_encode() {
    let frame: RespFrame = BulkNullString.into();
    assert_eq!(frame.encode(), b"$-1\r\n");
}

#[test]
fn test_bulk_string_decode() {
    let mut buf = BytesMut::new();
    buf.extend_from_slice(b"$5\r\nhello\r\n");
    let frame = BulkString::decode(&mut buf).unwrap();
    assert_eq!(frame, BulkString::new(b"hello".to_vec()));

    buf.extend_from_slice(b"$5\r\nhello");
    let ret = BulkString::decode(&mut buf);
    assert_eq!(ret.unwrap_err(), RespError::NotComplete);

    buf.extend_from_slice(b"\r\n");
    let frame = BulkString::decode(&mut buf).unwrap();
    assert_eq!(frame, BulkString::new(b"hello".to_vec()));
}

#[test]
fn test_null_bulk_string_decode() {
    let mut buf = BytesMut::new();
    buf.extend_from_slice(b"$-1\r\n");
    let frame = BulkNullString::decode(&mut buf).unwrap();
    assert_eq!(frame, BulkNullString);
}

#[test]
fn test_big_numbers_encode() {
    let frame: RespFrame = BigNumber::new("222").unwrap().into();
    assert_eq!(frame.encode(), b"(+222\r\n");
    let frame: RespFrame = BigNumber::new("-2222.122").unwrap().into();
    assert_eq!(frame.encode(), b"(-2222.122\r\n");
    assert!(BigNumber::new("s21s").is_err());
}

#[test]
fn test_big_numbers_decode() {
    let mut buf = BytesMut::new();
    buf.extend_from_slice(b"(+222\r\n");
    let frame = BigNumber::decode(&mut buf).unwrap();
    assert_eq!(frame, BigNumber::new("222").unwrap());

    let mut buf = BytesMut::new();
    buf.extend_from_slice(b"(-2222.122\r\n");
    let frame = BigNumber::decode(&mut buf).unwrap();
    assert_eq!(frame, BigNumber::new("-2222.122").unwrap());
}

#[test]
fn test_boolean_encode() {
    let frame: RespFrame = true.into();
    assert_eq!(frame.encode(), b"#t\r\n");
    let frame: RespFrame = false.into();
    assert_eq!(frame.encode(), b"#f\r\n");
}

#[test]
fn test_boolean_decode() {
    let mut buf = BytesMut::new();
    buf.extend_from_slice(b"#t\r\n");
    let frame = bool::decode(&mut buf).unwrap();
    assert!(frame);

    buf.extend_from_slice(b"#f\r\n");
    let frame = bool::decode(&mut buf).unwrap();
    assert!(!frame);

    buf.extend_from_slice(b"#f\r");
    let ret = bool::decode(&mut buf);
    assert_eq!(ret.unwrap_err(), RespError::NotComplete);

    buf.extend_from_slice(b"\n");
    let frame = bool::decode(&mut buf).unwrap();
    assert!(!frame);
}

#[test]
fn test_simple_error_encode() {
    let frame: RespFrame = SimpleError::new("ERROR".to_string()).into();
    assert_eq!(frame.encode(), b"-ERROR\r\n");
}

#[test]
fn test_simple_error_decode() {
    let mut buf = BytesMut::new();
    buf.extend_from_slice(b"-ERROR\r\n");
    let frame = SimpleError::decode(&mut buf).unwrap();
    assert_eq!(frame, SimpleError::new("ERROR".to_string()));

    buf.extend_from_slice(b"-hello\r");
    let ret = SimpleError::decode(&mut buf);
    assert_eq!(ret.unwrap_err(), RespError::NotComplete);

    buf.extend_from_slice(b"\n");
    let frame = SimpleError::decode(&mut buf).unwrap();
    assert_eq!(frame, SimpleError::new("hello".to_string()));
}

#[test]
fn test_integer_encode() {
    let frame: RespFrame = 100.into();
    assert_eq!(frame.encode(), b":+100\r\n");
    let frame: RespFrame = (-100).into();
    assert_eq!(frame.encode(), b":-100\r\n");
}

#[test]
fn test_integer_decode() {
    let mut buf = BytesMut::new();
    buf.extend_from_slice(b":100\r\n");
    let frame = i64::decode(&mut buf).unwrap();
    assert_eq!(frame, 100);
}

#[test]
fn test_simple_null_encode() {
    let frame: RespFrame = SimpleNull.into();
    assert_eq!(frame.encode(), b"_\r\n");
}

#[test]
fn test_simple_null_decode() {
    let mut buf = BytesMut::new();
    buf.extend_from_slice(b"_\r\n");
    let frame = SimpleNull::decode(&mut buf).unwrap();
    assert_eq!(frame, SimpleNull);
}

#[test]
fn nested_arrays_decode() {
    let mut buf = buffer(b"*1\r\n*1\r\n:+1\r\n");
    let frame = decode_any(&mut buf).unwrap();
    let inner = RespFrame::Array(RespFrameArray::new(vec![RespFrame::Integers(1)]));
    assert_eq!(frame, RespFrame::Array(RespFrameArray::new(vec![inner])));
    assert!(buf.is_empty());
}

#[test]
fn decode_any_array_then_empty_buffer() {
    let mut buf = buffer(b"*2\r\n$3\r\nset\r\n$5\r\nhello\r\n");
    let frame = decode_any(&mut buf).unwrap();
    assert_eq!(
        frame,
        RespFrame::Array(RespFrameArray::new(vec![bulk(b"set"), bulk(b"hello")]))
    );
    assert!(buf.is_empty());
}

#[test]
fn decode_any_incomplete_array_leaves_buffer() {
    let mut buf = buffer(b"*2\r\n$3\r\nset\r\n");
    assert_eq!(decode_any(&mut buf), Err(RespError::NotComplete));
    assert_eq!(&buf[..], b"*2\r\n$3\r\nset\r\n");
    buf.extend_from_slice(b"$5\r\nhello\r\n");
    let frame = decode_any(&mut buf).unwrap();
    assert_eq!(
        frame,
        RespFrame::Array(RespFrameArray::new(vec![bulk(b"set"), bulk(b"hello")]))
    );
    assert!(buf.is_empty());
}

#[test]
fn decode_any_bulk_null() {
    let mut buf = buffer(b"$-1\r\n");
    assert_eq!(
        decode_any(&mut buf),
        Ok(RespFrame::BulkNullStrings(BulkNullString))
    );
    assert!(buf.is_empty());
}

#[test]
fn decode_any_big_number() {
    let mut buf = buffer(b"(+222\r\n");
    assert_eq!(
        decode_any(&mut buf),
        Ok(RespFrame::BigNumbers(BigNumber::new("222").unwrap()))
    );
    let b = BigNumber::new("222").unwrap();
    assert!(!b.is_negative());
    assert_eq!(b.text(), "222");
    assert!(BigNumber::new("-2222.122").unwrap().is_negative());
}

#[test]
fn decode_any_leaves_following_frames() {
    let mut buf = buffer(b"+OK\r\n:-7\r\n");
    assert_eq!(
        decode_any(&mut buf),
        Ok(RespFrame::Strings(SimpleString::new("OK".to_string())))
    );
    assert_eq!(&buf[..], b":-7\r\n");
    assert_eq!(decode_any(&mut buf), Ok(RespFrame::Integers(-7)));
    assert!(buf.is_empty());
    assert_eq!(decode_any(&mut buf), Err(RespError::NotComplete));
}

fn sample_frame() -> RespFrame {
    RespFrame::Array(RespFrameArray::new(vec![
        RespFrame::Strings(SimpleString::new("OK".to_string())),
        RespFrame::Errors(SimpleError::new("ERR bad".to_string())),
        RespFrame::Integers(i64::MIN),
        RespFrame::Nulls(SimpleNull),
        RespFrame::Booleans(true),
        RespFrame::Doubles(Double::new(b"+1.5".to_vec())),
        bulk(b"a\r\nb"),
        RespFrame::BulkNullStrings(BulkNullString),
        RespFrame::NullArray(RespNullArray),
        RespFrame::Array(RespFrameArray::new(vec![])),
        RespFrame::BigNumbers(BigNumber::new("-12.50").unwrap()),
        RespFrame::Integers(i64::MAX),
    ]))
}

#[test]
fn round_trip_of_every_kind() {
    let bytes = encode(sample_frame());
    let mut buf = buffer(&bytes);
    assert_eq!(predict_length(&bytes), Ok(bytes.len()));
    assert_eq!(decode_any(&mut buf), Ok(sample_frame()));
    assert!(buf.is_empty());
}

#[test]
fn strict_prefixes_are_incomplete_and_untouched() {
    let bytes = encode(sample_frame());
    for k in 0..bytes.len() {
        let mut buf = buffer(&bytes[..k]);
        assert_eq!(decode_any(&mut buf), Err(RespError::NotComplete), "prefix {}", k);
        assert_eq!(&buf[..], &bytes[..k]);
    }
}

#[test]
fn one_byte_at_a_time() {
    let bytes = encode(sample_frame());
    let mut buf = BytesMut::new();
    for (i, b) in bytes.iter().enumerate() {
        buf.extend_from_slice(&[*b]);
        let r = decode_any(&mut buf);
        if i + 1 < bytes.len() {
            assert_eq!(r, Err(RespError::NotComplete));
        } else {
            assert_eq!(r, Ok(sample_frame()));
        }
    }
    assert!(buf.is_empty());
}

#[test]
fn non_negative_integers_carry_plus() {
    assert_eq!(encode(RespFrame::Integers(0)), b":+0\r\n");
    assert_eq!(encode(RespFrame::Integers(i64::MAX)), b":+9223372036854775807\r\n");
    assert_eq!(encode(RespFrame::Integers(i64::MIN)), b":-9223372036854775808\r\n");
    assert_eq!(encode(RespFrame::BigNumbers(BigNumber::new("0").unwrap())), b"(+0\r\n");
}

#[test]
fn empty_array_alone_decodes() {
    let mut buf = buffer(b"*0\r\n");
    assert_eq!(predict_length(b"*0\r\n"), Ok(4));
    assert_eq!(RespFrame::expect_length(b"*0\r\n"), Ok(4));
    assert_eq!(
        decode_any(&mut buf),
        Ok(RespFrame::Array(RespFrameArray::new(vec![])))
    );
    assert!(buf.is_empty());
    let mut buf = buffer(b"*0\r\n_\r\n");
    assert_eq!(
        decode_any(&mut buf),
        Ok(RespFrame::Array(RespFrameArray::new(vec![])))
    );
    assert_eq!(&buf[..], b"_\r\n");
    let nested = RespFrame::Array(RespFrameArray::new(vec![
        RespFrame::Integers(1),
        RespFrame::Array(RespFrameArray::new(vec![])),
    ]));
    let bytes = encode(nested);
    let mut buf = buffer(&bytes);
    assert_eq!(predict_length(&bytes), Ok(bytes.len()));
    assert!(decode_any(&mut buf).is_ok());
    assert!(buf.is_empty());
}

#[test]
fn sentinel_beginnings_are_incomplete() {
    for p in [&b"*"[..], b"*-", b"*-1", b"*-1\r", b"$", b"$-", b"$-1\r"] {
        let mut buf = buffer(p);
        assert_eq!(decode_any(&mut buf), Err(RespError::NotComplete));
        assert_eq!(&buf[..], p);
        assert_eq!(predict_length(p), Err(RespError::NotComplete));
    }
    assert_eq!(predict_length(b"*-1\r\n"), Ok(5));
    assert_eq!(predict_length(b"$-1\r\n"), Ok(5));
    assert_eq!(predict_length(b"$0\r\n\r\n"), Ok(6));
}

#[test]
fn error_variants() {
    let mut buf = buffer(b"!oops\r\n");
    assert_eq!(decode_any(&mut buf), Err(RespError::InvalidFrameType(b'!')));
    let mut buf = buffer(b"#x\r\n");
    assert_eq!(decode_any(&mut buf), Err(RespError::InvalidFrame));
    let mut buf = buffer(b":12a\r\n");
    assert_eq!(decode_any(&mut buf), Err(RespError::ParseIntError));
    assert_eq!(&buf[..], b":12a\r\n");
    let mut buf = buffer(b":9223372036854775808\r\n");
    assert_eq!(decode_any(&mut buf), Err(RespError::ParseIntError));
    let mut buf = buffer(b"(abc\r\n");
    assert_eq!(decode_any(&mut buf), Err(RespError::ParseBigNumberError));
    let mut buf = buffer(b"$abc\r\n");
    assert_eq!(decode_any(&mut buf), Err(RespError::ParseIntError));
    assert_eq!(
        predict_length(b"$18446744073709551615\r\n"),
        Err(RespError::InvalidFrameLength)
    );
    let mut buf = BytesMut::new();
    assert_eq!(decode_any(&mut buf), Err(RespError::NotComplete));
    let mut buf = buffer(b"+x\r\n");
    assert_eq!(SimpleError::decode(&mut buf), Err(RespError::InvalidFrame));
}

#[test]
fn invalid_utf8_is_read_lossily() {
    let mut buf = buffer(b"+a\xffb\r\n");
    assert_eq!(
        decode_any(&mut buf),
        Ok(RespFrame::Strings(SimpleString::new("a\u{fffd}b".to_string())))
    );
    let mut buf = buffer("+h\u{e9}\r\n".as_bytes());
    assert_eq!(
        decode_any(&mut buf),
        Ok(RespFrame::Strings(SimpleString::new("h\u{e9}".to_string())))
    );
}

#[test]
fn lengths_are_predicted() {
    assert_eq!(predict_length(b"+OK\r\n"), Ok(5));
    assert_eq!(predict_length(b"$5\r\nhel"), Ok(11));
    assert_eq!(predict_length(b"$-1\r\n"), Ok(5));
    assert_eq!(predict_length(b"*2\r\n$3\r\nset\r\n$5\r\nhello\r\n"), Ok(24));
    assert_eq!(predict_length(b"*2\r\n$3\r\nset\r\n"), Err(RespError::NotComplete));
    assert_eq!(predict_length(b"*1\r\n$10\r\nab"), Ok(21));
    assert_eq!(predict_length(b"+OK"), Err(RespError::NotComplete));
    assert_eq!(RespNullArray::expect_length(b"*-1\r\n"), Ok(5));
    assert_eq!(SimpleNull::expect_length(b"_\r\n"), Ok(3));
    assert_eq!(i64::expect_length(b":1\r\n"), Ok(4));
    assert_eq!(BulkString::expect_length(b"$0\r\n\r\n"), Ok(6));
    assert_eq!(RespFrameArray::expect_length(b"*1\r\n:1\r\n"), Ok(8));
}

#[test]
fn primitives() {
    assert_eq!(find_ctrl_index(b"+OK\r\n", 1), Some(3));
    assert_eq!(find_ctrl_index(b"+OK\r", 1), None);
    assert_eq!(find_ctrl_index(b"a\rb\r\n", 0), Some(3));
    assert_eq!(extract_simple_data_end_index(b"+OK\r\n", "+"), Ok(3));
    assert_eq!(extract_simple_data_end_index(b"+OK\r\n", "-"), Err(RespError::InvalidFrame));
    assert_eq!(extract_simple_data_end_index(b"+O", "+"), Err(RespError::NotComplete));
    assert_eq!(parse_length(b"*12\r\n", "*"), Ok((3, 12)));
    assert_eq!(parse_length(b"*-1\r\n", "*"), Err(RespError::ParseIntError));
    assert_eq!(parse_i64(b"+42"), Some(42));
    assert_eq!(parse_i64(b"-42"), Some(-42));
    assert_eq!(parse_i64(b"-"), None);
    assert_eq!(parse_usize(b"+7"), Some(7));
    assert_eq!(parse_usize(b""), None);
}

#[test]
fn encode_through_each_kind() {
    assert_eq!(SimpleString::new("OK".to_string()).encode(), b"+OK\r\n");
    assert_eq!(Double::new(b"+1.5".to_vec()).encode(), b",+1.5\r\n");
    assert_eq!(7i64.encode(), b":+7\r\n");
    assert_eq!(false.encode(), b"#f\r\n");
    assert_eq!(BulkString::new(vec![]).encode(), b"$0\r\n\r\n");
    assert_eq!(RespFrameArray::new(vec![]).encode(), b"*0\r\n");
}
