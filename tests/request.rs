use bytes::BytesMut;
use minihttp_request::{decode, parse_decimal, BodyReader, Request, RequestError};

const HELLO: &[u8] = b"GET /hello HTTP/1.1\r\nHost: x\r\nContent-Length: 5\r\n\r\nhello";

fn decoded(buf: &mut BytesMut) -> Request {
    decode(buf).unwrap().expect("a complete head")
}

fn reader_for(bytes: &[u8], buf: &mut BytesMut) -> BodyReader {
    buf.extend_from_slice(bytes);
    decoded(buf).body().unwrap()
}

#[test]
fn end_to_end_hello() {
    let mut buf = BytesMut::new();
    buf.extend_from_slice(HELLO);
    let req = decoded(&mut buf);
    assert_eq!(req.method(), "GET");
    assert_eq!(req.path(), "/hello");
    assert_eq!(req.version(), 1);
    assert_eq!(req.describe(), "<HTTP Request GET /hello>");
    assert!(req
        .headers()
        .iter()
        .any(|h| h.name == "Content-Length" && h.value == b"5"));
    let mut reader = req.body().unwrap();
    let mut dst = [0u8; 10];
    assert_eq!(reader.read(&mut buf, &mut dst), Some(5));
    assert_eq!(&dst[..5], b"hello");
    assert_eq!(reader.read(&mut buf, &mut dst), Some(0));
}

#[test]
fn chunked_input_decodes_like_one_piece() {
    let mut whole = BytesMut::new();
    whole.extend_from_slice(HELLO);
    let one = decoded(&mut whole);

    let mut buf = BytesMut::new();
    for chunk in [&HELLO[..7], &HELLO[7..22], &HELLO[22..40]] {
        buf.extend_from_slice(chunk);
        let before = buf.clone();
        assert!(decode(&mut buf).unwrap().is_none());
        assert_eq!(buf, before);
    }
    buf.extend_from_slice(&HELLO[40..]);
    let split = decoded(&mut buf);
    assert_eq!(split.method(), one.method());
    assert_eq!(split.path(), one.path());
    assert_eq!(split.version(), one.version());
    let names: Vec<_> = split.headers().iter().map(|h| (h.name.clone(), h.value.clone())).collect();
    let names_one: Vec<_> = one.headers().iter().map(|h| (h.name.clone(), h.value.clone())).collect();
    assert_eq!(names, names_one);
    assert_eq!(buf, whole);
}

#[test]
fn decode_stops_at_first_body_byte() {
    let mut buf = BytesMut::new();
    buf.extend_from_slice(b"POST /x HTTP/1.0\r\nContent-Length: 3\r\n\r\nabcGET");
    let req = decoded(&mut buf);
    assert_eq!(req.version(), 0);
    assert_eq!(&buf[..], b"abcGET");
}

#[test]
fn malformed_head_is_an_error_and_consumes_nothing() {
    let mut buf = BytesMut::new();
    let input: &[u8] = b"GET /x HTTP/1.1\r\nBad Header\r\n\r\n";
    buf.extend_from_slice(input);
    assert!(matches!(decode(&mut buf), Err(RequestError::Malformed(_))));
    assert_eq!(&buf[..], input);
}

#[test]
fn too_many_headers_is_an_error() {
    let mut text = String::from("GET / HTTP/1.1\r\n");
    for i in 0..17 {
        text.push_str(&format!("h{i}: v\r\n"));
    }
    text.push_str("\r\n");
    let mut buf = BytesMut::new();
    buf.extend_from_slice(text.as_bytes());
    assert!(matches!(decode(&mut buf), Err(RequestError::Malformed(_))));
}

#[test]
fn reading_whole_body_then_nothing_more() {
    let mut buf = BytesMut::new();
    let mut reader = reader_for(b"PUT / HTTP/1.1\r\nContent-Length: 4\r\n\r\nabcdGET / HTTP/1.1\r\n", &mut buf);
    let mut dst = [0u8; 3];
    assert_eq!(reader.read(&mut buf, &mut dst), Some(3));
    assert_eq!(&dst, b"abc");
    assert_eq!(reader.read(&mut buf, &mut dst), Some(1));
    assert_eq!(dst[0], b'd');
    assert_eq!(reader.read(&mut buf, &mut dst), Some(0));
    assert!(reader.drain_buffered(&mut buf));
    assert_eq!(&buf[..], b"GET / HTTP/1.1\r\n");
}

#[test]
fn draining_unread_body_leaves_next_request() {
    let mut buf = BytesMut::new();
    let mut reader = reader_for(b"PUT / HTTP/1.1\r\nContent-Length: 4\r\n\r\nabcdNEXT", &mut buf);
    assert!(reader.drain_buffered(&mut buf));
    assert_eq!(&buf[..], b"NEXT");
}

#[test]
fn draining_pulls_body_that_arrives_later() {
    let mut buf = BytesMut::new();
    let mut reader = reader_for(b"PUT / HTTP/1.1\r\nContent-Length: 6\r\n\r\nab", &mut buf);
    assert!(!reader.drain_buffered(&mut buf));
    assert!(buf.is_empty());
    buf.extend_from_slice(b"cd");
    assert!(!reader.drain_buffered(&mut buf));
    buf.extend_from_slice(b"efNEXT");
    assert!(reader.drain_buffered(&mut buf));
    assert_eq!(&buf[..], b"NEXT");
}

#[test]
fn read_asks_for_input_when_buffer_is_empty() {
    let mut buf = BytesMut::new();
    let mut reader = reader_for(b"PUT / HTTP/1.1\r\nContent-Length: 2\r\n\r\n", &mut buf);
    let mut dst = [0u8; 8];
    assert_eq!(reader.read(&mut buf, &mut dst), None);
    assert!(reader.fill_buf(&buf).is_none());
    buf.extend_from_slice(b"xyz");
    assert_eq!(reader.fill_buf(&buf), Some(&b"xy"[..]));
    assert_eq!(reader.read(&mut buf, &mut dst), Some(2));
    assert_eq!(&dst[..2], b"xy");
    assert_eq!(&buf[..], b"z");
    assert_eq!(reader.fill_buf(&buf), Some(&b""[..]));
}

#[test]
fn consume_takes_from_buffer_and_allowance() {
    let mut buf = BytesMut::new();
    let mut reader = reader_for(b"PUT / HTTP/1.1\r\nContent-Length: 5\r\n\r\nhello", &mut buf);
    reader.consume(&mut buf, 2);
    assert_eq!(reader.fill_buf(&buf), Some(&b"llo"[..]));
    reader.consume(&mut buf, 3);
    assert_eq!(reader.fill_buf(&buf), Some(&b""[..]));
    assert!(buf.is_empty());
}

#[test]
fn missing_content_length_gives_empty_body() {
    let mut buf = BytesMut::new();
    buf.extend_from_slice(b"GET / HTTP/1.1\r\nHost: a\r\n\r\nNEXT");
    let req = decoded(&mut buf);
    assert_eq!(req.content_length().unwrap(), 0);
    let mut reader = req.body().unwrap();
    let mut dst = [0u8; 4];
    assert_eq!(reader.read(&mut buf, &mut dst), Some(0));
    assert_eq!(dst, [0u8; 4]);
    assert_eq!(reader.fill_buf(&buf), Some(&b""[..]));
    assert!(reader.drain_buffered(&mut buf));
    assert_eq!(&buf[..], b"NEXT");
}

#[test]
fn content_length_name_ignores_case() {
    let mut buf = BytesMut::new();
    buf.extend_from_slice(b"GET / HTTP/1.1\r\ncOnTeNt-LeNgTh: 12\r\n\r\n");
    assert_eq!(decoded(&mut buf).content_length().unwrap(), 12);
}

#[test]
fn first_content_length_header_counts() {
    let mut buf = BytesMut::new();
    buf.extend_from_slice(b"GET / HTTP/1.1\r\ncontent-length: 7\r\nContent-Length: 9\r\n\r\n");
    assert_eq!(decoded(&mut buf).content_length().unwrap(), 7);
}

#[test]
fn invalid_content_length_is_an_error() {
    for value in ["abc", "", "-1", "1 2", "18446744073709551616"] {
        let mut buf = BytesMut::new();
        buf.extend_from_slice(format!("GET / HTTP/1.1\r\nContent-Length: {value}\r\n\r\n").as_bytes());
        let req = decoded(&mut buf);
        assert!(matches!(req.content_length(), Err(RequestError::InvalidContentLength)));
        assert!(matches!(req.body(), Err(RequestError::InvalidContentLength)));
    }
}

#[test]
fn decimal_values() {
    assert_eq!(parse_decimal(b"0"), Some(0));
    assert_eq!(parse_decimal(b"+42"), Some(42));
    assert_eq!(parse_decimal(b"007"), Some(7));
    assert_eq!(parse_decimal(b"18446744073709551615"), Some(usize::MAX));
    assert_eq!(parse_decimal(b"18446744073709551616"), None);
    assert_eq!(parse_decimal(b"+"), None);
    assert_eq!(parse_decimal(b""), None);
    assert_eq!(parse_decimal(b"12a"), None);
    for s in ["0", "+42", "007", "99999", "x", "", "+", "-3"] {
        assert_eq!(parse_decimal(s.as_bytes()), s.parse::<usize>().ok());
    }
}

#[test]
fn incomplete_head_is_none() {
    let mut buf = BytesMut::new();
    buf.extend_from_slice(b"GET /hello HTTP/1.1\r\nHost:");
    assert!(decode(&mut buf).unwrap().is_none());
    assert_eq!(buf.len(), 26);
    let mut empty = BytesMut::new();
    assert!(decode(&mut empty).unwrap().is_none());
}
