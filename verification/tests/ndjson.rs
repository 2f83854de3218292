use std::io::Cursor;

use gpui_agent::ndjson::{finish_read, read_limited_line};

#[test]
fn limited_line_accepts_short_utf8() {
    let mut cursor = Cursor::new("hello\nmore");
    let line = read_limited_line(&mut cursor, 16).unwrap().unwrap();
    assert_eq!(line, "hello");
}

#[test]
fn limited_line_rejects_oversize() {
    let mut cursor = Cursor::new("x".repeat(8) + "\n");
    let err = read_limited_line(&mut cursor, 4).unwrap_err();
    assert_eq!(err.kind(), std::io::ErrorKind::InvalidData);
}

#[test]
fn limited_line_reports_end_of_stream_and_crlf() {
    let mut cursor = Cursor::new("a\r\nb");
    assert_eq!(read_limited_line(&mut cursor, 16).unwrap().as_deref(), Some("a"));
    assert_eq!(read_limited_line(&mut cursor, 16).unwrap().as_deref(), Some("b"));
    assert_eq!(read_limited_line(&mut cursor, 16).unwrap(), None);
}

#[test]
fn blank_lines_are_only_ascii_whitespace() {
    use_blank();
}

fn use_blank() {
    assert!(gpui_agent::ndjson::line_is_blank(b""));
    assert!(gpui_agent::ndjson::line_is_blank(b" \t\r\n"));
    assert!(!gpui_agent::ndjson::line_is_blank(b" {}"));
}

#[test]
fn the_cap_does_not_count_the_newline() {
    let mut cursor = Cursor::new("abcd\nabcde\n");
    assert_eq!(read_limited_line(&mut cursor, 4).unwrap().as_deref(), Some("abcd"));
    let err = read_limited_line(&mut cursor, 4).unwrap_err();
    assert_eq!(err.kind(), std::io::ErrorKind::InvalidData);
    assert_eq!(err.to_string(), "line too long");
}

#[test]
fn finish_read_classifies_what_was_read() {
    let mut buf = b"ok\r\n".to_vec();
    assert!(finish_read(Ok(4), &mut buf, 3).unwrap());
    assert_eq!(buf, b"ok");
    let mut empty = Vec::new();
    assert!(!finish_read(Ok(0), &mut empty, 2).unwrap());
    let mut bad = vec![0xff, b'\n'];
    let err = finish_read(Ok(2), &mut bad, 8).unwrap_err();
    assert_eq!(err.kind(), std::io::ErrorKind::InvalidData);
    assert_eq!(err.to_string(), "line is not valid UTF-8");
    let mut any = b"x".to_vec();
    let passed = finish_read(Err(std::io::Error::other("boom")), &mut any, 8).unwrap_err();
    assert_eq!(passed.to_string(), "boom");
}
