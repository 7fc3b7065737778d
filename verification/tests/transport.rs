use my_teams::server::transport::take_lines;
use std::io::Read;

fn read_into_buffer(data: &[u8], input_buffer: &mut String) {
    let stream: &mut dyn Read = &mut &data[..];
    let mut buf = [0u8; 1024];
    let n = stream.read(&mut buf).unwrap();
    input_buffer.push_str(String::from_utf8_lossy(&buf[..n]).as_ref());
}

#[test]
fn read_lines_nonblocking_with_single_line() {
    let mut input_buffer = String::new();
    read_into_buffer(b"hello\n", &mut input_buffer);
    let lines = take_lines(&mut input_buffer);
    assert_eq!(lines.len(), 1);
    assert_eq!(lines[0], "hello");
}

#[test]
fn read_lines_nonblocking_with_multiple_lines() {
    let mut input_buffer = String::new();
    read_into_buffer(b"line1\nline2\nline3\n", &mut input_buffer);
    let lines = take_lines(&mut input_buffer);
    assert_eq!(lines.len(), 3);
    assert_eq!(lines[0], "line1");
    assert_eq!(lines[1], "line2");
    assert_eq!(lines[2], "line3");
}

#[test]
fn read_lines_nonblocking_with_incomplete_line() {
    let mut input_buffer = String::new();
    read_into_buffer(b"incomplete", &mut input_buffer);
    let lines = take_lines(&mut input_buffer);
    assert_eq!(lines.len(), 0);
    assert_eq!(input_buffer, "incomplete");
}

#[test]
fn read_lines_nonblocking_strips_crlf() {
    let mut input_buffer = String::new();
    read_into_buffer(b"hello\r\nworld\r\n", &mut input_buffer);
    let lines = take_lines(&mut input_buffer);
    assert_eq!(lines.len(), 2);
    assert_eq!(lines[0], "hello");
    assert_eq!(lines[1], "world");
}

#[test]
fn read_lines_nonblocking_skips_empty_lines() {
    let mut input_buffer = String::new();
    read_into_buffer(b"line1\n\nline3\n", &mut input_buffer);
    let lines = take_lines(&mut input_buffer);
    assert_eq!(lines.len(), 2);
    assert_eq!(lines[0], "line1");
    assert_eq!(lines[1], "line3");
}

#[test]
fn take_lines_keeps_the_partial_line_for_later() {
    let mut input_buffer = String::from("C100 USE");
    assert!(take_lines(&mut input_buffer).is_empty());
    input_buffer.push_str("RS\r\nC100 HE");
    let lines = take_lines(&mut input_buffer);
    assert_eq!(lines, vec!["C100 USERS"]);
    assert_eq!(input_buffer, "C100 HE");
}
