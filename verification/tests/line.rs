use tnsm_relay::line::{read_line, LineError, LineEvent, LineReader, LineStep};

fn lengthy(n: usize, end: &[u8]) -> Vec<u8> {
    let mut v = vec![b'x'; n];
    v.extend_from_slice(end);
    v
}

#[test]
fn line_ends_at_the_line_feed() {
    assert_eq!(read_line(b"HOST abc\nrest"), (Ok("HOST abc".to_string()), 9));
    assert_eq!(read_line(b"HOST abc\r\nrest"), (Ok("HOST abc".to_string()), 10));
    assert_eq!(read_line(b"\n"), (Ok(String::new()), 1));
    assert_eq!(read_line(b"\r\n"), (Ok(String::new()), 2));
}

#[test]
fn only_one_carriage_return_is_dropped() {
    assert_eq!(read_line(b"a\r\r\n"), (Ok("a\r".to_string()), 4));
    assert_eq!(read_line(b"a\rb\n"), (Ok("a\rb".to_string()), 4));
}

#[test]
fn nothing_behind_the_line_is_taken() {
    let stream = b"RC code\n\x16\x03\x01tls";
    let (line, taken) = read_line(stream);
    assert_eq!(line, Ok("RC code".to_string()));
    assert_eq!(&stream[taken..], b"\x16\x03\x01tls");
}

#[test]
fn line_may_have_so_many_bytes() {
    let (line, taken) = read_line(&lengthy(256, b"\n"));
    assert_eq!(line, Ok("x".repeat(256)));
    assert_eq!(taken, 257);
    assert_eq!(read_line(&lengthy(257, b"\n")), (Err(LineError::TooLong), 257));
    assert_eq!(read_line(&lengthy(255, b"\r\n")), (Ok("x".repeat(255)), 257));
    assert_eq!(read_line(&lengthy(256, b"\r\n")), (Err(LineError::TooLong), 257));
    assert_eq!(read_line(&lengthy(1000, b"")), (Err(LineError::TooLong), 257));
}

#[test]
fn stream_that_ends_early_gives_no_line() {
    assert_eq!(read_line(b""), (Err(LineError::Eof), 0));
    assert_eq!(read_line(b"HOST abc"), (Err(LineError::Eof), 8));
    assert_eq!(read_line(&lengthy(256, b"")), (Err(LineError::Eof), 256));
}

#[test]
fn line_must_be_utf8() {
    assert_eq!(read_line(b"HOST \xff\n"), (Err(LineError::NotUtf8), 7));
    assert_eq!(read_line(b"\xc0\x80\n"), (Err(LineError::NotUtf8), 3));
    assert_eq!(read_line("RC caf\u{e9}\n".as_bytes()).0, Ok("RC caf\u{e9}".to_string()));
}

#[test]
fn reader_goes_byte_by_byte() {
    let mut reader = LineReader::new();
    assert!(matches!(reader.step(LineEvent::Byte(b'h')), LineStep::More));
    assert!(matches!(reader.step(LineEvent::Byte(b'i')), LineStep::More));
    match reader.step(LineEvent::Byte(b'\n')) {
        LineStep::Done(r) => assert_eq!(r, Ok("hi".to_string())),
        LineStep::More => panic!("the line is complete"),
    }
    match reader.step(LineEvent::Byte(b'\n')) {
        LineStep::Done(r) => assert_eq!(r, Ok(String::new())),
        LineStep::More => panic!("the line is complete"),
    }
}

#[test]
fn reader_stops_on_trouble() {
    let cases = [
        (LineEvent::Eof, LineError::Eof),
        (LineEvent::Failed, LineError::Failed),
        (LineEvent::TimedOut, LineError::TimedOut),
    ];
    for (event, error) in cases {
        let mut reader = LineReader::new();
        assert!(matches!(reader.step(LineEvent::Byte(b'h')), LineStep::More));
        match reader.step(event) {
            LineStep::Done(r) => assert_eq!(r, Err(error)),
            LineStep::More => panic!("reading is over"),
        }
    }
}
