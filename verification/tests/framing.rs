use zed_lean4_companion::rpc::{read_message, write_message, Headers, ReadError};

#[test]
fn a_written_message_reads_back() {
    let framed = write_message(b"{}");
    assert_eq!(framed, b"Content-Length: 2\r\n\r\n{}".to_vec());
    assert_eq!(read_message(&framed), Ok(Some((b"{}".to_vec(), framed.len()))));
}

#[test]
fn the_length_counts_bytes() {
    let body = "\"⊢\"".as_bytes();
    let framed = write_message(body);
    assert_eq!(&framed[..21], b"Content-Length: 5\r\n\r\n");
    assert_eq!(read_message(&framed), Ok(Some((body.to_vec(), 26))));
}

#[test]
fn an_empty_body_is_a_message() {
    let framed = write_message(b"");
    assert_eq!(framed, b"Content-Length: 0\r\n\r\n".to_vec());
    assert_eq!(read_message(&framed), Ok(Some((Vec::new(), 21))));
}

#[test]
fn messages_are_read_one_after_the_other() {
    let mut input = write_message(b"first");
    input.extend(write_message(b"second"));
    let (body, used) = read_message(&input).unwrap().unwrap();
    assert_eq!(body, b"first".to_vec());
    let (body, rest) = read_message(&input[used..]).unwrap().unwrap();
    assert_eq!(body, b"second".to_vec());
    assert_eq!(used + rest, input.len());
    assert_eq!(read_message(&input[used + rest..]), Ok(None));
}

#[test]
fn other_headers_are_skipped_and_the_last_length_counts() {
    let input = b"Content-Type: x\r\nContent-Length: 9\r\nContent-Length:\t3 \r\n\r\nabcd";
    assert_eq!(read_message(input), Ok(Some((b"abc".to_vec(), input.len() - 1))));
}

#[test]
fn a_bare_newline_ends_a_header() {
    assert_eq!(read_message(b"Content-Length: +1\n\nz"), Ok(Some((b"z".to_vec(), 21))));
}

#[test]
fn the_end_of_the_input_is_clean_before_a_body() {
    assert_eq!(read_message(b""), Ok(None));
    assert_eq!(read_message(b"Content-Length: 5"), Ok(None));
    assert_eq!(read_message(b"Content-Length: 5\r\n"), Ok(None));
}

#[test]
fn a_missing_or_unreadable_length_is_an_error() {
    assert_eq!(read_message(b"\r\nabc"), Err(ReadError::MissingLength));
    assert_eq!(read_message(b"Content-Length: x\r\n\r\n"), Err(ReadError::MissingLength));
    assert_eq!(read_message(b"content-length: 1\r\n\r\na"), Err(ReadError::MissingLength));
    // A later header that cannot be read takes back an earlier one.
    assert_eq!(
        read_message(b"Content-Length: 1\r\nContent-Length: -1\r\n\r\na"),
        Err(ReadError::MissingLength)
    );
}

#[test]
fn a_body_that_is_cut_off_is_an_error() {
    assert_eq!(read_message(b"Content-Length: 3\r\n\r\nab"), Err(ReadError::UnexpectedEof));
}

#[test]
fn a_header_that_is_not_utf8_is_an_error() {
    assert_eq!(read_message(b"X: \xff\r\n\r\n"), Err(ReadError::InvalidUtf8));
}

#[test]
fn headers_are_taken_in_line_by_line() {
    let mut headers = Headers::new();
    assert_eq!(headers.length(), Err(ReadError::MissingLength));
    assert!(!headers.line("Content-Length: 12\r\n"));
    assert!(!headers.line("X: y\r\n"));
    assert!(headers.line("\r\n"));
    assert_eq!(headers.length(), Ok(12));
}
