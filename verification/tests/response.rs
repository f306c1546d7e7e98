use minihttp::error::Error;
use minihttp::http::status_reason;
use minihttp::http::Response;

#[test]
fn status_404_then_write_gives_exact_bytes() {
    let mut res = Response::for_stream(Vec::new());
    assert_eq!(res.status(404), Ok(()));
    let written = res.write(b"not found");
    let expected: &[u8] = b"HTTP/1.1 404 Not Found\r\nContent-Type: text/plain\r\n\r\nnot found";
    assert_eq!(res.sent().as_slice(), expected);
    assert_eq!(written, expected.len());
    assert_eq!(res.into_stream(), expected.to_vec());
}

#[test]
fn response_without_write_sends_nothing() {
    let mut res = Response::for_stream(Vec::new());
    assert_eq!(res.status(500), Ok(()));
    assert_eq!(res.header("X-A".to_string(), "1".to_string()), Ok(()));
    res.flush();
    assert!(!res.is_dirty());
    assert_eq!(res.code(), 500);
    assert!(res.sent().is_empty());
    assert!(res.into_stream().is_empty());
}

#[test]
fn new_response_is_200_text_plain() {
    let mut res = Response::for_stream(Vec::new());
    assert_eq!(res.code(), 200);
    assert!(!res.is_dirty());
    assert_eq!(res.write(b""), 45);
    assert_eq!(res.sent().as_slice(), b"HTTP/1.1 200 OK\r\nContent-Type: text/plain\r\n\r\n");
    assert!(res.is_dirty());
}

#[test]
fn head_is_sent_once_before_all_bodies() {
    let mut res = Response::for_stream(Vec::new());
    let head: &[u8] = b"HTTP/1.1 200 OK\r\nContent-Type: text/plain\r\n\r\n";
    assert_eq!(res.write(b"one"), head.len() + 3);
    assert_eq!(res.write(b""), 0);
    assert_eq!(res.write(b"two"), 3);
    assert_eq!(res.write(b"\r\nthree"), 7);
    let mut expected = head.to_vec();
    expected.extend_from_slice(b"onetwo\r\nthree");
    assert_eq!(res.sent(), &expected);
}

#[test]
fn written_bytes_go_behind_what_the_buffer_held() {
    let mut res = Response::for_stream(b"before".to_vec());
    assert_eq!(res.sent().as_slice(), b"before");
    assert_eq!(res.write(b"x"), 46);
    assert_eq!(res.sent().as_slice(), b"beforeHTTP/1.1 200 OK\r\nContent-Type: text/plain\r\n\r\nx");
}

#[test]
fn setters_fail_after_write_and_change_nothing() {
    let mut res = Response::for_stream(Vec::new());
    assert_eq!(res.status(201), Ok(()));
    res.write(b"a");
    let sent = res.sent().clone();
    assert_eq!(res.status(404), Err(Error::AlreadyFlushed));
    assert_eq!(res.status(600), Err(Error::AlreadyFlushed));
    assert_eq!(res.header("X".to_string(), "y".to_string()), Err(Error::AlreadyFlushed));
    assert_eq!(res.header("Content-Type".to_string(), "text/html".to_string()), Err(Error::AlreadyFlushed));
    assert_eq!(res.code(), 201);
    assert!(res.is_dirty());
    assert_eq!(res.sent(), &sent);
    res.write(b"b");
    assert_eq!(res.sent().as_slice(), b"HTTP/1.1 201 Created\r\nContent-Type: text/plain\r\n\r\nab");
}

#[test]
fn empty_write_closes_the_head() {
    let mut res = Response::for_stream(Vec::new());
    res.write(&[]);
    assert_eq!(res.status(404), Err(Error::AlreadyFlushed));
}

#[test]
fn status_of_600_or_more_is_refused() {
    let mut res = Response::for_stream(Vec::new());
    assert_eq!(res.status(600), Err(Error::InvalidStatusCode));
    assert_eq!(res.status(u32::MAX), Err(Error::InvalidStatusCode));
    assert_eq!(res.code(), 200);
    assert_eq!(res.status(599), Ok(()));
    assert_eq!(res.code(), 599);
    res.write(b"");
    assert_eq!(res.sent().as_slice(), b"HTTP/1.1 599 Unknown Status\r\nContent-Type: text/plain\r\n\r\n");
}

#[test]
fn status_has_no_lower_bound() {
    let mut res = Response::for_stream(Vec::new());
    assert_eq!(res.status(0), Ok(()));
    res.write(b"");
    assert_eq!(res.sent().as_slice(), b"HTTP/1.1 0 Unknown Status\r\nContent-Type: text/plain\r\n\r\n");
    let mut res = Response::for_stream(Vec::new());
    assert_eq!(res.status(7), Ok(()));
    res.write(b"");
    assert_eq!(res.sent().as_slice(), b"HTTP/1.1 7 Unknown Status\r\nContent-Type: text/plain\r\n\r\n");
    let mut res = Response::for_stream(Vec::new());
    assert_eq!(res.status(99), Ok(()));
    res.write(b"");
    assert_eq!(res.sent().as_slice(), b"HTTP/1.1 99 Unknown Status\r\nContent-Type: text/plain\r\n\r\n");
}

#[test]
fn status_is_written_in_decimal() {
    for (code, line) in [
        (100u32, "HTTP/1.1 100 Continue\r\n"),
        (101, "HTTP/1.1 101 Switching Protocols\r\n"),
        (210, "HTTP/1.1 210 Unknown Status\r\n"),
        (505, "HTTP/1.1 505 HTTP Version not supported\r\n"),
    ] {
        let mut res = Response::for_stream(Vec::new());
        assert_eq!(res.status(code), Ok(()));
        res.write(b"");
        assert!(res.sent().starts_with(line.as_bytes()));
    }
}

#[test]
fn headers_keep_first_place_and_last_value() {
    let mut res = Response::for_stream(Vec::new());
    assert_eq!(res.header("X-One".to_string(), "1".to_string()), Ok(()));
    assert_eq!(res.header("Content-Type".to_string(), "text/html".to_string()), Ok(()));
    assert_eq!(res.header("X-Two".to_string(), "2".to_string()), Ok(()));
    assert_eq!(res.header("X-One".to_string(), "uno".to_string()), Ok(()));
    assert_eq!(res.header("x-one".to_string(), "lower".to_string()), Ok(()));
    res.write(b"<p>");
    assert_eq!(
        res.sent().as_slice(),
        &b"HTTP/1.1 200 OK\r\nContent-Type: text/html\r\nX-One: uno\r\nX-Two: 2\r\nx-one: lower\r\n\r\n<p>"[..]
    );
}

#[test]
fn header_text_is_sent_as_utf8() {
    let mut res = Response::for_stream(Vec::new());
    assert_eq!(res.header("X-N\u{e4}me".to_string(), "\u{4e16}\u{754c}".to_string()), Ok(()));
    let written = res.write(b"");
    let expected = "HTTP/1.1 200 OK\r\nContent-Type: text/plain\r\nX-N\u{e4}me: \u{4e16}\u{754c}\r\n\r\n";
    assert_eq!(res.sent().as_slice(), expected.as_bytes());
    assert_eq!(written, expected.len());
}

#[test]
fn reason_phrases() {
    let table = [
        (100u32, "Continue"),
        (101, "Switching Protocols"),
        (200, "OK"),
        (201, "Created"),
        (202, "Accepted"),
        (203, "Non-Authoritative Information"),
        (204, "No Content"),
        (205, "Reset Content"),
        (206, "Partial Content"),
        (300, "Multiple Choices"),
        (301, "Moved Permanently"),
        (302, "Found"),
        (303, "See Other"),
        (304, "Not Modified"),
        (305, "Use Proxy"),
        (307, "Temporary Redirect"),
        (400, "Bad Request"),
        (401, "Unauthorized"),
        (402, "Payment Required"),
        (403, "Forbidden"),
        (404, "Not Found"),
        (405, "Method Not Allowed"),
        (406, "Not Acceptable"),
        (407, "Proxy Authentication Required"),
        (408, "Request Time-out"),
        (409, "Conflict"),
        (410, "Gone"),
        (411, "Length Required"),
        (412, "Precondition Failed"),
        (413, "Request Entity Too Large"),
        (414, "Request-URI Too Large"),
        (415, "Unsupported Media Type"),
        (416, "Requested range not satisfiable"),
        (417, "Expectation Failed"),
        (418, "I'm a teapot"),
        (500, "Internal Server Error"),
        (501, "Not Implemented"),
        (502, "Bad Gateway"),
        (503, "Service Unavailable"),
        (504, "Gateway Time-out"),
        (505, "HTTP Version not supported"),
    ];
    for (code, phrase) in table {
        assert_eq!(status_reason(code), phrase);
    }
}

#[test]
fn unknown_codes_have_one_phrase() {
    for code in [0u32, 1, 99, 102, 199, 207, 306, 308, 419, 499, 506, 599, 600, 1000, u32::MAX] {
        assert_eq!(status_reason(code), "Unknown Status");
    }
}

#[test]
fn error_messages() {
    assert_eq!(Error::MalformedRequestLine.message(), "protocol not HTTP");
    assert_eq!(Error::InvalidHttpVersion.message(), "invalid HTTP version");
    assert_eq!(Error::MalformedHeader.message(), "malformed HTTP header");
    assert_eq!(Error::InvalidContentLength.message(), "invalid content length");
    assert_eq!(Error::InvalidStatusCode.message(), "invalid status code");
    assert_eq!(Error::AlreadyFlushed.message(), "status already written to client");
    assert_eq!(Error::PoolClosed.message(), "attempting to use pool that was shutdown");
    assert_eq!(Error::InvalidEncoding.message(), "stream did not contain valid UTF-8");
}
