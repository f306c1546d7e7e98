use minihttp::error::Error;
use minihttp::server::Dispatch;
use minihttp::server::Server;
use minihttp::server::WORKERS;

#[test]
fn server_keeps_its_address() {
    let server = Server::new("127.0.0.1:8000".to_string());
    assert_eq!(server.addr(), "127.0.0.1:8000");
    assert_eq!(WORKERS, 8);
}

#[test]
fn readable_request_goes_to_the_handler() {
    match Server::dispatch(b"PUT /thing HTTP/1.1\r\nContent-Length: 2\r\n\r\nhi", Vec::new()) {
        Dispatch::Handle(req, mut res) => {
            assert!(req.method().is_put());
            assert_eq!(req.location(), "/thing");
            assert_eq!(req.body(), Some("hi".to_string()));
            assert!(!res.is_dirty());
            assert_eq!(res.code(), 200);
            assert!(res.sent().is_empty());
            assert_eq!(res.header("Content-Type".to_string(), "text/html".to_string()), Ok(()));
            res.write(b"<h1>Hello World!</h1><p>It works :)</p>");
            assert_eq!(
                res.sent().as_slice(),
                &b"HTTP/1.1 200 OK\r\nContent-Type: text/html\r\n\r\n<h1>Hello World!</h1><p>It works :)</p>"[..]
            );
        }
        Dispatch::Reject(..) => panic!("the request can be read"),
    }
}

#[test]
fn unreadable_request_is_answered_with_400() {
    let cases: [(&[u8], Error); 5] = [
        (b"BOGUS\r\n\r\n", Error::MalformedRequestLine),
        (b"GET / HTTP/2\r\n\r\n", Error::InvalidHttpVersion),
        (b"GET / HTTP/1.1\r\nnothing\r\n\r\n", Error::MalformedHeader),
        (b"GET / HTTP/1.1\r\nContent-Length: many\r\n\r\n", Error::InvalidContentLength),
        (b"GET /\xfe HTTP/1.1\r\n\r\n", Error::InvalidEncoding),
    ];
    for (stream, expected) in cases {
        match Server::dispatch(stream, Vec::new()) {
            Dispatch::Reject(error, mut res) => {
                assert_eq!(error, expected);
                assert!(res.is_dirty());
                assert_eq!(res.code(), 400);
                assert_eq!(
                    res.sent().as_slice(),
                    b"HTTP/1.1 400 Bad Request\r\nContent-Type: text/plain\r\n\r\n"
                );
                assert_eq!(res.status(200), Err(Error::AlreadyFlushed));
            }
            Dispatch::Handle(..) => panic!("the request cannot be read"),
        }
    }
}
