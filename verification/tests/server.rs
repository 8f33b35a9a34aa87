use std::cell::RefCell;
use std::rc::Rc;

use slimweb::server::response::reason;
use slimweb::server::{answer_expectation, consult, respond, Server};
use slimweb::stream::Stream;
use slimweb::{
    Body, Error, GeneralInfo, Headers, IoKind, ServerRequest, ServerResponse, StatusInfo,
};

type Handler = Box<dyn Fn(&ServerRequest) -> Result<ServerResponse, Error>>;
type Check = Box<dyn Fn(&GeneralInfo) -> Result<(i32, Option<String>), Error>>;

fn io_kind(e: &Error) -> Option<IoKind> {
    match e {
        Error::Io(io) => Some(io.kind),
        _ => None,
    }
}

fn headers(pairs: &[(&str, &str)]) -> Headers {
    let mut h = Headers::new();
    for (k, v) in pairs {
        h.insert(k.to_string(), v.to_string());
    }
    h
}

fn echo_server() -> Server<Handler, Check> {
    Server::<Handler, Check>::new()
        .add_handler("GET", "/", Box::new(|_| ServerResponse::new(200)))
        .add_handler(
            "POST",
            "/echo",
            Box::new(|req| Ok(ServerResponse::new(200)?.set_body(Body::Bytes(req.body.to_bytes())))),
        )
}

fn exchange(server: &Server<Handler, Check>, stream: &mut Stream) -> Result<bool, Error> {
    match server.accept(stream)? {
        Some(info) => {
            server.process_request(stream, info)?;
            Ok(true)
        },
        None => Ok(false),
    }
}

#[test]
fn test_basic() {
    let server = echo_server();
    let mut stream = Stream::new(b"GET / HTTP/1.1\r\nHost: localhost\r\n\r\n".to_vec(), false);
    assert!(exchange(&server, &mut stream).unwrap());
    let mut answer = Stream::new(stream.take_written(), true);
    let resp = slimweb::framer::process_lines(&mut answer).unwrap();
    match resp.status {
        StatusInfo::Response(code, _) => assert_eq!(code, 200),
        _ => panic!("no status line"),
    }
}

#[test]
fn every_code_of_the_table_has_its_reason() {
    let table = [
        (100, "Continue"),
        (101, "Switching Protocols"),
        (103, "Early Hints"),
        (200, "OK"),
        (201, "Created"),
        (202, "Accepted"),
        (203, "Non-Authoritative Information"),
        (204, "No Content"),
        (205, "Reset Content"),
        (206, "Partial Content"),
        (300, "Multiple Choices"),
        (301, "Moved Permanently"),
        (302, "Found"),
        (303, "See Other"),
        (304, "Not Modified"),
        (305, "Use Proxy"),
        (306, "Switch Proxy"),
        (307, "Temporary Redirect"),
        (308, "Permanent Redirect"),
        (400, "Bad Request"),
        (401, "Unauthorized"),
        (402, "Payment Required"),
        (403, "Forbidden"),
        (404, "Not Found"),
        (405, "Method Not Allowed"),
        (406, "Not Acceptable"),
        (407, "Proxy Authentication Required"),
        (408, "Request Timeout"),
        (409, "Conflict"),
        (410, "Gone"),
        (411, "Length Required"),
        (412, "Precondition Failed"),
        (413, "Payload Too Large"),
        (414, "URI Too Long"),
        (415, "Unsupported Media Type"),
        (416, "Range Not Satisfiable"),
        (417, "Expectation Failed"),
        (418, "I'm a teapot"),
        (421, "Misdirected Request"),
        (425, "Too Early"),
        (426, "Upgrade Required"),
        (428, "Precondition Required"),
        (429, "Too Many Requests"),
        (431, "Request Header Fields Too Large"),
        (451, "Unavailable For Legal Reasons"),
        (500, "Internal Server Error"),
        (501, "Not Implemented"),
        (502, "Bad Gateway"),
        (503, "Service Unavailable"),
        (504, "Gateway Timeout"),
        (505, "HTTP Version Not Supported"),
        (506, "Variant Also Negotiates"),
        (510, "Not Extended"),
        (511, "Network Authentication Required"),
    ];
    let mut known = 0;
    for code in -10..700 {
        match table.iter().find(|(c, _)| *c == code) {
            Some((_, phrase)) => {
                known += 1;
                assert_eq!(reason(code), Some(*phrase));
                let resp = ServerResponse::new(code).unwrap();
                assert_eq!(resp.info.status, StatusInfo::Response(code, phrase.to_string()));
                assert_eq!(resp.info.headers.len(), 0);
                assert_eq!(resp.body, None);
                assert_eq!(resp.compression_level, None);
                assert_eq!(resp.chunk_size, None);
            },
            None => {
                assert_eq!(reason(code), None);
                assert!(matches!(ServerResponse::new(code), Err(Error::HTTPStatusCodeNotRecognized)));
            },
        }
    }
    assert_eq!(known, 54);
    assert!(matches!(ServerResponse::new(i32::MIN), Err(Error::HTTPStatusCodeNotRecognized)));
    assert!(matches!(ServerResponse::new(i32::MAX), Err(Error::HTTPStatusCodeNotRecognized)));
}

#[test]
fn a_response_as_it_stands_is_head_empty_line_and_body() {
    let resp = ServerResponse::new(404).unwrap();
    assert_eq!(resp.to_bytes(), b"HTTP/1.1 404 Not Found\r\n\r\n".to_vec());
    let resp = resp.set_header("X-A", "1").set_body(Body::from_text("gone"));
    assert_eq!(
        resp.to_bytes(),
        b"HTTP/1.1 404 Not Found\r\nX-A: 1\r\nContent-Type: text/plain;\r\n\r\ngone".to_vec()
    );
    let resp = resp.set_body(Body::from_json("{}")).set_chunk_size(8).set_compression_level(3);
    assert_eq!(resp.chunk_size, Some(8));
    assert_eq!(resp.compression_level, Some(3));
    assert_eq!(
        resp.info.headers.get("Content-Type"),
        Some(&"application/json;charset=UTF-8".to_string())
    );
    assert_eq!(resp.info.headers.len(), 2);
}

#[test]
fn a_response_goes_out_with_its_length() {
    let mut stream = Stream::new(Vec::new(), false);
    let resp = ServerResponse::new(200).unwrap().set_body(Body::from_text("hello"));
    respond(&mut stream, &Headers::new(), resp).unwrap();
    assert_eq!(
        stream.take_written(),
        b"HTTP/1.1 200 OK\r\nContent-Type: text/plain;\r\nContent-Length: 5\r\n\r\nhello".to_vec()
    );
    respond(&mut stream, &Headers::new(), ServerResponse::new(204).unwrap()).unwrap();
    assert_eq!(stream.take_written(), b"HTTP/1.1 204 No Content\r\n\r\n".to_vec());
    let resp = ServerResponse::new(200).unwrap().set_header("Content-Length", "99").set_body(Body::from_bytes(b""));
    respond(&mut stream, &Headers::new(), resp).unwrap();
    assert_eq!(
        stream.take_written(),
        b"HTTP/1.1 200 OK\r\nContent-Length: 0\r\nContent-Type: text/plain;\r\n\r\n".to_vec()
    );
}

#[test]
fn a_response_goes_out_in_chunks_where_a_chunk_size_is_set() {
    let mut stream = Stream::new(Vec::new(), false);
    let resp = ServerResponse::new(200).unwrap().set_body(Body::from_text("hello")).set_chunk_size(3);
    respond(&mut stream, &Headers::new(), resp).unwrap();
    assert_eq!(
        stream.take_written(),
        b"HTTP/1.1 200 OK\r\nContent-Type: text/plain;\r\nTransfer-Encoding: chunked\r\n\r\n3\r\nhel\r\n2\r\nlo\r\n0\r\n\r\n"
            .to_vec()
    );
    let resp = ServerResponse::new(200).unwrap().set_chunk_size(3);
    respond(&mut stream, &Headers::new(), resp).unwrap();
    assert_eq!(stream.take_written(), b"HTTP/1.1 200 OK\r\n\r\n".to_vec());
}

#[test]
fn a_response_is_compressed_only_for_a_requester_that_accepts_it() {
    let body = b"abcabcabcabcabcabcabcabcabcabcabcabcabcabcabcabcabcabc".to_vec();
    let packed = slimweb::codec::compress(&body, 7).unwrap();
    let make = || ServerResponse::new(200).unwrap().set_body(Body::from_bytes(&body)).set_compression_level(7);
    let mut stream = Stream::new(Vec::new(), false);
    respond(&mut stream, &headers(&[("Accept-Encoding", "gzip, br")]), make()).unwrap();
    let mut want = format!(
        "HTTP/1.1 200 OK\r\nContent-Type: text/plain;\r\nContent-Length: {}\r\nContent-Encoding: gzip\r\n\r\n",
        packed.len()
    )
    .into_bytes();
    want.extend_from_slice(&packed);
    assert_eq!(stream.take_written(), want);
    respond(&mut stream, &headers(&[("Accept-Encoding", "br")]), make()).unwrap();
    let mut want =
        b"HTTP/1.1 200 OK\r\nContent-Type: text/plain;\r\nContent-Length: 54\r\n\r\n".to_vec();
    want.extend_from_slice(&body);
    assert_eq!(stream.take_written(), want);
    let bad = ServerResponse::new(200).unwrap().set_body(Body::from_bytes(&body)).set_compression_level(12);
    let e = respond(&mut stream, &headers(&[("Accept-Encoding", "gzip")]), bad).unwrap_err();
    assert_eq!(io_kind(&e), Some(IoKind::Other));
    assert_eq!(stream.take_written(), Vec::<u8>::new());
    let unused = ServerResponse::new(200).unwrap().set_compression_level(12);
    respond(&mut stream, &headers(&[("Accept-Encoding", "gzip")]), unused).unwrap();
    assert_eq!(stream.take_written(), b"HTTP/1.1 200 OK\r\n\r\n".to_vec());
}

#[test]
fn the_body_of_a_request_is_read_as_its_headers_say() {
    let info = |pairs: &[(&str, &str)]| GeneralInfo {
        status: StatusInfo::Request("POST".to_string(), "/".to_string()),
        headers: headers(pairs),
    };
    let mut stream = Stream::new(b"hello world".to_vec(), false);
    let req = ServerRequest::new(&mut stream, info(&[("Content-Length", "5")])).unwrap();
    assert_eq!(req.body, Body::Bytes(b"hello".to_vec()));
    assert_eq!(stream.peek(), b" world");
    let req = ServerRequest::new(&mut stream, info(&[])).unwrap();
    assert_eq!(req.body, Body::Bytes(Vec::new()));
    assert_eq!(stream.peek(), b" world");
    let mut stream = Stream::new(b"3\r\nabc\r\n0\r\n\r\nnext".to_vec(), false);
    let req = ServerRequest::new(&mut stream, info(&[("Transfer-Encoding", "chunked")])).unwrap();
    assert_eq!(req.body, Body::Bytes(b"abc".to_vec()));
    assert_eq!(stream.peek(), b"next");
    let mut stream = Stream::new(b"abc".to_vec(), false);
    let e = ServerRequest::new(&mut stream, info(&[("Content-Length", "5")])).unwrap_err();
    assert_eq!(io_kind(&e), Some(IoKind::WouldBlock));
    let packed = slimweb::codec::compress(b"plain text", 6).unwrap();
    let mut stream = Stream::new(packed.clone(), false);
    let length = packed.len().to_string();
    let req = ServerRequest::new(
        &mut stream,
        info(&[("Content-Length", length.as_str()), ("Content-Encoding", "gzip")]),
    )
    .unwrap();
    assert_eq!(req.body, Body::Bytes(b"plain text".to_vec()));
}

#[test]
fn a_form_body_is_read_and_written_again_part_by_part() {
    let raw = b"--XX\r\nContent-Disposition: form-data; name=a\r\n\r\n1\r\n2\r\n--XX\r\nignored\r\n";
    let info = GeneralInfo {
        status: StatusInfo::Request("POST".to_string(), "/".to_string()),
        headers: headers(&[
            ("Content-Type", "multipart/form-data;XX;charset=x"),
            ("Content-Length", "200"),
        ]),
    };
    let mut stream = Stream::new(raw.to_vec(), true);
    let req = ServerRequest::new(&mut stream, info).unwrap();
    assert_eq!(
        req.body,
        Body::Bytes(b"--XX\r\nContent-Disposition: form-data; name=a\r\n\r\n12\r\n--XX--".to_vec())
    );
    let info = GeneralInfo {
        status: StatusInfo::Request("POST".to_string(), "/".to_string()),
        headers: headers(&[("Content-Type", "multipart/form-data"), ("Content-Length", "200")]),
    };
    let mut stream = Stream::new(raw.to_vec(), true);
    let req = ServerRequest::new(&mut stream, info).unwrap();
    assert_eq!(req.body, Body::Bytes(raw.to_vec()));
}

#[test]
fn a_handler_answers_the_request_under_its_method_and_resource() {
    let server = echo_server();
    let mut stream = Stream::new(
        b"POST /echo HTTP/1.1\r\nHost: h\r\nContent-Length: 4\r\n\r\nping".to_vec(),
        false,
    );
    assert!(exchange(&server, &mut stream).unwrap());
    assert_eq!(
        stream.take_written(),
        b"HTTP/1.1 200 OK\r\nContent-Type: text/plain;\r\nContent-Length: 4\r\n\r\nping".to_vec()
    );
    assert_eq!(stream.peek(), b"");
}

#[test]
fn a_request_without_handler_gets_no_response() {
    let server = echo_server();
    for wire in [
        &b"GET /missing HTTP/1.1\r\nHost: h\r\n\r\n"[..],
        b"POST / HTTP/1.1\r\nContent-Length: 2\r\n\r\nab",
        b"get / HTTP/1.1\r\n\r\n",
        b"HTTP/1.1 200 OK\r\n\r\n",
    ] {
        let mut stream = Stream::new(wire.to_vec(), false);
        assert!(exchange(&server, &mut stream).unwrap());
        assert_eq!(stream.take_written(), Vec::<u8>::new());
        assert_eq!(stream.peek(), b"");
    }
}

#[test]
fn a_later_handler_replaces_an_earlier_one_under_the_same_route() {
    let server = Server::<Handler, Check>::new()
        .add_handler("GET", "/", Box::new(|_| ServerResponse::new(200)))
        .add_handler("GET", "/other", Box::new(|_| ServerResponse::new(201)))
        .add_handler("GET", "/", Box::new(|_| ServerResponse::new(202)));
    assert_eq!(server.handlers.len(), 2);
    let mut stream = Stream::new(b"GET / HTTP/1.1\r\n\r\n".to_vec(), false);
    exchange(&server, &mut stream).unwrap();
    assert_eq!(stream.take_written(), b"HTTP/1.1 202 Accepted\r\n\r\n".to_vec());
    let mut stream = Stream::new(b"GET /other HTTP/1.1\r\n\r\n".to_vec(), false);
    exchange(&server, &mut stream).unwrap();
    assert_eq!(stream.take_written(), b"HTTP/1.1 201 Created\r\n\r\n".to_vec());
}

#[test]
fn the_error_of_a_handler_ends_the_exchange_without_response() {
    let server =
        Server::<Handler, Check>::new().add_handler("GET", "/", Box::new(|_| ServerResponse::new(999)));
    let mut stream = Stream::new(b"GET / HTTP/1.1\r\n\r\n".to_vec(), false);
    let e = exchange(&server, &mut stream).unwrap_err();
    assert!(matches!(e, Error::HTTPStatusCodeNotRecognized));
    assert_eq!(stream.take_written(), Vec::<u8>::new());
}

#[test]
fn a_check_that_lets_pass_has_the_body_read_and_the_handler_called() {
    let server = echo_server().add_expect_handler(Box::new(|_| Ok((100, None))));
    let mut stream = Stream::new(
        b"POST /echo HTTP/1.1\r\nExpect: 100-continue\r\nContent-Length: 4\r\n\r\n".to_vec(),
        false,
    );
    let info = server.accept(&mut stream).unwrap().unwrap();
    assert_eq!(stream.take_written(), b"HTTP/1.1 100 Continue\r\n\r\n".to_vec());
    assert_eq!(info.headers.get("Expect"), Some(&"100-continue".to_string()));
    stream.feed(b"body");
    server.process_request(&mut stream, info).unwrap();
    assert_eq!(
        stream.take_written(),
        b"HTTP/1.1 200 OK\r\nContent-Type: text/plain;\r\nContent-Length: 4\r\n\r\nbody".to_vec()
    );
    assert_eq!(stream.peek(), b"");
}

#[test]
fn a_check_that_refuses_is_answered_and_the_body_is_never_read() {
    let server = echo_server().add_expect_handler(Box::new(|_| Ok((417, Some("nope".to_string())))));
    let mut stream = Stream::new(
        b"POST /echo HTTP/1.1\r\nExpect: 100-continue\r\nContent-Length: 4\r\n\r\nbody".to_vec(),
        false,
    );
    assert_eq!(server.accept(&mut stream).unwrap(), None);
    assert_eq!(
        stream.take_written(),
        b"HTTP/1.1 417 Expectation Failed\r\nContent-Type: text/plain;\r\n\r\nnope".to_vec()
    );
    assert_eq!(stream.peek(), b"body");
    let mut stream = Stream::new(
        b"POST /echo HTTP/1.1\r\nExpect: 100-continue\r\nContent-Length: 4\r\n\r\nbody".to_vec(),
        false,
    );
    assert!(!exchange(&server, &mut stream).unwrap());
    assert_eq!(stream.peek(), b"body");
}

#[test]
fn checks_run_in_order_up_to_the_first_that_refuses() {
    let seen = Rc::new(RefCell::new(Vec::new()));
    let mut checks: Vec<Check> = Vec::new();
    for (name, code) in [("first", 100), ("second", 100), ("third", 403), ("fourth", 500)] {
        let seen = seen.clone();
        checks.push(Box::new(move |_| {
            seen.borrow_mut().push(name);
            Ok((code, Some(name.to_string())))
        }));
    }
    let info = GeneralInfo {
        status: StatusInfo::Request("PUT".to_string(), "/".to_string()),
        headers: headers(&[("Expect", "100-continue")]),
    };
    assert_eq!(consult(&checks, &info).unwrap(), (403, Some("third".to_string())));
    assert_eq!(*seen.borrow(), vec!["first", "second", "third"]);
    checks.truncate(2);
    assert_eq!(consult(&checks, &info).unwrap(), (100, None));
    checks.clear();
    assert_eq!(consult(&checks, &info).unwrap(), (100, None));
    checks.push(Box::new(|_| Err(Error::ChunkError)));
    checks.push(Box::new(|_| panic!("not to be run")));
    assert!(matches!(consult(&checks, &info), Err(Error::ChunkError)));
}

#[test]
fn without_expect_or_without_checks_nothing_is_consulted() {
    let server = echo_server().add_expect_handler(Box::new(|_| Ok((417, None))));
    let mut stream = Stream::new(b"GET / HTTP/1.1\r\nHost: h\r\n\r\n".to_vec(), false);
    assert!(server.accept(&mut stream).unwrap().is_some());
    assert_eq!(stream.take_written(), Vec::<u8>::new());
    let mut stream = Stream::new(b"GET / HTTP/1.1\r\nExpect: anything\r\n\r\n".to_vec(), false);
    assert!(server.accept(&mut stream).unwrap().is_none());
    assert_eq!(stream.take_written(), b"HTTP/1.1 417 Expectation Failed\r\n\r\n".to_vec());
    let plain = echo_server();
    let mut stream = Stream::new(b"GET / HTTP/1.1\r\nExpect: 100-continue\r\n\r\n".to_vec(), false);
    assert!(plain.accept(&mut stream).unwrap().is_some());
    assert_eq!(stream.take_written(), Vec::<u8>::new());
}

#[test]
fn the_verdict_is_answered_with_its_code() {
    let mut stream = Stream::new(b"untouched".to_vec(), false);
    assert_eq!(answer_expectation(&mut stream, 100, None).unwrap(), true);
    assert_eq!(stream.take_written(), b"HTTP/1.1 100 Continue\r\n\r\n".to_vec());
    assert_eq!(answer_expectation(&mut stream, 100, Some("ignored".to_string())).unwrap(), true);
    assert_eq!(stream.take_written(), b"HTTP/1.1 100 Continue\r\n\r\n".to_vec());
    assert_eq!(answer_expectation(&mut stream, 413, None).unwrap(), false);
    assert_eq!(stream.take_written(), b"HTTP/1.1 413 Payload Too Large\r\n\r\n".to_vec());
    assert_eq!(answer_expectation(&mut stream, 200, Some("fine".to_string())).unwrap(), false);
    assert_eq!(
        stream.take_written(),
        b"HTTP/1.1 200 OK\r\nContent-Type: text/plain;\r\n\r\nfine".to_vec()
    );
    let e = answer_expectation(&mut stream, 99, Some("x".to_string())).unwrap_err();
    assert!(matches!(e, Error::HTTPStatusCodeNotRecognized));
    assert_eq!(stream.take_written(), Vec::<u8>::new());
    assert_eq!(stream.peek(), b"untouched");
}

#[test]
fn a_check_with_an_unknown_code_fails_the_exchange() {
    let server = echo_server().add_expect_handler(Box::new(|_| Ok((299, None))));
    let mut stream = Stream::new(b"GET / HTTP/1.1\r\nExpect: x\r\n\r\n".to_vec(), false);
    assert!(matches!(server.accept(&mut stream), Err(Error::HTTPStatusCodeNotRecognized)));
    assert_eq!(stream.take_written(), Vec::<u8>::new());
    let server = echo_server().add_expect_handler(Box::new(|_| Err(Error::TLSNotEnabled)));
    let mut stream = Stream::new(b"GET / HTTP/1.1\r\nExpect: x\r\n\r\n".to_vec(), false);
    assert!(matches!(server.accept(&mut stream), Err(Error::TLSNotEnabled)));
}

#[test]
fn a_head_that_is_not_complete_is_not_accepted_yet() {
    let server = echo_server();
    let mut stream = Stream::new(b"GET / HTTP/1.1\r\nHost".to_vec(), false);
    let e = server.accept(&mut stream).unwrap_err();
    assert_eq!(io_kind(&e), Some(IoKind::WouldBlock));
    assert_eq!(stream.peek(), b"GET / HTTP/1.1\r\nHost");
    stream.feed(b": h\r\n\r\n");
    assert!(server.accept(&mut stream).unwrap().is_some());
    let timed = echo_server().set_deadline(2, 10);
    assert_eq!(timed.deadline.unwrap().expiry, 2010);
    assert_eq!(timed.handlers.len(), 2);
}
