use slimweb::framer::{
    check_accept, check_encodings, header_lists, next_word, parse_header, parse_status_line,
    process_lines, push_text, write_header, write_headers,
};
use slimweb::stream::Stream;
use slimweb::{Error, GeneralInfo, Headers, IoKind, StatusInfo};

fn io_kind(e: &Error) -> Option<IoKind> {
    match e {
        Error::Io(io) => Some(io.kind),
        _ => None,
    }
}

fn headers_from(lines: &[&str]) -> Headers {
    let mut wire = b"GET / HTTP/1.1\r\n".to_vec();
    for line in lines {
        wire.extend_from_slice(line.as_bytes());
        wire.extend_from_slice(b"\r\n");
    }
    wire.extend_from_slice(b"\r\n");
    let mut stream = Stream::new(wire, false);
    process_lines(&mut stream).unwrap().headers
}

fn pairs(headers: &Headers) -> Vec<(String, String)> {
    let mut out = Vec::new();
    for i in 0..headers.len() {
        let (k, v) = headers.entry(i);
        out.push((k.clone(), v.clone()));
    }
    out
}

fn sorted(headers: &Headers) -> Vec<(String, String)> {
    let mut out = pairs(headers);
    out.sort();
    out
}

#[test]
fn a_status_line_parses_to_a_response() {
    assert_eq!(
        parse_status_line(b"HTTP/1.1 200 OK").unwrap(),
        StatusInfo::Response(200, "OK".to_string())
    );
}

#[test]
fn a_request_line_parses_to_a_request() {
    assert_eq!(
        parse_status_line(b"GET /foo HTTP/1.1").unwrap(),
        StatusInfo::Request("GET".to_string(), "/foo".to_string())
    );
}

#[test]
fn the_reason_is_what_stands_behind_the_code() {
    assert_eq!(
        parse_status_line(b"HTTP/1.1 404 Not Found").unwrap(),
        StatusInfo::Response(404, "Not Found".to_string())
    );
    assert_eq!(
        parse_status_line(b"  HTTP/1.1   500  Internal   Server  Error  ").unwrap(),
        StatusInfo::Response(500, "Internal Server Error".to_string())
    );
    assert_eq!(
        parse_status_line(b"HTTP/1.1 -7 odd").unwrap(),
        StatusInfo::Response(-7, "odd".to_string())
    );
    assert_eq!(
        parse_status_line(b"HTTP/1.1 +200 OK").unwrap(),
        StatusInfo::Response(200, "OK".to_string())
    );
}

#[test]
fn a_line_that_is_no_start_line_is_refused() {
    for line in [&b""[..], b"   ", b"GET", b"HTTP/1.1 200", b"HTTP/1.1 200   ", b"GET \xff HTTP/1.1",
        b"\xff /foo HTTP/1.1", b"HTTP/1.1 200 \xff"]
    {
        let e = parse_status_line(line).unwrap_err();
        assert!(matches!(e, Error::NoStatusLineInResponse), "{:?}", line);
    }
    assert_eq!(
        parse_status_line(b"GET /foo").unwrap(),
        StatusInfo::Request("GET".to_string(), "/foo".to_string())
    );
    assert_eq!(
        parse_status_line(b"HTTP/1.1 99999999999 OK").unwrap(),
        StatusInfo::Request("HTTP/1.1".to_string(), "99999999999".to_string())
    );
}

#[test]
fn words_stand_between_spaces() {
    assert_eq!(next_word(b"  ab  cd ", 0), Some((2, 4)));
    assert_eq!(next_word(b"  ab  cd ", 4), Some((6, 8)));
    assert_eq!(next_word(b"  ab  cd ", 8), None);
    assert_eq!(next_word(b"", 0), None);
    assert_eq!(next_word(b"a\tb", 0), Some((0, 3)));
}

#[test]
fn a_header_line_is_key_and_value() {
    assert_eq!(
        parse_header(b"Content-Type: text/html"),
        Some(("Content-Type".to_string(), "text/html".to_string()))
    );
    assert_eq!(parse_header(b"Key:value"), Some(("Key".to_string(), "value".to_string())));
    assert_eq!(parse_header(b"Key: value \t "), Some(("Key".to_string(), "value".to_string())));
    assert_eq!(parse_header(b"Key:  value"), Some(("Key".to_string(), " value".to_string())));
    assert_eq!(parse_header(b"Key:"), Some(("Key".to_string(), "".to_string())));
    assert_eq!(parse_header(b"Key: "), Some(("Key".to_string(), "".to_string())));
    assert_eq!(parse_header(b":v"), Some(("".to_string(), "v".to_string())));
    assert_eq!(
        parse_header(b"Host: example.org:8080"),
        Some(("Host".to_string(), "example.org:8080".to_string()))
    );
    assert_eq!(
        parse_header("K\u{e4}: v\u{e4}\u{a0}".as_bytes()),
        Some(("K\u{e4}".to_string(), "v\u{e4}".to_string()))
    );
}

#[test]
fn a_line_without_colon_or_with_bad_text_says_nothing() {
    assert_eq!(parse_header(b"no colon here"), None);
    assert_eq!(parse_header(b""), None);
    assert_eq!(parse_header(b"Key: \xff"), None);
    assert_eq!(parse_header(b"K\xffy: value"), None);
    assert_eq!(parse_header(b"Key: \xc3"), None);
}

#[test]
fn a_head_is_start_line_and_headers_up_to_the_empty_line() {
    let wire = b"HTTP/1.1 200 OK\r\nContent-Length: 5\r\nX-A: 1\r\n\r\nhello".to_vec();
    let mut stream = Stream::new(wire, false);
    let info = process_lines(&mut stream).unwrap();
    assert_eq!(info.status, StatusInfo::Response(200, "OK".to_string()));
    assert_eq!(info.headers.len(), 2);
    assert_eq!(info.headers.get("Content-Length"), Some(&"5".to_string()));
    assert_eq!(info.headers.get("X-A"), Some(&"1".to_string()));
    assert_eq!(info.headers.get("x-a"), None);
    assert_eq!(stream.peek(), b"hello");
}

#[test]
fn bare_line_feeds_end_lines_too() {
    let mut stream = Stream::new(b"GET / HTTP/1.1\nHost: a\n\nbody".to_vec(), false);
    let info = process_lines(&mut stream).unwrap();
    assert_eq!(info.status, StatusInfo::Request("GET".to_string(), "/".to_string()));
    assert_eq!(info.headers.get("Host"), Some(&"a".to_string()));
    assert_eq!(stream.peek(), b"body");
}

#[test]
fn the_last_of_two_lines_with_one_key_wins() {
    let headers = headers_from(&["A: 1", "B: 2", "A: 3"]);
    assert_eq!(headers.len(), 2);
    assert_eq!(headers.get("A"), Some(&"3".to_string()));
    assert_eq!(headers.get("B"), Some(&"2".to_string()));
    assert_eq!(
        pairs(&headers),
        vec![("A".to_string(), "3".to_string()), ("B".to_string(), "2".to_string())]
    );
    let other = headers_from(&["A: 3", "B: 2", "A: 1"]);
    assert_eq!(other.get("A"), Some(&"1".to_string()));
}

#[test]
fn the_order_of_the_lines_does_not_change_the_mapping() {
    let lines = ["Host: a", "Accept: */*", "X-Trace: 7", "garbage", "Content-Length: 0"];
    let base = sorted(&headers_from(&lines));
    assert_eq!(base.len(), 4);
    let orders: [[usize; 5]; 5] =
        [[4, 3, 2, 1, 0], [1, 0, 3, 2, 4], [2, 4, 0, 1, 3], [3, 0, 1, 2, 4], [0, 2, 4, 1, 3]];
    for order in orders {
        let shuffled: Vec<&str> = order.iter().map(|&i| lines[i]).collect();
        assert_eq!(sorted(&headers_from(&shuffled)), base);
    }
}

#[test]
fn lines_that_say_nothing_are_skipped() {
    let headers = headers_from(&["garbage", "A: 1", "Bad: \u{0}"]);
    assert_eq!(headers.get("A"), Some(&"1".to_string()));
    assert_eq!(headers.len(), 2);
    let mut wire = b"HTTP/1.1 200 OK\r\nA: 1\r\nB: \xff\r\nnothing\r\n\r\n".to_vec();
    wire.extend_from_slice(b"rest");
    let mut stream = Stream::new(wire, false);
    let info = process_lines(&mut stream).unwrap();
    assert_eq!(info.headers.len(), 1);
    assert_eq!(stream.peek(), b"rest");
}

#[test]
fn a_head_that_is_not_complete_consumes_nothing() {
    for wire in [&b""[..], b"HTTP/1.1 200 OK", b"HTTP/1.1 200 OK\r\n", b"HTTP/1.1 200 OK\r\nA: 1\r\n",
        b"HTTP/1.1 200 OK\r\nA: 1\r\n\r"]
    {
        let mut stream = Stream::new(wire.to_vec(), false);
        let e = process_lines(&mut stream).unwrap_err();
        assert_eq!(io_kind(&e), Some(IoKind::WouldBlock), "{:?}", wire);
        assert_eq!(stream.peek(), wire);
        stream.close();
        let e = process_lines(&mut stream).unwrap_err();
        assert_eq!(io_kind(&e), Some(IoKind::UnexpectedEof), "{:?}", wire);
    }
    let mut stream = Stream::new(b"nonsense\r\nA: 1\r\n\r\n".to_vec(), false);
    let e = process_lines(&mut stream).unwrap_err();
    assert!(matches!(e, Error::NoStatusLineInResponse));
    assert_eq!(stream.peek().len(), 18);
}

#[test]
fn a_line_of_the_head_may_take_up_eight_kilobytes() {
    let mut wire = b"GET / HTTP/1.1\r\nA: ".to_vec();
    wire.extend_from_slice(&vec![b'x'; 8192 - 5]);
    wire.extend_from_slice(b"\r\n\r\n");
    let mut stream = Stream::new(wire, false);
    let info = process_lines(&mut stream).unwrap();
    assert_eq!(info.headers.get("A").unwrap().len(), 8192 - 5);
    let mut wire = b"GET / HTTP/1.1\r\nA: ".to_vec();
    wire.extend_from_slice(&vec![b'x'; 8192 - 4]);
    wire.extend_from_slice(b"\r\n\r\n");
    let mut stream = Stream::new(wire, false);
    let e = process_lines(&mut stream).unwrap_err();
    assert_eq!(io_kind(&e), Some(IoKind::UnexpectedEof));
    let mut wire = vec![b'G'; 9000];
    wire.extend_from_slice(b" / HTTP/1.1\r\n\r\n");
    let mut stream = Stream::new(wire, false);
    let e = process_lines(&mut stream).unwrap_err();
    assert_eq!(io_kind(&e), Some(IoKind::UnexpectedEof));
}

#[test]
fn a_status_line_goes_on_the_wire_with_code_and_reason() {
    assert_eq!(
        StatusInfo::Response(200, "OK".to_string()).to_bytes(),
        b"HTTP/1.1 200 OK\r\n".to_vec()
    );
    assert_eq!(
        StatusInfo::Response(-1, "".to_string()).to_bytes(),
        b"HTTP/1.1 -1 \r\n".to_vec()
    );
    assert_eq!(
        StatusInfo::Request("GET".to_string(), "/".to_string()).to_bytes(),
        Vec::<u8>::new()
    );
}

#[test]
fn headers_go_on_the_wire_one_line_each_in_their_order() {
    let mut headers = Headers::new();
    headers.insert("B".to_string(), "2".to_string());
    headers.insert("A".to_string(), "1".to_string());
    headers.insert("B".to_string(), "3".to_string());
    let mut out = b">".to_vec();
    write_headers(&mut out, &headers);
    assert_eq!(out, b">B: 3\r\nA: 1\r\n".to_vec());
    let info = GeneralInfo { status: StatusInfo::Response(404, "Not Found".to_string()), headers };
    assert_eq!(info.to_bytes(), b"HTTP/1.1 404 Not Found\r\nB: 3\r\nA: 1\r\n".to_vec());
    let mut line = Vec::new();
    write_header(&mut line, "K\u{e4}", "v");
    assert_eq!(line, "K\u{e4}: v\r\n".as_bytes().to_vec());
    push_text(&mut line, "\u{20ac}");
    assert_eq!(line, "K\u{e4}: v\r\n\u{20ac}".as_bytes().to_vec());
}

#[test]
fn what_was_written_is_read_back() {
    let mut headers = Headers::new();
    headers.insert("Content-Type".to_string(), "text/plain;".to_string());
    headers.insert("X-Key".to_string(), "some value".to_string());
    let info = GeneralInfo { status: StatusInfo::Response(417, "Expectation Failed".to_string()), headers };
    let mut wire = info.to_bytes();
    wire.extend_from_slice(b"\r\n");
    let mut stream = Stream::new(wire, false);
    assert_eq!(process_lines(&mut stream).unwrap(), info);
}

#[test]
fn headers_keep_one_value_for_each_key() {
    let mut headers = Headers::new();
    assert_eq!(headers.len(), 0);
    assert_eq!(headers.get("A"), None);
    headers.insert("A".to_string(), "1".to_string());
    headers.insert("a".to_string(), "2".to_string());
    headers.insert("A".to_string(), "3".to_string());
    assert_eq!(headers.len(), 2);
    assert_eq!(headers.get("A"), Some(&"3".to_string()));
    assert_eq!(headers.get("a"), Some(&"2".to_string()));
    headers.remove("A");
    assert_eq!(headers.len(), 1);
    assert_eq!(headers.get("A"), None);
    assert_eq!(headers.entry(0), (&"a".to_string(), &"2".to_string()));
    headers.remove("missing");
    assert_eq!(headers.len(), 1);
}

#[test]
fn encodings_are_named_by_tokens_without_regard_to_case() {
    let headers = headers_from(&["Content-Encoding: deflate, GZip", "Transfer-Encoding: Chunked"]);
    assert_eq!(check_encodings(&headers), (true, true));
    let headers = headers_from(&["Content-Encoding: deflate", "Transfer-Encoding: identity"]);
    assert_eq!(check_encodings(&headers), (false, false));
    let headers = headers_from(&["content-encoding: gzip"]);
    assert_eq!(check_encodings(&headers), (false, false));
    let headers = headers_from(&[]);
    assert_eq!(check_encodings(&headers), (false, false));
    assert!(!check_accept(&headers));
    let headers = headers_from(&["Accept-Encoding: br;q=1.0, gzip"]);
    assert!(check_accept(&headers));
    let headers = headers_from(&["Accept-Encoding: gzip;q=0.5"]);
    assert!(!check_accept(&headers));
    assert!(header_lists(&headers_from(&["Connection: keep-alive, Upgrade"]), "Connection", "upgrade"));
}
