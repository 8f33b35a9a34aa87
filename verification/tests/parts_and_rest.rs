use slimweb::deadline::{govern, is_close_notify, Deadline, Governed};
use slimweb::multipart::{from_bytes, Part};
use slimweb::transport::{choose_transport, first_address, settle_read, settle_write, Transport};
use slimweb::{Error, IoError, IoKind, Multipart};

fn part(name: &str, filename: Option<&str>, content_type: Option<&str>, data: &[u8]) -> Part {
    Part {
        name: name.to_string(),
        filename: filename.map(|s| s.to_string()),
        content_type: content_type.map(|s| s.to_string()),
        data: data.to_vec(),
    }
}

#[test]
fn a_part_goes_on_the_wire_with_its_disposition() {
    assert_eq!(
        part("field", None, None, b"value").to_bytes(),
        b"Content-Disposition: form-data; name=field\r\n\r\nvalue\r\n".to_vec()
    );
    assert_eq!(
        part("f", Some("a.txt"), Some("text/plain"), b"data").to_bytes(),
        b"Content-Disposition: form-data; name=f; filename=a.txt\r\nContent-Type: text/plain\r\n\r\ndata\r\n\r\n"
            .to_vec()
    );
    assert_eq!(
        part("", Some("x"), None, b"").to_bytes(),
        b"Content-Disposition: form-data; name=; filename=x\r\n\r\n\r\n".to_vec()
    );
}

#[test]
fn a_multipart_body_is_its_parts_behind_boundaries() {
    let form = Multipart::new("XX");
    assert_eq!(form.to_bytes(), b"--XX--".to_vec());
    let form = form.text_part("a", b"1".to_vec()).text_part("b", b"22".to_vec());
    assert_eq!(form.boundary, "XX");
    assert_eq!(form.parts, vec![part("a", None, None, b"1"), part("b", None, None, b"22")]);
    assert_eq!(
        form.to_bytes(),
        b"--XX\r\nContent-Disposition: form-data; name=a\r\n\r\n1\r\n--XX\r\nContent-Disposition: form-data; name=b\r\n\r\n22\r\n--XX--"
            .to_vec()
    );
}

#[test]
fn a_file_part_carries_the_name_and_the_guessed_type_of_the_file() {
    let form = Multipart::new("b").file_part("doc", "/tmp/dir/notes.txt", b"hello".to_vec());
    assert_eq!(form.parts, vec![part("doc", Some("notes.txt"), Some("text/plain"), b"hello")]);
    let form = Multipart::new("b").file_part("pic", "photo.PNG", Vec::new());
    assert_eq!(form.parts[0].content_type, Some("image/png".to_string()));
    assert_eq!(form.parts[0].filename, Some("photo.PNG".to_string()));
    let form = Multipart::new("b").file_part("raw", "dir/blob", vec![1]);
    assert_eq!(form.parts[0].content_type, Some("application/octet-stream".to_string()));
    assert_eq!(form.parts[0].filename, Some("blob".to_string()));
    let form = Multipart::new("b").file_part("up", "dir/..", Vec::new());
    assert_eq!(form.parts[0].filename, None);
    let form = Multipart::new("b").file_part("j", "a/b/data.json", Vec::new());
    assert_eq!(form.parts[0].content_type, Some("application/json".to_string()));
}

#[test]
fn parts_are_read_back_from_the_lines_between_boundaries() {
    let wire = b"--XX\r\nContent-Disposition: form-data; name=a; filename=f.bin\r\nContent-Type: text/plain\r\n\r\nline one\r\nline two\r\n--XX\r\nContent-Disposition: form-data;name=b\r\n\r\n\r\nx\r\n--XX--\r\n";
    let form = from_bytes("XX", wire.to_vec()).unwrap();
    assert_eq!(form.boundary, "XX");
    assert_eq!(form.parts, vec![part("a", Some("f.bin"), Some("text/plain"), b"line oneline two")]);
    let mut closed = wire.to_vec();
    closed.extend_from_slice(b"trailer XX\r\n");
    let form = from_bytes("XX", closed).unwrap();
    assert_eq!(
        form.parts,
        vec![
            part("a", Some("f.bin"), Some("text/plain"), b"line oneline two"),
            part("b", None, None, b"x--XX--"),
        ]
    );
}

#[test]
fn a_part_that_no_boundary_closes_is_left_out() {
    let form = from_bytes("XX", b"--XX\r\nContent-Disposition: form-data; name=a\r\n\r\n1\r\n".to_vec()).unwrap();
    assert_eq!(form.parts, Vec::<Part>::new());
    let form = from_bytes("XX", b"--XX\r\nContent-Disposition: form-data; name=a\r\n\r\n1\r\n--XX".to_vec()).unwrap();
    assert_eq!(form.parts, Vec::<Part>::new());
    let form = from_bytes("XX", b"--XX\nContent-Disposition: form-data; name=a\n\n1\n--XX\n".to_vec()).unwrap();
    assert_eq!(form.parts, vec![part("a", None, None, b"1")]);
    let form = from_bytes("XX", Vec::new()).unwrap();
    assert_eq!(form.parts, Vec::<Part>::new());
    let form = from_bytes("a-long-boundary", b"x\r\n\r\ny\r\n".to_vec()).unwrap();
    assert_eq!(form.parts, Vec::<Part>::new());
}

#[test]
fn header_lines_of_a_part_are_read_up_to_the_second_colon() {
    let wire = b"Content-Type:  a/b ; q : ignored\r\nContent-Disposition: form-data ; name= n ;x; filename=\r\ncontent-type: other\r\nContent-Disposition\r\nContent-Type\r\n\xff: y\r\nX\r\n\r\nd\r\n--B\r\n";
    let form = from_bytes("B", wire.to_vec()).unwrap();
    assert_eq!(form.parts, vec![part(" n", Some(""), Some("a/b ; q"), b"d")]);
    let wire = b"Content-Disposition: name=first; name=second; filename=f; form-data; filename=g\r\n\r\n--B\r\n";
    let form = from_bytes("B", wire.to_vec()).unwrap();
    assert_eq!(form.parts, vec![part("second", Some("g"), None, b"")]);
    let wire = b"Content-Disposition: name=a:b\r\n\r\n--B\r\n";
    let form = from_bytes("B", wire.to_vec()).unwrap();
    assert_eq!(form.parts, vec![part("a", None, None, b"")]);
}

#[test]
fn with_an_empty_boundary_every_line_closes_a_part() {
    let form = from_bytes("", b"a\r\nb\r\nc\r\n".to_vec()).unwrap();
    assert_eq!(form.parts, vec![part("", None, None, b"")]);
    let form = from_bytes("", b"a\r\nb\r\nc\r\nd\r\n".to_vec()).unwrap();
    assert_eq!(form.parts.len(), 2);
}

#[test]
fn what_was_written_part_by_part_is_read_back() {
    let form = Multipart::new("----b0undary")
        .text_part("alpha", b"one".to_vec())
        .text_part("beta", "zw\u{f6}lf".as_bytes().to_vec())
        .file_part("gamma", "x/y/z.html", b"<p>".to_vec());
    let mut wire = form.to_bytes();
    wire.extend_from_slice(b"\r\n");
    let back = from_bytes("----b0undary", wire).unwrap();
    assert_eq!(back.boundary, form.boundary);
    assert_eq!(back.parts, form.parts[..2].to_vec());
    let closing = from_bytes("----b0undary--", form.to_bytes().iter().copied().chain(*b"\r\n").collect())
        .unwrap();
    assert_eq!(closing.parts.len(), 1);
    assert_eq!(closing.parts[0].name, "alpha");
    assert!(closing.parts[0].data.ends_with(b"<p>"));
}

#[test]
fn the_governor_leaves_a_fresh_timeout_alone() {
    let mut deadline = Deadline::with_deadline(2, 1000);
    assert_eq!((deadline.expiry, deadline.last_refresh), (3000, 1000));
    assert_eq!(deadline.check(1000).unwrap(), Governed::Proceed);
    assert_eq!(deadline.check(1249).unwrap(), Governed::Proceed);
    assert_eq!(deadline.last_refresh, 1000);
    assert_eq!(deadline.check(999).unwrap(), Governed::Proceed);
    assert_eq!(deadline.check(5000 - 4001).unwrap(), Governed::Proceed);
}

#[test]
fn the_governor_refreshes_the_timeout_with_the_time_that_is_left() {
    let mut deadline = Deadline::with_deadline(2, 1000);
    assert_eq!(deadline.check(1250).unwrap(), Governed::Refresh(1750));
    assert_eq!(deadline.last_refresh, 1250);
    assert_eq!(deadline.check(1499).unwrap(), Governed::Proceed);
    assert_eq!(deadline.check(1500).unwrap(), Governed::Refresh(1500));
    assert_eq!(deadline.check(2999).unwrap(), Governed::Refresh(1));
    assert_eq!(deadline.expiry, 3000);
}

#[test]
fn a_deadline_that_has_passed_fails_the_call_as_timed_out() {
    let mut deadline = Deadline::with_deadline(1, 0);
    for now in [1000u64, 1001, 5000, u64::MAX] {
        match deadline.check(now) {
            Err(Error::Io(io)) => {
                assert_eq!(io.kind, IoKind::TimedOut);
                assert_eq!(io.message, "Connection timed out");
            },
            other => panic!("{:?}", other),
        }
        assert_eq!((deadline.expiry, deadline.last_refresh), (1000, 0));
    }
    let mut late = Deadline { expiry: 1000, last_refresh: 900 };
    assert_eq!(late.check(1100).unwrap(), Governed::Proceed);
    assert!(late.check(1150).is_err());
    let mut zero = Deadline::with_deadline(0, 50);
    assert_eq!(zero.check(100).unwrap(), Governed::Proceed);
    assert!(zero.check(300).is_err());
}

#[test]
fn without_a_deadline_every_call_goes_ahead() {
    let mut none: Option<Deadline> = None;
    assert_eq!(govern(&mut none, 0).unwrap(), Governed::Proceed);
    assert_eq!(govern(&mut none, u64::MAX).unwrap(), Governed::Proceed);
    assert_eq!(none, None);
    let mut some = Some(Deadline::with_deadline(10, 0));
    assert_eq!(govern(&mut some, 300).unwrap(), Governed::Refresh(9700));
    assert_eq!(some, Some(Deadline { expiry: 10000, last_refresh: 300 }));
    assert!(govern(&mut some, 10000).is_err());
    assert_eq!(some, Some(Deadline { expiry: 10000, last_refresh: 300 }));
}

#[test]
fn the_close_of_a_secured_channel_is_told_from_other_failures() {
    assert!(is_close_notify(&IoError::new(IoKind::ConnectionAborted, "CloseNotify alert received")));
    assert!(is_close_notify(&IoError::new(IoKind::ConnectionAborted, "peer sent CloseNotify")));
    assert!(is_close_notify(&IoError::new(IoKind::ConnectionAborted, "CloseNotify")));
    assert!(!is_close_notify(&IoError::new(IoKind::ConnectionAborted, "closenotify")));
    assert!(!is_close_notify(&IoError::new(IoKind::ConnectionAborted, "CloseNotif")));
    assert!(!is_close_notify(&IoError::new(IoKind::ConnectionAborted, "")));
    assert!(!is_close_notify(&IoError::new(IoKind::Other, "CloseNotify")));
    assert!(!is_close_notify(&IoError::new(IoKind::UnexpectedEof, "CloseNotify")));
    assert!(is_close_notify(&IoError::new(IoKind::ConnectionAborted, "\u{e4}\u{f6}CloseNotify\u{fc}")));
}

#[test]
fn every_error_describes_itself() {
    assert_eq!(
        Error::InvalidCredentialsInURL.message(),
        "URL contains invalid credentials format. Should look like: '[?]USERNAME:PASSWORD@HOST[?]'"
    );
    assert_eq!(
        Error::DNSOverflow.message(),
        "Requested host could not be converted to ASCII, too many bytes"
    );
    assert_eq!(
        Error::TLSNotEnabled.message(),
        "Attempting to connect to secure URL without tls feature enabled"
    );
    assert_eq!(Error::NoStatusLineInResponse.message(), "Response does not contain a status line");
    assert_eq!(Error::ChunkError.message(), "Problem decoding chunk of response");
    assert_eq!(
        Error::MaxRedirectsHit.message(),
        "Your request hit maximum number of redirects. You can increase this limit by using .set_max_redirects(usize)"
    );
    assert_eq!(Error::NoLocationHeader.message(), "Redirect location header missing");
    assert_eq!(Error::ConnectionFailed("No ip address for h".to_string()).message(), "No ip address for h");
    assert_eq!(
        Error::HTTPStatusCodeNotRecognized.message(),
        "HTTP status code supplied is not supported or does not exist."
    );
    assert_eq!(Error::io(IoKind::TimedOut, "Connection timed out").message(), "Network error: Connection timed out");
}

#[test]
fn only_a_transport_failure_has_a_source() {
    let io = IoError::new(IoKind::UnexpectedEof, "eof");
    let e = Error::from(io.clone());
    assert!(matches!(&e, Error::Io(inner) if inner.kind == IoKind::UnexpectedEof && inner.message == "eof"));
    assert_eq!(e.source().map(|s| s.kind), Some(IoKind::UnexpectedEof));
    assert!(Error::ChunkError.source().is_none());
    assert!(Error::ConnectionFailed("x".to_string()).source().is_none());
    let back = IoError::from_error(&Error::ChunkError);
    assert_eq!(back.kind, IoKind::Other);
    assert_eq!(back.message, "Problem decoding chunk of response");
    let nested = IoError::from_error(&e);
    assert_eq!(nested.message, "Network error: eof");
}

#[test]
fn a_secured_target_needs_a_secured_transport() {
    assert_eq!(choose_transport(false, false).unwrap(), Transport::Plain);
    assert_eq!(choose_transport(false, true).unwrap(), Transport::Plain);
    assert_eq!(choose_transport(true, true).unwrap(), Transport::Secured);
    assert!(matches!(choose_transport(true, false), Err(Error::TLSNotEnabled)));
}

#[test]
fn the_first_address_is_taken() {
    assert_eq!(first_address(vec![7, 8, 9], "h").unwrap(), 7);
    assert_eq!(first_address(vec!["only"], "h").unwrap(), "only");
    match first_address(Vec::<u8>::new(), "example.org:80") {
        Err(Error::ConnectionFailed(message)) => {
            assert_eq!(message, "No ip address for example.org:80")
        },
        other => panic!("{:?}", other),
    }
}

#[test]
fn the_time_that_is_left_ends_with_the_deadline() {
    let deadline = Deadline { expiry: 1000, last_refresh: 0 };
    assert_eq!(deadline.remaining(0), Some(1000));
    assert_eq!(deadline.remaining(999), Some(1));
    assert_eq!(deadline.remaining(1000), None);
    assert_eq!(deadline.remaining(u64::MAX), None);
}

#[test]
fn the_close_of_a_secured_channel_reads_as_the_end_of_the_input() {
    assert_eq!(settle_read(Ok(12)).unwrap(), 12);
    assert_eq!(settle_read(Ok(0)).unwrap(), 0);
    let closed = IoError::new(IoKind::ConnectionAborted, "received CloseNotify");
    assert_eq!(settle_read(Err(closed)).unwrap(), 0);
    let reset = IoError::new(IoKind::ConnectionAborted, "reset by peer");
    match settle_read(Err(reset)) {
        Err(Error::Io(io)) => {
            assert_eq!(io.kind, IoKind::ConnectionAborted);
            assert_eq!(io.message, "reset by peer");
        },
        other => panic!("{:?}", other),
    }
    let late = IoError::new(IoKind::TimedOut, "CloseNotify");
    assert!(matches!(settle_read(Err(late)), Err(Error::Io(io)) if io.kind == IoKind::TimedOut));
}

#[test]
fn a_write_that_takes_nothing_has_hit_the_end() {
    assert_eq!(settle_write(Ok(3)).unwrap(), 3);
    assert!(matches!(settle_write(Ok(0)), Err(Error::Io(io)) if io.kind == IoKind::UnexpectedEof));
    let broken = IoError::new(IoKind::Other, "broken pipe");
    assert!(matches!(settle_write(Err(broken)), Err(Error::Io(io)) if io.message == "broken pipe"));
}
