//! What a server sends: a status with its reason phrase, headers, and a body.

use vstd::prelude::*;

use crate::body::Body;
use crate::error::Error;
use crate::framer::head_bytes;
use crate::headers::{put, Entry, Headers};
use crate::stream::crlf;
use crate::{GeneralInfo, Status, StatusInfo};

verus! {

/// The canonical reason phrase of a status code; `None` for a code that the
/// table does not know.
pub open spec fn reason_phrase(code: i32) -> Option<Seq<char>> {
    match code {
        100 => Some("Continue"@),
        101 => Some("Switching Protocols"@),
        103 => Some("Early Hints"@),
        200 => Some("OK"@),
        201 => Some("Created"@),
        202 => Some("Accepted"@),
        203 => Some("Non-Authoritative Information"@),
        204 => Some("No Content"@),
        205 => Some("Reset Content"@),
        206 => Some("Partial Content"@),
        300 => Some("Multiple Choices"@),
        301 => Some("Moved Permanently"@),
        302 => Some("Found"@),
        303 => Some("See Other"@),
        304 => Some("Not Modified"@),
        305 => Some("Use Proxy"@),
        306 => Some("Switch Proxy"@),
        307 => Some("Temporary Redirect"@),
        308 => Some("Permanent Redirect"@),
        400 => Some("Bad Request"@),
        401 => Some("Unauthorized"@),
        402 => Some("Payment Required"@),
        403 => Some("Forbidden"@),
        404 => Some("Not Found"@),
        405 => Some("Method Not Allowed"@),
        406 => Some("Not Acceptable"@),
        407 => Some("Proxy Authentication Required"@),
        408 => Some("Request Timeout"@),
        409 => Some("Conflict"@),
        410 => Some("Gone"@),
        411 => Some("Length Required"@),
        412 => Some("Precondition Failed"@),
        413 => Some("Payload Too Large"@),
        414 => Some("URI Too Long"@),
        415 => Some("Unsupported Media Type"@),
        416 => Some("Range Not Satisfiable"@),
        417 => Some("Expectation Failed"@),
        418 => Some("I'm a teapot"@),
        421 => Some("Misdirected Request"@),
        425 => Some("Too Early"@),
        426 => Some("Upgrade Required"@),
        428 => Some("Precondition Required"@),
        429 => Some("Too Many Requests"@),
        431 => Some("Request Header Fields Too Large"@),
        451 => Some("Unavailable For Legal Reasons"@),
        500 => Some("Internal Server Error"@),
        501 => Some("Not Implemented"@),
        502 => Some("Bad Gateway"@),
        503 => Some("Service Unavailable"@),
        504 => Some("Gateway Timeout"@),
        505 => Some("HTTP Version Not Supported"@),
        506 => Some("Variant Also Negotiates"@),
        510 => Some("Not Extended"@),
        511 => Some("Network Authentication Required"@),
        _ => None,
    }
}

/// Every code of the table lies between 100 and 511.
pub proof fn lemma_reason_range(code: i32)
    ensures
        reason_phrase(code) is Some ==> 100 <= code <= 511,
{
}

/// The canonical reason phrase of a status code.
pub fn reason(code: i32) -> (r: Option<&'static str>)
    ensures
        r is Some <==> reason_phrase(code) is Some,
        r matches Some(s) ==> reason_phrase(code) == Some(s@),
{
    match code {
        100 => Some("Continue"),
        101 => Some("Switching Protocols"),
        103 => Some("Early Hints"),
        200 => Some("OK"),
        201 => Some("Created"),
        202 => Some("Accepted"),
        203 => Some("Non-Authoritative Information"),
        204 => Some("No Content"),
        205 => Some("Reset Content"),
        206 => Some("Partial Content"),
        300 => Some("Multiple Choices"),
        301 => Some("Moved Permanently"),
        302 => Some("Found"),
        303 => Some("See Other"),
        304 => Some("Not Modified"),
        305 => Some("Use Proxy"),
        306 => Some("Switch Proxy"),
        307 => Some("Temporary Redirect"),
        308 => Some("Permanent Redirect"),
        400 => Some("Bad Request"),
        401 => Some("Unauthorized"),
        402 => Some("Payment Required"),
        403 => Some("Forbidden"),
        404 => Some("Not Found"),
        405 => Some("Method Not Allowed"),
        406 => Some("Not Acceptable"),
        407 => Some("Proxy Authentication Required"),
        408 => Some("Request Timeout"),
        409 => Some("Conflict"),
        410 => Some("Gone"),
        411 => Some("Length Required"),
        412 => Some("Precondition Failed"),
        413 => Some("Payload Too Large"),
        414 => Some("URI Too Long"),
        415 => Some("Unsupported Media Type"),
        416 => Some("Range Not Satisfiable"),
        417 => Some("Expectation Failed"),
        418 => Some("I'm a teapot"),
        421 => Some("Misdirected Request"),
        425 => Some("Too Early"),
        426 => Some("Upgrade Required"),
        428 => Some("Precondition Required"),
        429 => Some("Too Many Requests"),
        431 => Some("Request Header Fields Too Large"),
        451 => Some("Unavailable For Legal Reasons"),
        500 => Some("Internal Server Error"),
        501 => Some("Not Implemented"),
        502 => Some("Bad Gateway"),
        503 => Some("Service Unavailable"),
        504 => Some("Gateway Timeout"),
        505 => Some("HTTP Version Not Supported"),
        506 => Some("Variant Also Negotiates"),
        510 => Some("Not Extended"),
        511 => Some("Network Authentication Required"),
        _ => None,
    }
}

/// Response built by user to return to requester.
#[derive(Debug, Clone, PartialEq)]
pub struct ServerResponse {
    /// Generic response information.
    pub info: GeneralInfo,
    /// Response body.
    pub body: Option<Body>,
    /// Compression level (0-9).
    pub compression_level: Option<u32>,
    /// Chunk size.
    pub chunk_size: Option<usize>,
}

impl ServerResponse {
    /// The response as it stands: head, empty line, and the body as it is.
    pub open spec fn bytes(&self) -> Seq<u8> {
        head_bytes(self.info.status@, self.info.headers@) + crlf() + (match self.body {
            Some(body) => body.bytes(),
            None => Seq::empty(),
        })
    }

    /// Creates new response to send to requester, with the reason phrase of
    /// the status.
    pub fn new(status: i32) -> (r: Result<ServerResponse, Error>)
        ensures
            r is Ok <==> reason_phrase(status) is Some,
            r matches Ok(resp) ==> {
                &&& resp.info.status@ == (Status::Response {
                    code: status as int,
                    reason: reason_phrase(status)->0,
                })
                &&& resp.info.headers@ == Seq::<Entry>::empty()
                &&& resp.body is None
                &&& resp.compression_level is None
                &&& resp.chunk_size is None
            },
            r matches Err(e) ==> e is HTTPStatusCodeNotRecognized,
    {
        let phrase = match reason(status) {
            Some(phrase) => phrase,
            None => {
                return Err(Error::HTTPStatusCodeNotRecognized);
            },
        };
        Ok(
            ServerResponse {
                info: GeneralInfo {
                    status: StatusInfo::Response(status, phrase.to_owned()),
                    headers: Headers::new(),
                },
                body: None,
                compression_level: None,
                chunk_size: None,
            },
        )
    }

    /// Sets/replaces individual header for response.
    pub fn set_header(self, key: &str, value: &str) -> (r: ServerResponse)
        ensures
            r.info.headers@ == put(self.info.headers@, key@, value@),
            r.info.status == self.info.status,
            r == (ServerResponse { info: r.info, ..self }),
    {
        let mut resp = self;
        resp.info.headers.insert(key.to_owned(), value.to_owned());
        resp
    }

    /// Sets response body, and the content type that goes with its kind.
    pub fn set_body(self, body: Body) -> (r: ServerResponse)
        ensures
            r.body == Some(body),
            r.info.headers@ == put(self.info.headers@, "Content-Type"@, body.media_type()),
            r.info.status == self.info.status,
            r == (ServerResponse { info: r.info, body: r.body, ..self }),
    {
        let mut resp = self;
        resp.info.headers.insert("Content-Type".to_owned(), body.content_type().to_owned());
        resp.body = Some(body);
        resp
    }

    /// Sets response chunk size.
    pub fn set_chunk_size(self, chunk_size: usize) -> (r: ServerResponse)
        ensures
            r == (ServerResponse { chunk_size: Some(chunk_size), ..self }),
    {
        let mut resp = self;
        resp.chunk_size = Some(chunk_size);
        resp
    }

    /// Sets response compression level.
    pub fn set_compression_level(self, level: u32) -> (r: ServerResponse)
        ensures
            r == (ServerResponse { compression_level: Some(level), ..self }),
    {
        let mut resp = self;
        resp.compression_level = Some(level);
        resp
    }

    /// The response as it stands, on the wire: head, empty line, body.
    pub fn to_bytes(&self) -> (out: Vec<u8>)
        ensures
            out@ == self.bytes(),
    {
        let mut out = self.info.to_bytes();
        out.push(0x0d);
        out.push(0x0a);
        match &self.body {
            Some(body) => {
                let mut bytes = body.to_bytes();
                out.append(&mut bytes);
            },
            None => {},
        }
        assert(out@ =~= self.bytes());
        out
    }
}

} // verus!
