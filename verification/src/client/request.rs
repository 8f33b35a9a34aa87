//! What a client sends, and how it goes on after a response.

use vstd::prelude::*;
use vstd::utf8::encode_utf8;
use crate::body::Body;
use crate::client::response::ClientResponse;
use crate::codec::{compress, encoded, on_wire, send_body};
use crate::deadline::Deadline;
use crate::error::{Error, IoKind};
use crate::framer::{headers_bytes, lists, push_text, write_headers};
use crate::headers::{lookup, put, Entry, Headers};
use crate::numeral::{render, write_unsigned};
use crate::stream::{crlf, is_io, Stream};
use crate::text::{chars_of, same_text, string_of, trim, trim_bounds};
use crate::url::{ascii_host, ensure_ascii, parse_url, url_of, Url, UrlView};

verus! {

/// The most bytes of credentials that the base64 provider is asked to encode.
pub const CREDENTIALS_MAX: usize = 0x3fff_ffff;

/// The base64 form of `input`, as the base64 provider computes it.
pub uninterp spec fn base64(input: Seq<u8>) -> Seq<char>;

/// Encodes bytes as base64.
///
/// Trusted: calls `base64::encode`. The contract names the result and claims
/// nothing more of it than that equal arguments give equal results. Inputs
/// of more than [`CREDENTIALS_MAX`] bytes are left out: the provider gives up
/// where the size of the output does not fit the machine.
#[verifier::external_body]
pub(crate) fn base64_encode(input: &[u8]) -> (r: String)
    requires
        input@.len() <= CREDENTIALS_MAX,
    ensures
        r@ == base64(input@),
{
    base64::encode(input)
}

/// Client request (wraps standard HTTP request).
#[derive(Debug, Clone, PartialEq)]
pub struct ClientRequest {
    /// The method.
    pub method: String,
    /// The target.
    pub url: Url,
    /// The headers that the caller has set.
    pub headers: Headers,
    /// The body, if there is one.
    pub body: Option<Body>,
    /// How many redirects are followed at most.
    pub max_redirects: usize,
    /// The targets that were left behind on redirects: secured or not, host,
    /// resource.
    pub redirects: Vec<(bool, String, String)>,
    /// Whether compression is enabled.
    pub compression: bool,
    /// Whether the target is asked which encodings it accepts.
    pub check_target_encodings: bool,
    /// The compression level of the body.
    pub compression_level: Option<u32>,
    /// The chunk size of the body.
    pub chunk_size: Option<usize>,
    /// The deadline of the exchange.
    pub deadline: Option<Deadline>,
}

/// How the client goes on after a response.
#[derive(Debug, Clone, PartialEq)]
pub enum Outcome {
    /// The response is the result.
    Done(ClientResponse),
    /// The request is to be sent again, to a new target.
    Redirect(ClientRequest),
}

/// The method of the request that follows a redirect: kept for `GET` and
/// `HEAD`, and `GET` for any other.
pub open spec fn redirected_method(method: Seq<char>) -> Seq<char> {
    if method == "GET"@ || method == "HEAD"@ {
        method
    } else {
        "GET"@
    }
}

/// The target that a redirect names: the current host with the trimmed
/// `Location` behind it, read as a URL.
pub open spec fn redirect_target(host: Seq<char>, location: Seq<char>) -> Option<UrlView> {
    url_of(host + trim(location))
}

/// The default number of redirects that are followed.
pub const DEFAULT_REDIRECTS: usize = 5;

impl ClientRequest {
    /// A request as it is before the caller has set anything; the deadline is
    /// left open.
    pub open spec fn fresh(&self, method: Seq<char>, url: UrlView) -> bool {
        &&& self.method@ == method
        &&& self.url@ == url
        &&& self.headers@ == Seq::<Entry>::empty()
        &&& self.body is None
        &&& self.max_redirects == DEFAULT_REDIRECTS
        &&& self.redirects@.len() == 0
        &&& !self.compression
        &&& !self.check_target_encodings
        &&& self.compression_level is None
        &&& self.chunk_size is None
    }

    /// Whether the body goes out compressed: compression is enabled and a
    /// level is set.
    pub open spec fn compresses(&self) -> bool {
        self.compression && self.compression_level is Some
    }

    /// The level at which the body is compressed, if it is.
    pub open spec fn level(&self) -> Option<u32> {
        if self.compression {
            self.compression_level
        } else {
            None
        }
    }

    /// Create a new Request with desired method and URL.
    pub fn new(method: &str, url: &str) -> (r: Result<ClientRequest, Error>)
        ensures
            r is Ok <==> url_of(url@) is Some,
            r matches Ok(req) ==> req.fresh(method@, url_of(url@)->0) && req.deadline is None,
            r matches Err(e) ==> e is InvalidCredentialsInURL,
    {
        let url = match parse_url(url) {
            Ok(url) => url,
            Err(e) => {
                return Err(e);
            },
        };
        Ok(
            ClientRequest {
                method: method.to_owned(),
                url,
                headers: Headers::new(),
                body: None,
                max_redirects: DEFAULT_REDIRECTS,
                redirects: Vec::new(),
                compression: false,
                check_target_encodings: false,
                compression_level: None,
                chunk_size: None,
                deadline: None,
            },
        )
    }

    /// Sets/replaces individual header for request.
    pub fn set_header(self, key: &str, value: &str) -> (r: ClientRequest)
        ensures
            r.headers@ == put(self.headers@, key@, value@),
            r == (ClientRequest { headers: r.headers, ..self }),
    {
        let mut req = self;
        req.headers.insert(key.to_owned(), value.to_owned());
        req
    }

    /// Sets request body, and the content type that goes with its kind.
    pub fn set_body(self, body: Body) -> (r: ClientRequest)
        ensures
            r.body == Some(body),
            r.headers@ == put(self.headers@, "Content-Type"@, body.media_type()),
            r == (ClientRequest { headers: r.headers, body: r.body, ..self }),
    {
        let mut req = self;
        req.headers.insert("Content-Type".to_owned(), body.content_type().to_owned());
        req.body = Some(body);
        req
    }

    /// Sets deadline for request: `time` seconds from `now` on the caller's
    /// clock, which counts milliseconds.
    pub fn set_deadline(self, time: u64, now: u64) -> (r: ClientRequest)
        requires
            now + time * 1000 <= u64::MAX,
        ensures
            r.deadline == Some(Deadline { expiry: (now + time * 1000) as u64,
                last_refresh: now }),
            r == (ClientRequest { deadline: r.deadline, ..self }),
    {
        let mut req = self;
        req.deadline = Some(Deadline::with_deadline(time, now));
        req
    }

    /// Sets max redirects.
    pub fn set_max_redirects(self, redirects: usize) -> (r: ClientRequest)
        ensures
            r == (ClientRequest { max_redirects: redirects, ..self }),
    {
        let mut req = self;
        req.max_redirects = redirects;
        req
    }

    /// Enable compression, for the request and for the response.
    pub fn enable_compression(self) -> (r: ClientRequest)
        ensures
            r == (ClientRequest { compression: true, ..self }),
    {
        let mut req = self;
        req.compression = true;
        req
    }

    /// Checks target's encodings before the request is sent.
    pub fn check_target_encodings(self) -> (r: ClientRequest)
        ensures
            r == (ClientRequest { check_target_encodings: true, ..self }),
    {
        let mut req = self;
        req.check_target_encodings = true;
        req
    }

    /// Sets request compression level. It is taken only where compression is
    /// enabled and the target's encodings are checked.
    pub fn set_compression_level(self, level: u32) -> (r: ClientRequest)
        ensures
            r == (ClientRequest {
                compression_level: if self.compression && self.check_target_encodings {
                    Some(level)
                } else {
                    self.compression_level
                },
                ..self
            }),
    {
        let mut req = self;
        if req.compression && req.check_target_encodings {
            req.compression_level = Some(level);
        }
        req
    }

    /// Sets request chunk size. It is taken only where the target's encodings
    /// are checked.
    pub fn set_chunk_size(self, chunk_size: usize) -> (r: ClientRequest)
        ensures
            r == (ClientRequest {
                chunk_size: if self.check_target_encodings {
                    Some(chunk_size)
                } else {
                    self.chunk_size
                },
                ..self
            }),
    {
        let mut req = self;
        if req.check_target_encodings {
            req.chunk_size = Some(chunk_size);
        }
        req
    }

    /// Whether the target is to be asked first which encodings it accepts.
    pub fn needs_probe(&self) -> (r: bool)
        ensures
            r == (self.compression && self.check_target_encodings),
    {
        self.compression && self.check_target_encodings
    }

    /// The request that asks the target which encodings it accepts: `OPTIONS`
    /// to the host, under the same deadline.
    pub fn probe(&self) -> (r: Result<ClientRequest, Error>)
        ensures
            r is Ok <==> url_of(self.url.host@) is Some,
            r matches Ok(req) ==> req.fresh("OPTIONS"@, url_of(self.url.host@)->0) && req.deadline
                == self.deadline,
            r matches Err(e) ==> e is InvalidCredentialsInURL,
    {
        match ClientRequest::new("OPTIONS", self.url.host.as_str()) {
            Err(e) => Err(e),
            Ok(req) => {
                let mut req = req;
                if self.deadline.is_some() {
                    req.deadline = self.deadline;
                }
                Ok(req)
            },
        }
    }

    /// Takes the target's answer to the probe: where it names the encodings
    /// that it accepts, compression stays enabled only if gzip is among them.
    pub fn apply_probe(self, answer: &ClientResponse) -> (r: ClientRequest)
        ensures
            r == (ClientRequest {
                compression: if lookup(answer.info.headers@, "Accept-Encoding"@) is Some {
                    lists(answer.info.headers@, "Accept-Encoding"@, "gzip"@)
                } else {
                    self.compression
                },
                ..self
            }),
    {
        let mut req = self;
        if answer.info.headers.get("Accept-Encoding").is_some() {
            req.compression = crate::framer::check_accept(&answer.info.headers);
        }
        req
    }

    /// The targets that were left behind on redirects, oldest first.
    pub open spec fn hops(&self) -> Seq<(bool, Seq<char>, Seq<char>)> {
        Seq::new(
            self.redirects@.len(),
            |i: int| (self.redirects@[i].0, self.redirects@[i].1@, self.redirects@[i].2@),
        )
    }

    /// Whether this request is the one that follows `prev` to `target`: the
    /// method kept or downgraded, the target replaced with the credentials
    /// kept, the old target noted, and everything else as it was.
    pub open spec fn follows(&self, prev: ClientRequest, target: UrlView) -> bool {
        &&& self.method@ == redirected_method(prev.method@)
        &&& self.url@ == (UrlView {
            https: target.https,
            credentials: prev.url@.credentials,
            host: target.host,
            resource: target.resource,
        })
        &&& self.hops() == prev.hops().push((prev.url.https, prev.url.host@, prev.url.resource@))
        &&& *self == (ClientRequest {
            method: self.method,
            url: self.url,
            redirects: self.redirects,
            ..prev
        })
    }

    /// A request that follows one whose redirects were within the limit has
    /// its redirects within the limit too.
    pub proof fn lemma_redirects_bounded(&self, prev: ClientRequest, target: UrlView)
        requires
            self.follows(prev, target),
            prev.redirects@.len() < prev.max_redirects,
        ensures
            self.redirects@.len() == prev.redirects@.len() + 1,
            self.redirects@.len() <= self.max_redirects,
    {
        assert(self.hops().len() == self.redirects@.len());
        assert(prev.hops().len() == prev.redirects@.len());
    }

    /// Decides how to go on after a response. A status from 300 to 308 is a
    /// redirect: it fails once as many redirects were followed as are
    /// allowed, and where the response names no `Location`; otherwise the
    /// request is to be sent again to the current host with the trimmed
    /// `Location` behind it. Any other status ends the exchange with the
    /// response.
    pub fn follow(self, resp: ClientResponse) -> (r: Result<Outcome, Error>)
        ensures
            !(300 <= resp.code() <= 308) ==> r == Ok::<Outcome, Error>(Outcome::Done(resp)),
            300 <= resp.code() <= 308 ==> {
                if self.redirects@.len() == self.max_redirects {
                    r matches Err(e) && e is MaxRedirectsHit
                } else {
                    match lookup(resp.info.headers@, "Location"@) {
                        None => r matches Err(e) && e is NoLocationHeader,
                        Some(location) => match redirect_target(self.url.host@, location) {
                            None => r matches Err(e) && e is InvalidCredentialsInURL,
                            Some(target) => r matches Ok(Outcome::Redirect(next)) && next.follows(
                                self,
                                target,
                            ),
                        },
                    }
                }
            },
    {
        let code = resp.status_code();
        if !(code >= 300 && code <= 308) {
            return Ok(Outcome::Done(resp));
        }
        if self.redirects.len() == self.max_redirects {
            return Err(Error::MaxRedirectsHit);
        }
        let location = match resp.info.headers.get("Location") {
            Some(location) => location,
            None => {
                return Err(Error::NoLocationHeader);
            },
        };
        let place = chars_of(location.as_str());
        let (a, b) = trim_bounds(place.as_slice(), 0, place.len());
        assert(place@.subrange(0, place@.len() as int) =~= place@);
        let mut joined = chars_of(self.url.host.as_str());
        joined.extend_from_slice(vstd::slice::slice_subrange(place.as_slice(), a, b));
        assert(joined@ =~= self.url.host@ + trim(location@));
        let text = string_of(joined.as_slice());
        let target = match parse_url(text.as_str()) {
            Ok(target) => target,
            Err(e) => {
                return Err(e);
            },
        };
        let mut next = self;
        let ghost was = next.hops();
        next.redirects.push((next.url.https, next.url.host.clone(), next.url.resource));
        assert(next.hops() =~= was.push((self.url.https, self.url.host@, self.url.resource@)));
        let keep = same_text(next.method.as_str(), "GET") || same_text(
            next.method.as_str(),
            "HEAD",
        );
        if !keep {
            next.method = "GET".to_owned();
        }
        next.url.https = target.https;
        next.url.host = target.host;
        next.url.resource = target.resource;
        proof {
            let want = redirect_target(self.url.host@, location@)->0;
            assert(target@ == want);
            assert(next.method@ == redirected_method(self.method@));
            assert(next.url@.credentials == self.url@.credentials);
            assert(next.url@.host == want.host);
            assert(next.url@.resource == want.resource);
            assert(next.follows(self, want));
        }
        Ok(Outcome::Redirect(next))
    }

    /// The request with its host in ASCII form, as it is needed to reach
    /// the host.
    pub fn resolve(self) -> (r: Result<ClientRequest, Error>)
        ensures
            r is Ok <==> ascii_host(self.url.host@) is Some,
            r matches Ok(req) ==> ascii_host(self.url.host@) == Some(req.url.host@) && req == (
            ClientRequest { url: Url { host: req.url.host, ..self.url }, ..self }),
            r matches Err(e) ==> e is DNSOverflow,
    {
        let mut req = self;
        let host = req.url.host;
        match ensure_ascii(host) {
            Ok(host) => {
                req.url.host = host;
                Ok(req)
            },
            Err(e) => Err(e),
        }
    }

    /// The name of the host, without the port.
    pub fn host_name(&self) -> (r: String)
        ensures
            r@ == self.url.host@.take(crate::text::find(self.url.host@, ':')),
    {
        let host = chars_of(self.url.host.as_str());
        let colon = crate::text::find_char(host.as_slice(), ':', 0);
        let name = vstd::slice::slice_subrange(host.as_slice(), 0, colon);
        assert(name@ =~= host@.take(colon as int));
        string_of(name)
    }

    /// The credentials of the URL as they go into the `Authorization` line:
    /// user name, colon, password. Empty where the line is not written: the
    /// URL has no credentials, or the caller has set the header.
    pub open spec fn credentials(&self) -> Option<Seq<u8>> {
        match self.url.credentials {
            Some(c) => if lookup(self.headers@, "Authorization"@) is None {
                Some(encode_utf8(c.0@) + encode_utf8(":"@) + encode_utf8(c.1@))
            } else {
                None
            },
            None => None,
        }
    }

    /// The `Authorization` line of the head: the credentials in base64.
    pub open spec fn authorization(&self) -> Seq<u8> {
        match self.credentials() {
            Some(pair) => encode_utf8("Authorization: "@) + encode_utf8(base64(pair)) + crlf(),
            None => Seq::empty(),
        }
    }

    /// The lines of the head that announce a body of `len` bytes on the way
    /// to the transfer layer: its length, or that it is chunked where a chunk
    /// size is set; and that it is gzip compressed where it is.
    pub open spec fn framing(&self, len: Option<nat>) -> Seq<u8> {
        match len {
            None => Seq::empty(),
            Some(n) => (if self.chunk_size is None {
                encode_utf8("Content-Length: "@) + render(n, 10) + crlf()
            } else {
                encode_utf8("Transfer-Encoding: chunked\r\n"@)
            }) + (if self.compresses() {
                encode_utf8("Content-Encoding: gzip\r\n"@)
            } else {
                Seq::empty()
            }),
        }
    }

    /// The head of the request on the wire: request line, `Host`, the default
    /// `User-Agent` unless the caller has set one, the caller's headers,
    /// `Authorization`, the lines that announce the body, and the empty line.
    /// `None` where the credentials are longer than [`CREDENTIALS_MAX`].
    pub open spec fn head_bytes(&self, len: Option<nat>) -> Option<Seq<u8>> {
        if self.credentials() matches Some(pair) && pair.len() > CREDENTIALS_MAX {
            None
        } else {
            Some(
                encode_utf8(self.method@) + encode_utf8(" "@) + encode_utf8(self.url.resource@)
                    + encode_utf8(" HTTP/1.1\r\nHost: "@) + encode_utf8(self.url.host@) + crlf()
                    + (if lookup(self.headers@, "User-Agent"@) is None {
                    encode_utf8("User-Agent: slimweb\r\n"@)
                } else {
                    Seq::empty()
                }) + headers_bytes(self.headers@) + self.authorization() + self.framing(len)
                    + crlf(),
            )
        }
    }

    /// The body as it goes to the transfer layer: compressed where the
    /// request compresses. The outer `None` stands for compression that
    /// failed, the inner for a request without body.
    pub open spec fn content(&self) -> Option<Option<Seq<u8>>> {
        match self.body {
            None => Some(None),
            Some(body) => match encoded(body.bytes(), self.level()) {
                Some(payload) => Some(Some(payload)),
                None => None,
            },
        }
    }

    /// The request on the wire: the head, then the body in chunks where a
    /// chunk size is set.
    pub open spec fn wire(&self) -> Wire {
        match self.content() {
            None => Wire::Uncompressed,
            Some(payload) => match self.head_bytes(
                match payload {
                    Some(p) => Some(p.len()),
                    None => None,
                },
            ) {
                None => Wire::LongCredentials,
                Some(head) => Wire::Bytes(
                    head + (match payload {
                        Some(p) => on_wire(p, self.chunk_size),
                        None => Seq::empty(),
                    }),
                ),
            },
        }
    }

    /// The body as it goes to the transfer layer.
    pub fn payload(&self) -> (r: Result<Option<Vec<u8>>, Error>)
        ensures
            match self.content() {
                None => r matches Err(e) && is_io(e, IoKind::Other),
                Some(None) => r matches Ok(None),
                Some(Some(payload)) => r matches Ok(Some(v)) && v@ == payload,
            },
    {
        match &self.body {
            None => Ok(None),
            Some(body) => {
                let bytes = body.to_bytes();
                if self.compression {
                    match self.compression_level {
                        Some(level) => match compress(bytes.as_slice(), level) {
                            Ok(v) => Ok(Some(v)),
                            Err(e) => Err(e),
                        },
                        None => Ok(Some(bytes)),
                    }
                } else {
                    Ok(Some(bytes))
                }
            },
        }
    }

    /// Writes the request to the stream: the head, then the body. Nothing is
    /// written when it fails.
    pub fn write_to(&self, stream: &mut Stream) -> (r: Result<(), Error>)
        ensures
            final(stream).unread() == old(stream).unread(),
            final(stream).peer_closed() == old(stream).peer_closed(),
            match self.wire() {
                Wire::Bytes(bytes) => r is Ok && final(stream).written() == old(stream).written()
                    + bytes,
                Wire::Uncompressed => r matches Err(e) && is_io(e, IoKind::Other)
                    && final(stream).written() == old(stream).written(),
                Wire::LongCredentials => r matches Err(e) && e is InvalidCredentialsInURL
                    && final(stream).written() == old(stream).written(),
            },
    {
        let payload = match self.payload() {
            Ok(payload) => payload,
            Err(e) => {
                return Err(e);
            },
        };
        let ghost sent = stream.written();
        match payload {
            None => {
                let head = match gen_head(self, None) {
                    Ok(head) => head,
                    Err(e) => {
                        return Err(e);
                    },
                };
                stream.write_all(head.as_slice());
                proof {
                    assert(head@ + Seq::<u8>::empty() =~= head@);
                }
                Ok(())
            },
            Some(bytes) => {
                let head = match gen_head(self, Some(bytes.len())) {
                    Ok(head) => head,
                    Err(e) => {
                        return Err(e);
                    },
                };
                stream.write_all(head.as_slice());
                match send_body(stream, bytes.as_slice(), self.chunk_size, None) {
                    Err(e) => Err(e),
                    Ok(()) => {
                        proof {
                            assert(stream.written() =~= sent + (head@ + on_wire(
                                bytes@,
                                self.chunk_size,
                            )));
                        }
                        Ok(())
                    },
                }
            },
        }
    }

    /// Reads the response to this request from a stream that holds all of
    /// it, and decides how to go on: what [`ClientResponse::new`] makes of
    /// the stream, and then what [`ClientRequest::follow`] makes of the
    /// response.
    pub fn receive(self, stream: Stream) -> (r: Result<Outcome, Error>)
        ensures
            (exists|resp: ClientResponse|
                call_ensures(
                    ClientResponse::new,
                    (stream,),
                    Ok::<ClientResponse, Error>(resp),
                ) && #[trigger] call_ensures(ClientRequest::follow, (self, resp), r)) || (
            r matches Err(e) && call_ensures(
                ClientResponse::new,
                (stream,),
                Err::<ClientResponse, Error>(e),
            )),
    {
        match ClientResponse::new(stream) {
            Err(e) => Err(e),
            Ok(resp) => self.follow(resp),
        }
    }
}

/// What a request is on the wire, or why it cannot go there.
pub enum Wire {
    /// The bytes of the request.
    Bytes(Seq<u8>),
    /// The body cannot be compressed.
    Uncompressed,
    /// The credentials are too long to be encoded.
    LongCredentials,
}

/// Appends the request line and the `Host` line.
fn write_request_line(head: &mut Vec<u8>, request: &ClientRequest)
    ensures
        final(head)@ == old(head)@ + (encode_utf8(request.method@) + encode_utf8(" "@)
            + encode_utf8(request.url.resource@) + encode_utf8(" HTTP/1.1\r\nHost: "@)
            + encode_utf8(request.url.host@) + crlf()),
{
    push_text(head, request.method.as_str());
    push_text(head, " ");
    push_text(head, request.url.resource.as_str());
    push_text(head, " HTTP/1.1\r\nHost: ");
    push_text(head, request.url.host.as_str());
    head.push(0x0d);
    head.push(0x0a);
    assert(head@ =~= old(head)@ + (encode_utf8(request.method@) + encode_utf8(" "@) + encode_utf8(
        request.url.resource@,
    ) + encode_utf8(" HTTP/1.1\r\nHost: "@) + encode_utf8(request.url.host@) + crlf()));
}

/// Appends the `Authorization` line, where there is one. Fails, and appends
/// nothing, where the credentials are too long.
fn write_authorization(head: &mut Vec<u8>, request: &ClientRequest) -> (r: Result<(), Error>)
    ensures
        r is Err <==> (request.credentials() matches Some(pair) && pair.len() > CREDENTIALS_MAX),
        r is Ok ==> final(head)@ == old(head)@ + request.authorization(),
        r matches Err(e) ==> e is InvalidCredentialsInURL && final(head)@ == old(head)@,
{
    match &request.url.credentials {
        Some(creds) => {
            if request.headers.get("Authorization").is_none() {
                let mut pair: Vec<u8> = Vec::new();
                push_text(&mut pair, creds.0.as_str());
                push_text(&mut pair, ":");
                push_text(&mut pair, creds.1.as_str());
                proof {
                    reveal_strlit(":");
                    vstd::utf8::is_ascii_chars_encode_utf8(":"@);
                    assert(pair@ =~= encode_utf8(creds.0@) + encode_utf8(":"@) + encode_utf8(
                        creds.1@,
                    ));
                }
                if pair.len() > CREDENTIALS_MAX {
                    return Err(Error::InvalidCredentialsInURL);
                }
                let token = base64_encode(pair.as_slice());
                push_text(head, "Authorization: ");
                push_text(head, token.as_str());
                head.push(0x0d);
                head.push(0x0a);
                assert(head@ =~= old(head)@ + request.authorization());
            } else {
                assert(head@ =~= old(head)@ + request.authorization());
            }
        },
        None => {
            assert(head@ =~= old(head)@ + request.authorization());
        },
    }
    Ok(())
}

/// Appends the lines that announce the body.
fn write_framing(head: &mut Vec<u8>, request: &ClientRequest, len: Option<usize>)
    ensures
        final(head)@ == old(head)@ + request.framing(
            match len {
                Some(n) => Some(n as nat),
                None => None,
            },
        ),
{
    match len {
        Some(n) => {
            if request.chunk_size.is_none() {
                push_text(head, "Content-Length: ");
                let mut digits = write_unsigned(n, 10);
                head.append(&mut digits);
                head.push(0x0d);
                head.push(0x0a);
            } else {
                push_text(head, "Transfer-Encoding: chunked\r\n");
            }
            let ghost mid = head@;
            if request.compression && request.compression_level.is_some() {
                push_text(head, "Content-Encoding: gzip\r\n");
            }
            assert(head@ =~= old(head)@ + request.framing(Some(n as nat)));
        },
        None => {
            assert(head@ =~= old(head)@ + request.framing(None));
        },
    }
}

/// Generate request head byte vector, for a body of `len` bytes on the way to
/// the transfer layer. Fails where the credentials of the URL are too long to
/// be encoded.
pub fn gen_head(request: &ClientRequest, len: Option<usize>) -> (r: Result<Vec<u8>, Error>)
    ensures
        match request.head_bytes(
            match len {
                Some(n) => Some(n as nat),
                None => None,
            },
        ) {
            Some(bytes) => r matches Ok(head) && head@ == bytes,
            None => r matches Err(e) && e is InvalidCredentialsInURL,
        },
{
    let ghost size: Option<nat> = match len {
        Some(n) => Some(n as nat),
        None => None,
    };
    let mut head: Vec<u8> = Vec::new();
    write_request_line(&mut head, request);
    if request.headers.get("User-Agent").is_none() {
        push_text(&mut head, "User-Agent: slimweb\r\n");
    }
    let ghost second = head@;
    write_headers(&mut head, &request.headers);
    match write_authorization(&mut head, request) {
        Ok(()) => {},
        Err(e) => {
            return Err(e);
        },
    }
    write_framing(&mut head, request, len);
    head.push(0x0d);
    head.push(0x0a);
    assert(head@ =~= second + headers_bytes(request.headers@) + request.authorization()
        + request.framing(size) + crlf());
    assert(head@ =~= request.head_bytes(size)->0);
    Ok(head)
}

} // verus!
