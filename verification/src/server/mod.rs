//! The server: the table of handlers, the expectation checks that come before
//! a body is accepted, and the exchange on one connection.

use vstd::prelude::*;
use crate::chunked::reports;
use crate::codec::{compress, encoded, on_wire, send_body, Reception};
use crate::deadline::Deadline;
use crate::error::{Error, IoKind};
use crate::framer::{head, head_bytes, lists, process_lines, Head};
use crate::headers::{lookup, put, Entry, Headers};
use crate::numeral::{as_text, decimal_text, render};
use crate::stream::{crlf, is_io, Stream};
use crate::text::same_text;
use crate::{GeneralInfo, Status, StatusInfo};

pub mod request;
pub mod response;

use self::request::intake;

pub use self::request::ServerRequest;
pub use self::response::ServerResponse;

verus! {

/// The status code that lets the client go on with the body.
pub const CONTINUE: i32 = 100;

/// Whether the response goes out compressed: it has a body and a compression
/// level, and the requester accepts gzip.
pub open spec fn compresses(request: Seq<Entry>, resp: ServerResponse) -> bool {
    resp.body is Some && resp.compression_level is Some && lists(
        request,
        "Accept-Encoding"@,
        "gzip"@,
    )
}

/// The body of the response on the way to the transfer layer: compressed
/// where the response compresses. `None` stands for compression that failed.
pub open spec fn content(request: Seq<Entry>, resp: ServerResponse) -> Option<Seq<u8>> {
    match resp.body {
        Some(body) => encoded(
            body.bytes(),
            if compresses(request, resp) {
                resp.compression_level
            } else {
                None
            },
        ),
        None => Some(Seq::empty()),
    }
}

/// The headers of the response as they go out: the handler's headers, and
/// for a response with a body its framing, chunked or by length, and its
/// content encoding where it is compressed.
pub open spec fn final_headers(request: Seq<Entry>, resp: ServerResponse,
    len: nat) -> Seq<Entry> {
    if resp.body is None {
        resp.info.headers@
    } else {
        let framed = if resp.chunk_size is Some {
            put(resp.info.headers@, "Transfer-Encoding"@, "chunked"@)
        } else {
            put(resp.info.headers@, "Content-Length"@, as_text(render(len, 10)))
        };
        if compresses(request, resp) {
            put(framed, "Content-Encoding"@, "gzip"@)
        } else {
            framed
        }
    }
}

/// The response on the wire: head, empty line, and the body through the
/// codecs. `None` stands for compression that failed.
pub open spec fn response_wire(request: Seq<Entry>, resp: ServerResponse) -> Option<Seq<u8>> {
    match content(request, resp) {
        None => None,
        Some(payload) => Some(
            head_bytes(resp.info.status@, final_headers(request, resp, payload.len())) + crlf()
                + (
            if resp.body is Some {
                on_wire(payload, resp.chunk_size)
            } else {
                Seq::empty()
            }),
        ),
    }
}

/// Sends the response of a handler to a requester with the headers `request`.
pub fn respond(stream: &mut Stream, request: &Headers, resp: ServerResponse) -> (r: Result<
    (),
    Error,
>)
    ensures
        final(stream).unread() == old(stream).unread(),
        final(stream).peer_closed() == old(stream).peer_closed(),
        match response_wire(request@, resp) {
            Some(bytes) => r is Ok && final(stream).written() == old(stream).written() + bytes,
            None => r matches Err(e) && is_io(e, IoKind::Other)
                && final(stream).written() == old(stream).written(),
        },
{
    let mut resp = resp;
    let ghost given = resp;
    let ghost sent = stream.written();
    let accepts = crate::framer::check_accept(request);
    let payload: Option<Vec<u8>> = match &resp.body {
        None => None,
        Some(body) => {
            let bytes = body.to_bytes();
            if accepts && resp.compression_level.is_some() {
                match resp.compression_level {
                    Some(level) => match compress(bytes.as_slice(), level) {
                        Ok(v) => Some(v),
                        Err(e) => {
                            return Err(e);
                        },
                    },
                    None => Some(bytes),
                }
            } else {
                Some(bytes)
            }
        },
    };
    match &payload {
        Some(bytes) => {
            if resp.chunk_size.is_some() {
                resp.info.headers.insert("Transfer-Encoding".to_owned(), "chunked".to_owned());
            } else {
                resp.info.headers.insert("Content-Length".to_owned(), decimal_text(bytes.len()));
            }
            if accepts && resp.compression_level.is_some() {
                resp.info.headers.insert("Content-Encoding".to_owned(), "gzip".to_owned());
            }
        },
        None => {},
    }
    let mut head = resp.info.to_bytes();
    head.push(0x0d);
    head.push(0x0a);
    stream.write_all(head.as_slice());
    match payload {
        Some(bytes) => match send_body(stream, bytes.as_slice(), resp.chunk_size, None) {
            Err(e) => Err(e),
            Ok(()) => {
                proof {
                    let want = response_wire(request@, given)->0;
                    assert(stream.written() =~= sent + want);
                }
                Ok(())
            },
        },
        None => {
            proof {
                let want = response_wire(request@, given)->0;
                assert(stream.written() =~= sent + want);
            }
            Ok(())
        },
    }
}

/// What the server answers to the verdict of the expectation checks: the
/// interim response for the code 100, and otherwise the response with that
/// code and, where there is a message, the message as its text body. `None`
/// for a code that the table of reason phrases does not know.
pub open spec fn verdict_bytes(code: i32, message: Option<Seq<char>>) -> Option<Seq<u8>> {
    match response::reason_phrase(code) {
        None => None,
        Some(reason) => {
            let status = Status::Response { code: code as int, reason };
            Some(
                if code == CONTINUE || message is None {
                    head_bytes(status, Seq::empty()) + crlf()
                } else {
                    head_bytes(
                        status,
                        put(Seq::empty(), "Content-Type"@, "text/plain;"@),
                    ) + crlf() + vstd::utf8::encode_utf8(message->0)
                },
            )
        },
    }
}

/// Answers the verdict of the expectation checks, and says whether the
/// exchange goes on: with the code 100 the interim response is written and
/// the body of the request is to be read; with any other code the response
/// with that code is written and the exchange is over. The input is not
/// touched either way.
pub fn answer_expectation(stream: &mut Stream, code: i32, message: Option<String>) -> (r: Result<
    bool,
    Error,
>)
    ensures
        final(stream).unread() == old(stream).unread(),
        final(stream).peer_closed() == old(stream).peer_closed(),
        match verdict_bytes(
            code,
            match message {
                Some(m) => Some(m@),
                None => None,
            },
        ) {
            Some(bytes) => r == Ok::<bool, Error>(code == CONTINUE) && final(stream).written()
                == old(stream).written() + bytes,
            None => r matches Err(e) && e is HTTPStatusCodeNotRecognized
                && final(stream).written() == old(stream).written(),
        },
{
    let resp = match ServerResponse::new(code) {
        Ok(resp) => resp,
        Err(e) => {
            return Err(e);
        },
    };
    if code == CONTINUE {
        let bytes = resp.to_bytes();
        stream.write_all(bytes.as_slice());
        proof {
            assert(resp.bytes() =~= head_bytes(resp.info.status@, Seq::empty()) + crlf());
        }
        Ok(true)
    } else {
        let resp = match message {
            Some(text) => resp.set_body(crate::body::Body::Text(text)),
            None => resp,
        };
        let bytes = resp.to_bytes();
        stream.write_all(bytes.as_slice());
        proof {
            if message is None {
                assert(resp.bytes() =~= head_bytes(resp.info.status@, Seq::empty()) + crlf());
            }
        }
        Ok(false)
    }
}

/// Whether a check lets the request pass: the code 100 is among its answers
/// to this head.
pub open spec fn lets_pass<E: Fn(&GeneralInfo) -> Result<(i32, Option<String>), Error>>(
    check: E,
    info: GeneralInfo,
) -> bool {
    exists|m: Option<String>| #[trigger]
        call_ensures(check, (&info,), Ok::<(i32, Option<String>), Error>((CONTINUE, m)))
}

/// Whether `r` is the verdict that the check at index `at` settles: every
/// check before it lets the request pass, and the check itself answers `r`,
/// which is an error or another code than 100. With `at` behind the last
/// check, every check lets the request pass and the verdict is the code 100
/// without a message.
pub open spec fn settles<E: Fn(&GeneralInfo) -> Result<(i32, Option<String>), Error>>(
    checks: Seq<E>,
    info: GeneralInfo,
    at: int,
    r: Result<(i32, Option<String>), Error>,
) -> bool {
    &&& 0 <= at <= checks.len()
    &&& forall|i: int| 0 <= i < at ==> lets_pass(#[trigger] checks[i], info)
    &&& if at == checks.len() {
        r == Ok::<(i32, Option<String>), Error>((CONTINUE, None))
    } else {
        call_ensures(checks[at], (&info,), r) && !(r matches Ok(v) && v.0 == CONTINUE)
    }
}

/// Runs the expectation checks in the order of their registration. The first
/// check that answers another code than 100 settles the verdict, and the
/// checks behind it are not run.
pub fn consult<E: Fn(&GeneralInfo) -> Result<(i32, Option<String>), Error>>(
    checks: &Vec<E>,
    info: &GeneralInfo,
) -> (r: Result<(i32, Option<String>), Error>)
    requires
        forall|i: int| 0 <= i < checks@.len() ==> call_requires(#[trigger] checks@[i], (info,)),
    ensures
        exists|at: int| settles(checks@, *info, at, r),
{
    let mut i: usize = 0;
    while i < checks.len()
        invariant
            0 <= i <= checks@.len(),
            forall|j: int| 0 <= j < checks@.len()
                ==> call_requires(#[trigger] checks@[j], (info,)),
            forall|j: int| 0 <= j < i ==> lets_pass(#[trigger] checks@[j], *info),
        decreases checks.len() - i,
    {
        let check = &checks[i];
        let answer = check(info);
        match answer {
            Ok((code, message)) => {
                if code != CONTINUE {
                    let r = Ok((code, message));
                    assert(settles(checks@, *info, i as int, r));
                    return r;
                }
                assert(lets_pass(checks@[i as int], *info));
            },
            Err(e) => {
                let r = Err(e);
                assert(settles(checks@, *info, i as int, r));
                return r;
            },
        }
        i += 1;
    }
    let r = Ok((CONTINUE, None));
    assert(settles(checks@, *info, checks@.len() as int, r));
    r
}

/// Whether `r` and the bytes `sent` answer the verdict `v` of the checks on a
/// request with the head `info`. The error of a check ends the exchange with
/// that error and nothing is sent, as does a code without reason phrase. Any
/// other verdict is sent as [`verdict_bytes`] says, and the exchange goes on
/// with the head exactly when the code is 100.
pub open spec fn answers(
    v: Result<(i32, Option<String>), Error>,
    info: GeneralInfo,
    r: Result<Option<GeneralInfo>, Error>,
    sent: Seq<u8>,
) -> bool {
    match v {
        Err(e) => r == Err::<Option<GeneralInfo>, Error>(e) && sent == Seq::<u8>::empty(),
        Ok((code, message)) => match verdict_bytes(
            code,
            match message {
                Some(m) => Some(m@),
                None => None,
            },
        ) {
            None => (r matches Err(e) && e is HTTPStatusCodeNotRecognized) && sent == Seq::<
                u8,
            >::empty(),
            Some(bytes) => sent == bytes && r == Ok::<Option<GeneralInfo>, Error>(
                if code == CONTINUE {
                    Some(info)
                } else {
                    None
                },
            ),
        },
    }
}

/// Generic HTTP 1.1 Server: the handlers by method and resource, the
/// expectation checks, and the deadline of every exchange.
pub struct Server<H, E> {
    /// The handlers, each under its method and resource.
    pub handlers: Vec<((String, String), H)>,
    /// The expectation checks, in the order of their registration.
    pub expect_handlers: Vec<E>,
    /// The deadline of every exchange.
    pub deadline: Option<Deadline>,
}

impl<
    H: Fn(&ServerRequest) -> Result<ServerResponse, Error>,
    E: Fn(&GeneralInfo) -> Result<(i32, Option<String>), Error>,
> Server<H, E> {
    /// Every handler takes every request, and every check every head.
    pub open spec fn wf(&self) -> bool {
        &&& forall|i: int, req: &ServerRequest|
            0 <= i < self.handlers@.len() ==> #[trigger] call_requires(
                self.handlers@[i].1,
                (req,),
            )
        &&& forall|i: int, info: &GeneralInfo|
            0 <= i < self.expect_handlers@.len() ==> #[trigger] call_requires(
                self.expect_handlers@[i],
                (info,),
            )
    }

    /// The index of the first handler for the method and the resource, or the
    /// number of handlers.
    pub open spec fn route_from(&self, method: Seq<char>, resource: Seq<char>, from: int) -> int
        decreases self.handlers@.len() - from,
    {
        if from < 0 || from >= self.handlers@.len() {
            self.handlers@.len() as int
        } else if self.handlers@[from].0.0@ == method && self.handlers@[from].0.1@ == resource {
            from
        } else {
            self.route_from(method, resource, from + 1)
        }
    }

    /// The handler for the method and the resource, if there is one.
    pub open spec fn route(&self, method: Seq<char>, resource: Seq<char>) -> Option<H> {
        let i = self.route_from(method, resource, 0);
        if 0 <= i < self.handlers@.len() {
            Some(self.handlers@[i].1)
        } else {
            None
        }
    }

    /// Creates new Server, without handlers, checks or deadline.
    pub fn new() -> (s: Server<H, E>)
        ensures
            s.wf(),
            s.handlers@.len() == 0,
            s.expect_handlers@.len() == 0,
            s.deadline is None,
    {
        Server { handlers: Vec::new(), expect_handlers: Vec::new(), deadline: None }
    }

    /// Where the handler for the method and the resource stands.
    fn position(&self, method: &str, resource: &str) -> (i: usize)
        ensures
            i == self.route_from(method@, resource@, 0),
            i <= self.handlers@.len(),
    {
        let mut i: usize = 0;
        while i < self.handlers.len() && !(same_text(self.handlers[i].0.0.as_str(), method)
            && same_text(self.handlers[i].0.1.as_str(), resource))
            invariant
                0 <= i <= self.handlers@.len(),
                self.route_from(method@, resource@, 0) == self.route_from(
                    method@,
                    resource@,
                    i as int,
                ),
            decreases self.handlers.len() - i,
        {
            i += 1;
        }
        i
    }

    /// Adds a user defined handler to server, in place of one that stands
    /// under the same method and resource. Handlers match method and
    /// resource, and call defined function.
    pub fn add_handler(self, method: &str, route: &str, handler: H) -> (s: Server<H, E>)
        requires
            self.wf(),
            forall|req: &ServerRequest| #[trigger] call_requires(handler, (req,)),
        ensures
            s.wf(),
            s.route(method@, route@) == Some(handler),
            s.expect_handlers == self.expect_handlers,
            s.deadline == self.deadline,
    {
        let mut s = self;
        let i = s.position(method, route);
        proof {
            self.lemma_route_from(method@, route@, 0);
        }
        if i < s.handlers.len() {
            s.handlers.set(i, ((method.to_owned(), route.to_owned()), handler));
        } else {
            s.handlers.push(((method.to_owned(), route.to_owned()), handler));
        }
        proof {
            s.lemma_route_unique(method@, route@, 0, i as int);
        }
        s
    }

    /// Where the route leads, the method and the resource stand, and nowhere
    /// before.
    pub proof fn lemma_route_from(&self, method: Seq<char>, resource: Seq<char>, from: int)
        requires
            0 <= from <= self.handlers@.len(),
        ensures
            from <= self.route_from(method, resource, from) <= self.handlers@.len(),
            forall|j: int|
                from <= j < self.route_from(method, resource, from) ==> !((
                #[trigger] self.handlers@[j]).0.0@ == method && self.handlers@[j].0.1@
                    == resource),
        decreases self.handlers@.len() - from,
    {
        if from < self.handlers@.len() && !(self.handlers@[from].0.0@ == method
            && self.handlers@[from].0.1@ == resource) {
            self.lemma_route_from(method, resource, from + 1);
        }
    }

    /// An index that holds the method and the resource, with no earlier one
    /// from `from` on, is where the route leads.
    pub proof fn lemma_route_unique(&self, method: Seq<char>, resource: Seq<char>, from: int,
        at: int)
        requires
            0 <= from <= at < self.handlers@.len(),
            self.handlers@[at].0.0@ == method && self.handlers@[at].0.1@ == resource,
            forall|j: int|
                from <= j < at ==> !((#[trigger] self.handlers@[j]).0.0@ == method
                    && self.handlers@[j].0.1@ == resource),
        ensures
            self.route_from(method, resource, from) == at,
        decreases at - from,
    {
        if from < at {
            self.lemma_route_unique(method, resource, from + 1, at);
        }
    }

    /// Adds a user defined expectation handler to server, behind those that
    /// are there. Used exclusively for Expect: 100-Continue handling.
    pub fn add_expect_handler(self, handler: E) -> (s: Server<H, E>)
        requires
            self.wf(),
            forall|info: &GeneralInfo| #[trigger] call_requires(handler, (info,)),
        ensures
            s.wf(),
            s.expect_handlers@ == self.expect_handlers@.push(handler),
            s.handlers == self.handlers,
            s.deadline == self.deadline,
    {
        let mut s = self;
        s.expect_handlers.push(handler);
        s
    }

    /// Sets deadline for every exchange: `time` seconds from `now` on the
    /// caller's clock, which counts milliseconds.
    pub fn set_deadline(self, time: u64, now: u64) -> (s: Server<H, E>)
        requires
            now + time * 1000 <= u64::MAX,
        ensures
            s.deadline == Some(Deadline { expiry: (now + time * 1000) as u64,
                last_refresh: now }),
            s.handlers == self.handlers,
            s.expect_handlers == self.expect_handlers,
    {
        let mut s = self;
        s.deadline = Some(Deadline::with_deadline(time, now));
        s
    }

    /// Whether the expectation checks are consulted for a request with these
    /// headers: it carries `Expect`, and there are checks.
    pub open spec fn expects(&self, headers: Seq<Entry>) -> bool {
        lookup(headers, "Expect"@) is Some && self.expect_handlers@.len() > 0
    }

    /// The handler that a start line leads to: the one under the method and
    /// the resource of a request line, and none for a status line.
    pub open spec fn routed(&self, status: Status) -> Option<H> {
        match status {
            Status::Request { method, resource } => self.route(method, resource),
            Status::Response { .. } => None,
        }
    }

    /// Whether `r` and the bytes `sent` are what comes of handing `req` to
    /// `handler`: the handler's error with nothing sent, or for a response of
    /// the handler what sending it comes to.
    pub open spec fn handled(
        &self,
        handler: H,
        req: ServerRequest,
        r: Result<(), Error>,
        sent: Seq<u8>,
    ) -> bool {
        ||| (r matches Err(e) && call_ensures(
            handler,
            (&req,),
            Err::<ServerResponse, Error>(e),
        ) && sent == Seq::<u8>::empty())
        ||| exists|resp: ServerResponse| #[trigger]
            call_ensures(handler, (&req,), Ok::<ServerResponse, Error>(resp))
                && match response_wire(req.info.headers@, resp) {
                Some(bytes) => r is Ok && sent == bytes,
                None => (r matches Err(e) && is_io(e, IoKind::Other)) && sent == Seq::<
                    u8,
                >::empty(),
            }
    }

    /// Whether `r` and the bytes `sent` are what comes of handing the request
    /// with the head `info` and the body `body` to `handler`.
    pub open spec fn served(
        &self,
        handler: H,
        info: GeneralInfo,
        body: Seq<u8>,
        r: Result<(), Error>,
        sent: Seq<u8>,
    ) -> bool {
        exists|req: ServerRequest|
            req.info == info && (req.body matches crate::body::Body::Bytes(b) && b@ == body)
                && #[trigger] self.handled(handler, req, r, sent)
    }

    /// Whether `r` and the bytes `sent` are what comes of accepting a request
    /// with the head `info`. Where the checks are consulted, some verdict
    /// that they settle is answered; where they are not, the exchange goes on
    /// and nothing is sent.
    pub open spec fn accepted(
        &self,
        info: GeneralInfo,
        r: Result<Option<GeneralInfo>, Error>,
        sent: Seq<u8>,
    ) -> bool {
        if self.expects(info.headers@) {
            exists|at: int, v: Result<(i32, Option<String>), Error>| #[trigger]
                settles(self.expect_handlers@, info, at, v) && answers(v, info, r, sent)
        } else {
            r == Ok::<Option<GeneralInfo>, Error>(Some(info)) && sent == Seq::<u8>::empty()
        }
    }

    /// Begins an exchange: reads the head of the request and, where the
    /// request carries `Expect` and checks are registered, consults them and
    /// answers their verdict. Returns the head where the exchange goes on
    /// with the body, and `None` where the verdict has ended it. The input
    /// behind the head is not touched.
    pub fn accept(&self, stream: &mut Stream) -> (r: Result<Option<GeneralInfo>, Error>)
        requires
            self.wf(),
        ensures
            final(stream).peer_closed() == old(stream).peer_closed(),
            match head(old(stream).unread()) {
                Head::Parsed { status, headers, used } => {
                    let sent = final(stream).written().skip(old(stream).written().len() as int);
                    &&& final(stream).unread() == old(stream).unread().skip(used)
                    &&& final(stream).written() == old(stream).written() + sent
                    &&& exists|info: GeneralInfo|
                        info.status@ == status && info.headers@ == headers
                            && #[trigger] self.accepted(info, r, sent)
                },
                Head::NoStatusLine => r matches Err(e) && e is NoStatusLineInResponse,
                Head::Cut => r matches Err(e) && is_io(e, IoKind::UnexpectedEof),
                Head::Short => r matches Err(e) && is_io(e, old(stream).shortage()),
            },
            !(head(old(stream).unread()) is Parsed) ==> final(stream).unread() == old(
                stream).unread() && final(stream).written() == old(stream).written(),
    {
        let ghost before = stream.written();
        let info = match process_lines(stream) {
            Ok(info) => info,
            Err(e) => {
                return Err(e);
            },
        };
        if info.headers.get("Expect").is_some() && self.expect_handlers.len() > 0 {
            let verdict = consult(&self.expect_handlers, &info);
            let ghost v = verdict;
            let ghost at = choose|at: int| settles(self.expect_handlers@, info, at, v);
            let r = match verdict {
                Err(e) => Err(e),
                Ok((code, message)) => match answer_expectation(stream, code, message) {
                    Err(e) => Err(e),
                    Ok(true) => Ok(Some(info)),
                    Ok(false) => Ok(None),
                },
            };
            proof {
                let sent = stream.written().skip(before.len() as int);
                match v {
                    Ok((code, message)) => {
                        let text = match message {
                            Some(m) => Some(m@),
                            None => None,
                        };
                        match verdict_bytes(code, text) {
                            Some(bytes) => {
                                assert(sent =~= bytes);
                            },
                            None => {
                                assert(sent =~= Seq::<u8>::empty());
                            },
                        }
                    },
                    Err(_) => {
                        assert(sent =~= Seq::<u8>::empty());
                    },
                }
                assert(stream.written() =~= before + sent);
                assert(settles(self.expect_handlers@, info, at, v));
                assert(answers(v, info, r, sent));
                assert(self.accepted(info, r, sent));
            }
            r
        } else {
            let r = Ok(Some(info));
            proof {
                let sent = stream.written().skip(before.len() as int);
                assert(sent =~= Seq::<u8>::empty());
                assert(stream.written() =~= before + sent);
                assert(self.accepted(info, r, sent));
            }
            r
        }
    }

    /// Goes on with an exchange whose head is `info`: reads the body of the
    /// request, and where a handler stands under its method and resource,
    /// calls the handler and sends its response. A request without handler
    /// gets no response.
    pub fn process_request(&self, stream: &mut Stream, info: GeneralInfo) -> (r: Result<(), Error>)
        requires
            self.wf(),
        ensures
            final(stream).peer_closed() == old(stream).peer_closed(),
            ({
                let sent = final(stream).written().skip(old(stream).written().len() as int);
                &&& final(stream).written() == old(stream).written() + sent
                &&& match intake(old(stream).unread(), old(stream).peer_closed(), info.headers@) {
                    Reception::Fault(end) => r matches Err(e) && reports(
                        e,
                        end,
                        old(stream).shortage(),
                    ) && sent == Seq::<u8>::empty(),
                    Reception::Undecodable => r matches Err(e) && is_io(e, IoKind::Other) && sent
                        == Seq::<u8>::empty(),
                    Reception::Body { body, rest } => final(stream).unread() == rest
                        && match self.routed(info.status@) {
                        None => r is Ok && sent == Seq::<u8>::empty(),
                        Some(handler) => self.served(handler, info, body, r, sent),
                    },
                }
            }),
    {
        let ghost before = stream.written();
        let req = match ServerRequest::new(stream, info) {
            Ok(req) => req,
            Err(e) => {
                proof {
                    assert(stream.written().skip(before.len() as int) =~= Seq::<u8>::empty());
                    assert(stream.written() =~= before + Seq::<u8>::empty());
                }
                return Err(e);
            },
        };
        let found: Option<&H> = match &req.info.status {
            StatusInfo::Request(method, resource) => {
                let i = self.position(method.as_str(), resource.as_str());
                if i < self.handlers.len() {
                    Some(&self.handlers[i].1)
                } else {
                    None
                }
            },
            StatusInfo::Response(_, _) => None,
        };
        assert(match found {
            Some(h) => self.routed(info.status@) == Some(*h),
            None => self.routed(info.status@) is None,
        });
        let r = match found {
            Some(handler) => match handler(&req) {
                Ok(resp) => {
                    let r = respond(stream, &req.info.headers, resp);
                    proof {
                        let sent = stream.written().skip(before.len() as int);
                        match response_wire(req.info.headers@, resp) {
                            Some(bytes) => {
                                assert(sent =~= bytes);
                            },
                            None => {
                                assert(sent =~= Seq::<u8>::empty());
                            },
                        }
                        assert(self.handled(*handler, req, r, sent));
                        assert(self.served(*handler, info, req.body->Bytes_0@, r, sent));
                    }
                    r
                },
                Err(e) => {
                    let r = Err(e);
                    proof {
                        let sent = stream.written().skip(before.len() as int);
                        assert(sent =~= Seq::<u8>::empty());
                        assert(self.handled(*handler, req, r, sent));
                        assert(self.served(*handler, info, req.body->Bytes_0@, r, sent));
                    }
                    r
                },
            },
            None => Ok(()),
        };
        proof {
            let sent = stream.written().skip(before.len() as int);
            assert(stream.written() =~= before + sent);
            if found is None {
                assert(sent =~= Seq::<u8>::empty());
            }
        }
        r
    }
}

} // verus!
