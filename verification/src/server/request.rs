//! What a server receives: the head of a request and its body.

use vstd::prelude::*;
use crate::body::Body;
use crate::chunked::reports;
use crate::codec::{negotiate, plan_of, receive_body, received, Reception};
use crate::error::{Error, IoKind};
use crate::headers::{lookup, Entry};
use crate::multipart::{from_bytes, multipart_bytes, parts_of};
use crate::stream::{is_io, Stream};
use crate::text::{chars_of, find_char, split, string_of};
use crate::GeneralInfo;

verus! {

/// A request as the server received it.
#[derive(Debug, Clone, PartialEq)]
pub struct ServerRequest {
    /// Request line and headers.
    pub info: GeneralInfo,
    /// The body, with transfer and content encoding taken off.
    pub body: Body,
}

/// Whether a request with these headers has a body to read: it is chunked, or
/// it gives its length.
pub open spec fn has_body(headers: Seq<Entry>) -> bool {
    plan_of(headers).chunked || plan_of(headers).content_length is Some
}

/// The boundary of a multipart form body, as the content type gives it: what
/// stands between the first semicolon and the second, where
/// `multipart/form-data` stands before the first.
pub open spec fn form_boundary(headers: Seq<Entry>) -> Option<Seq<char>> {
    match lookup(headers, "Content-Type"@) {
        Some(value) => {
            let pieces = split(value, ';');
            if pieces.len() > 1 && pieces[0] == "multipart/form-data"@ {
                Some(pieces[1])
            } else {
                None
            }
        },
        None => None,
    }
}

/// The body as the request hands it to a handler: a multipart form body is
/// read and written again part by part; any other body is left as it came.
pub open spec fn shaped(headers: Seq<Entry>, raw: Seq<u8>) -> Seq<u8> {
    match form_boundary(headers) {
        Some(boundary) => multipart_bytes(boundary, parts_of(boundary, raw)),
        None => raw,
    }
}

/// What the body of a request with these headers is over `input`: read as
/// the headers plan it and shaped for the handler, or nothing where the
/// request has no body.
pub open spec fn intake(input: Seq<u8>, closed: bool, headers: Seq<Entry>) -> Reception {
    if has_body(headers) {
        match received(input, closed, plan_of(headers)) {
            Reception::Body { body, rest } => Reception::Body {
                body: shaped(headers, body),
                rest,
            },
            other => other,
        }
    } else {
        Reception::Body { body: shaped(headers, Seq::empty()), rest: input }
    }
}

impl ServerRequest {
    /// Reads the body of the request whose head is `info` from a stream that
    /// holds all of it. A request that is not chunked and gives no length has
    /// no body, and nothing is read.
    pub fn new(stream: &mut Stream, info: GeneralInfo) -> (r: Result<ServerRequest, Error>)
        ensures
            final(stream).peer_closed() == old(stream).peer_closed(),
            final(stream).written() == old(stream).written(),
            match intake(old(stream).unread(), old(stream).peer_closed(), info.headers@) {
                Reception::Body { body, rest } => r matches Ok(req) && req.info == info && (
                req.body matches Body::Bytes(b) && b@ == body) && final(stream).unread() == rest,
                Reception::Fault(end) => r matches Err(e) && reports(
                    e,
                    end,
                    old(stream).shortage(),
                ),
                Reception::Undecodable => r matches Err(e) && is_io(e, IoKind::Other),
            },
    {
        let plan = negotiate(&info.headers);
        let raw = if plan.chunked || plan.content_length.is_some() {
            match receive_body(stream, plan) {
                Ok(raw) => raw,
                Err(e) => {
                    return Err(e);
                },
            }
        } else {
            Vec::new()
        };
        let boundary = match info.headers.get("Content-Type") {
            Some(value) => {
                let chars = chars_of(value.as_str());
                let s = chars.as_slice();
                let first = find_char(s, ';', 0);
                proof {
                    crate::text::lemma_find_from(s@, ';', 0);
                }
                if first < s.len() {
                    let kind = vstd::slice::slice_subrange(s, 0, first);
                    let form = chars_of("multipart/form-data");
                    let second = find_char(s, ';', first + 1);
                    proof {
                        crate::text::lemma_find_from(s@, ';', first + 1);
                        let pieces = split(s@, ';');
                        assert(pieces[0] == kind@);
                        assert(crate::text::split_from(s@, ';', first + 1)[0] == s@.subrange(
                            first + 1,
                            second as int,
                        ));
                        assert(pieces[1] == s@.subrange(first + 1, second as int));
                    }
                    if crate::text::has_prefix(kind, form.as_slice())
                        && kind.len() == form.len() {
                        assert(kind@.take(form@.len() as int) =~= kind@);
                        Some(string_of(vstd::slice::slice_subrange(s, first + 1, second)))
                    } else {
                        assert(kind@.take(kind@.len() as int) =~= kind@);
                        None
                    }
                } else {
                    None
                }
            },
            None => None,
        };
        let body = match boundary {
            Some(boundary) => match from_bytes(boundary.as_str(), raw) {
                Ok(form) => form.to_bytes(),
                Err(e) => {
                    return Err(e);
                },
            },
            None => raw,
        };
        Ok(ServerRequest { info, body: Body::Bytes(body) })
    }
}

} // verus!
