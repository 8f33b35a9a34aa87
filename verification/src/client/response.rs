//! What a client receives: the head of a response and its body.

use vstd::prelude::*;
use crate::body::Body;
use crate::chunked::reports;
use crate::codec::{negotiate, plan_of, receive_body, received, Reception};
use crate::error::{Error, IoKind};
use crate::framer::{head, process_lines, Head};
use crate::headers::{without, Entry};
use crate::stream::{is_io, Stream};
use crate::{GeneralInfo, Status, StatusInfo};

verus! {

/// A response as the client received it.
#[derive(Debug, Clone, PartialEq)]
pub struct ClientResponse {
    /// Status line and headers, without the hop-by-hop `Transfer-Encoding`.
    pub info: GeneralInfo,
    /// The body, with transfer and content encoding taken off.
    pub body: Body,
}

/// Whether the body of a message with this start line is read: a response
/// with a code of at most 300 or at least 308.
pub open spec fn reads_body(status: Status) -> bool {
    status matches Status::Response { code, .. } && (code <= 300 || code >= 308)
}

impl ClientResponse {
    /// The status code; zero where the start line is no status line.
    pub open spec fn code(&self) -> int {
        match self.info.status@ {
            Status::Response { code, .. } => code,
            Status::Request { .. } => 0,
        }
    }

    /// The status code; zero where the start line is no status line.
    pub fn status_code(&self) -> (c: i32)
        ensures
            c == self.code(),
    {
        match &self.info.status {
            StatusInfo::Response(code, _) => *code,
            StatusInfo::Request(_, _) => 0,
        }
    }

    /// Whether this response has the given start line, the given headers
    /// without the hop-by-hop `Transfer-Encoding`, and the given bytes as its
    /// body.
    pub open spec fn made_of(&self, status: Status, headers: Seq<Entry>, body: Seq<u8>) -> bool {
        &&& self.info.status@ == status
        &&& self.info.headers@ == without(headers, "Transfer-Encoding"@)
        &&& self.body matches Body::Bytes(b) && b@ == body
    }

    /// Reads a response from a stream that holds all of it: the head, then
    /// the body as the headers plan it. The body of a response with a code
    /// from 301 to 307 is not read.
    pub fn new(stream: Stream) -> (r: Result<ClientResponse, Error>)
        ensures
            match head(stream.unread()) {
                Head::Parsed { status, headers, used } => {
                    if reads_body(status) {
                        match received(
                            stream.unread().skip(used),
                            stream.peer_closed(),
                            plan_of(headers),
                        ) {
                            Reception::Body { body, rest } => r matches Ok(resp) && resp.made_of(
                                status,
                                headers,
                                body,
                            ),
                            Reception::Fault(end) => r matches Err(e) && reports(
                                e,
                                end,
                                stream.shortage(),
                            ),
                            Reception::Undecodable => r matches Err(e) && is_io(e, IoKind::Other),
                        }
                    } else {
                        r matches Ok(resp) && resp.made_of(status, headers, Seq::empty())
                    }
                },
                Head::NoStatusLine => r matches Err(e) && e is NoStatusLineInResponse,
                Head::Cut => r matches Err(e) && is_io(e, IoKind::UnexpectedEof),
                Head::Short => r matches Err(e) && is_io(e, stream.shortage()),
            },
    {
        let mut stream = stream;
        let mut info = match process_lines(&mut stream) {
            Ok(info) => info,
            Err(e) => {
                return Err(e);
            },
        };
        let plan = negotiate(&info.headers);
        let wanted = match &info.status {
            StatusInfo::Response(code, _) => *code <= 300 || *code >= 308,
            StatusInfo::Request(_, _) => false,
        };
        let body = if wanted {
            match receive_body(&mut stream, plan) {
                Ok(body) => body,
                Err(e) => {
                    return Err(e);
                },
            }
        } else {
            Vec::new()
        };
        info.headers.remove("Transfer-Encoding");
        Ok(ClientResponse { info, body: Body::Bytes(body) })
    }
}

} // verus!
