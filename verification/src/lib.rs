//! A slim HTTP/1.1 engine for a client and a server: message framing, chunked
//! and gzip body codecs, deadlines, redirects and `Expect: 100-continue`.
//!
//! The engine works on bytes in memory. Whatever moves the bytes (a socket, a
//! secured channel) feeds a [`stream::Stream`] and sends what the engine
//! wrote to it.

use vstd::prelude::*;

pub mod body;
pub mod chunked;
pub mod chunked_laws;
pub mod client;
pub mod codec;
pub mod deadline;
pub mod error;
pub mod framer;
pub mod framer_laws;
pub mod headers;
pub mod multipart;
pub mod numeral;
pub mod server;
pub mod stream;
pub mod text;
pub mod transport;
pub mod url;

pub use crate::body::Body;
pub use crate::client::{
    connect, delete, get, head, options, patch, post, put, trace, ClientRequest, ClientResponse,
    Outcome,
};
pub use crate::error::{Error, IoError, IoKind};
pub use crate::headers::Headers;
pub use crate::multipart::Multipart;
pub use crate::server::{Server, ServerRequest, ServerResponse};

verus! {

/// What a start line says, as mathematics.
pub enum Status {
    /// A status line: code and reason phrase.
    Response { code: int, reason: Seq<char> },
    /// A request line: method and resource.
    Request { method: Seq<char>, resource: Seq<char> },
}

/// General status info.
#[derive(Debug, Clone, PartialEq)]
pub enum StatusInfo {
    /// General response status information (code, reason).
    Response(i32, String),
    /// General request status information (method, resource).
    Request(String, String),
}

impl View for StatusInfo {
    type V = Status;

    open spec fn view(&self) -> Status {
        match self {
            StatusInfo::Response(code, reason) => Status::Response {
                code: *code as int,
                reason: reason@,
            },
            StatusInfo::Request(method, resource) => Status::Request {
                method: method@,
                resource: resource@,
            },
        }
    }
}

/// The head of a message: start line and headers.
#[derive(Debug, Clone, PartialEq)]
pub struct GeneralInfo {
    /// HTTP status line or request line.
    pub status: StatusInfo,
    /// The headers.
    pub headers: Headers,
}

} // verus!
