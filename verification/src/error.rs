//! The errors of the engine.

use vstd::prelude::*;
use vstd::string::StringExecFns;

verus! {

/// The kinds of transport failure that the engine tells apart.
#[derive(Debug, Clone, Copy, PartialEq, Eq, Structural)]
pub enum IoKind {
    /// The deadline of the connection has passed.
    TimedOut,
    /// The peer closed the connection in the middle of a message.
    UnexpectedEof,
    /// The connection was aborted; a secured channel closes this way.
    ConnectionAborted,
    /// The bytes received so far end in the middle of a message and the peer
    /// has not closed: more input is needed.
    WouldBlock,
    /// Any other failure.
    Other,
}

/// A transport failure: its kind and the text that describes it.
#[derive(Debug, Clone)]
pub struct IoError {
    /// What kind of failure it is.
    pub kind: IoKind,
    /// The description that came with it.
    pub message: String,
}

/// Represents errors that can occur throughout this library.
#[derive(Debug, Clone)]
pub enum Error {
    /// The URL holds an `@` with no colon before it.
    InvalidCredentialsInURL,
    /// A label of the host could not be converted to ASCII.
    DNSOverflow,
    /// A secured URL was requested and no secured transport is available.
    TLSNotEnabled,
    /// The message does not begin with a usable status or request line.
    NoStatusLineInResponse,
    /// A chunk frame of the body is malformed.
    ChunkError,
    /// The configured number of redirects has been followed already.
    MaxRedirectsHit,
    /// A redirect response carries no `Location` header.
    NoLocationHeader,
    /// The host could not be resolved or reached.
    ConnectionFailed(String),
    /// The status code has no entry in the table of reason phrases.
    HTTPStatusCodeNotRecognized,
    /// Any transport failure.
    Io(IoError),
}

impl IoError {
    /// A failure of the given kind with the given description.
    pub fn new(kind: IoKind, message: &str) -> (r: IoError)
        ensures
            r.kind == kind,
            r.message@ == message@,
    {
        IoError { kind, message: message.to_owned() }
    }

    /// A copy of the failure.
    pub fn copy(&self) -> (r: IoError)
        ensures
            r == *self,
    {
        IoError { kind: self.kind, message: self.message.clone() }
    }

    /// The failure that stands for an error of the library when it travels as a
    /// transport failure: of kind `Other`, described by the error's message.
    pub fn from_error(err: &Error) -> (r: IoError)
        ensures
            r.kind == IoKind::Other,
            r.message@ == err.text(),
    {
        IoError { kind: IoKind::Other, message: err.message() }
    }
}

impl Error {
    /// The transport failure of the given kind, as an error.
    pub fn io(kind: IoKind, message: &str) -> (r: Error)
        ensures
            r == Error::Io(IoError { kind, message: r->Io_0.message }),
            r->Io_0.message@ == message@,
    {
        Error::Io(IoError::new(kind, message))
    }

    /// The text that describes the error.
    pub open spec fn text(&self) -> Seq<char> {
        match self {
            Error::InvalidCredentialsInURL => "URL contains invalid credentials format. Should look like: '[?]USERNAME:PASSWORD@HOST[?]'"@,
            Error::DNSOverflow => "Requested host could not be converted to ASCII, too many bytes"@,
            Error::TLSNotEnabled => "Attempting to connect to secure URL without tls feature enabled"@,
            Error::NoStatusLineInResponse => "Response does not contain a status line"@,
            Error::ChunkError => "Problem decoding chunk of response"@,
            Error::MaxRedirectsHit => "Your request hit maximum number of redirects. You can increase this limit by using .set_max_redirects(usize)"@,
            Error::NoLocationHeader => "Redirect location header missing"@,
            Error::ConnectionFailed(msg) => msg@,
            Error::HTTPStatusCodeNotRecognized => "HTTP status code supplied is not supported or does not exist."@,
            Error::Io(e) => "Network error: "@ + e.message@,
        }
    }

    /// The text that describes the error, as a string.
    pub fn message(&self) -> (r: String)
        ensures
            r@ == self.text(),
    {
        match self {
            Error::InvalidCredentialsInURL => "URL contains invalid credentials format. Should look like: '[?]USERNAME:PASSWORD@HOST[?]'".to_owned(),
            Error::DNSOverflow => "Requested host could not be converted to ASCII, too many bytes".to_owned(),
            Error::TLSNotEnabled => "Attempting to connect to secure URL without tls feature enabled".to_owned(),
            Error::NoStatusLineInResponse => "Response does not contain a status line".to_owned(),
            Error::ChunkError => "Problem decoding chunk of response".to_owned(),
            Error::MaxRedirectsHit => "Your request hit maximum number of redirects. You can increase this limit by using .set_max_redirects(usize)".to_owned(),
            Error::NoLocationHeader => "Redirect location header missing".to_owned(),
            Error::ConnectionFailed(msg) => msg.clone(),
            Error::HTTPStatusCodeNotRecognized => "HTTP status code supplied is not supported or does not exist.".to_owned(),
            Error::Io(e) => {
                let mut s = "Network error: ".to_owned();
                s.append(e.message.as_str());
                s
            },
        }
    }

    /// The source of the error: the transport failure behind it, if it has one.
    pub fn source(&self) -> (r: Option<&IoError>)
        ensures
            r == (match self {
                Error::Io(e) => Some(e),
                _ => None,
            }),
    {
        match self {
            Error::Io(err) => Some(err),
            _ => None,
        }
    }
}

impl From<IoError> for Error {
    /// A transport failure as an error.
    fn from(err: IoError) -> (r: Error) {
        Error::Io(err)
    }
}

impl vstd::std_specs::convert::FromSpecImpl<IoError> for Error {
    open spec fn obeys_from_spec() -> bool {
        true
    }

    open spec fn from_spec(err: IoError) -> Error {
        Error::Io(err)
    }
}

} // verus!
