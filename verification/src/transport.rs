//! What is decided before and around a connection: whether it is secured,
//! which address it goes to, how long connecting may take, and what a failed
//! read means.

use vstd::prelude::*;
use crate::deadline::{close_notify, is_close_notify, Deadline};
use crate::error::{Error, IoError};

verus! {

/// The two kinds of connection.
#[derive(Debug, Clone, Copy, PartialEq, Eq, Structural)]
pub enum Transport {
    /// A plain connection.
    Plain,
    /// A connection secured by TLS.
    Secured,
}

/// The kind of connection for a target: secured where the target asks for
/// it. A secured target fails where no secured transport is available, before
/// anything is sent.
pub fn choose_transport(https: bool, tls_available: bool) -> (r: Result<Transport, Error>)
    ensures
        r is Err <==> https && !tls_available,
        r matches Err(e) ==> e is TLSNotEnabled,
        r matches Ok(t) ==> t == if https {
            Transport::Secured
        } else {
            Transport::Plain
        },
{
    if !https {
        Ok(Transport::Plain)
    } else if tls_available {
        Ok(Transport::Secured)
    } else {
        Err(Error::TLSNotEnabled)
    }
}

/// The address to connect to, of those that the host resolved to: the first.
/// A host that resolved to none fails as a connection failure that names the
/// host.
pub fn first_address<A>(addresses: Vec<A>, host: &str) -> (r: Result<A, Error>)
    ensures
        r is Ok <==> addresses@.len() > 0,
        r matches Ok(a) ==> a == addresses@[0],
        r matches Err(e) ==> e matches Error::ConnectionFailed(m) && m@ == "No ip address for "@
            + host@,
{
    let mut addresses = addresses;
    if addresses.len() == 0 {
        let mut message = "No ip address for ".to_owned();
        vstd::string::StringExecFns::append(&mut message, host);
        return Err(Error::ConnectionFailed(message));
    }
    Ok(addresses.swap_remove(0))
}

impl Deadline {
    /// The time that is left at `now`, in milliseconds; `None` once the
    /// deadline has passed.
    pub fn remaining(&self, now: u64) -> (r: Option<u64>)
        ensures
            r == if self.expired(now) {
                None
            } else {
                Some((self.expiry - now) as u64)
            },
    {
        if self.expiry <= now {
            None
        } else {
            Some(self.expiry - now)
        }
    }
}

/// What a read on the transport comes to. A read that fails because the peer
/// has closed a secured channel has read the end of the input: no bytes. Any
/// other failure is a transport failure.
pub fn settle_read(outcome: Result<usize, IoError>) -> (r: Result<usize, Error>)
    ensures
        r == (match outcome {
            Ok(n) => Ok::<usize, Error>(n),
            Err(e) => if close_notify(e) {
                Ok::<usize, Error>(0)
            } else {
                Err::<usize, Error>(Error::Io(e))
            },
        }),
{
    match outcome {
        Ok(n) => Ok(n),
        Err(e) => {
            if is_close_notify(&e) {
                Ok(0)
            } else {
                Err(Error::Io(e))
            }
        },
    }
}

/// What a write on the transport comes to, one call of many that send all of
/// a message. A write that takes nothing has hit the end of the transport.
pub fn settle_write(outcome: Result<usize, IoError>) -> (r: Result<usize, Error>)
    ensures
        match outcome {
            Ok(n) => if n == 0 {
                r matches Err(e) && crate::stream::is_io(e, crate::error::IoKind::UnexpectedEof)
            } else {
                r == Ok::<usize, Error>(n)
            },
            Err(e) => r == Err::<usize, Error>(Error::Io(e)),
        },
{
    match outcome {
        Ok(n) => {
            if n == 0 {
                Err(Error::io(crate::error::IoKind::UnexpectedEof, ""))
            } else {
                Ok(n)
            }
        },
        Err(e) => Err(Error::Io(e)),
    }
}

} // verus!
