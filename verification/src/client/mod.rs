//! The client: requests by method, and the responses to them.

use vstd::prelude::*;
use crate::error::Error;
use crate::url::url_of;

pub mod request;
pub mod response;

pub use self::request::{ClientRequest, Outcome};
pub use self::response::ClientResponse;

verus! {

/// Create a GET Request.
pub fn get(url: &str) -> (r: Result<ClientRequest, Error>)
    ensures
        r is Ok <==> url_of(url@) is Some,
        r matches Ok(req) ==> req.fresh("GET"@, url_of(url@)->0) && req.deadline is None,
        r matches Err(e) ==> e is InvalidCredentialsInURL,
{
    ClientRequest::new("GET", url)
}

/// Create a POST Request.
pub fn post(url: &str) -> (r: Result<ClientRequest, Error>)
    ensures
        r is Ok <==> url_of(url@) is Some,
        r matches Ok(req) ==> req.fresh("POST"@, url_of(url@)->0) && req.deadline is None,
        r matches Err(e) ==> e is InvalidCredentialsInURL,
{
    ClientRequest::new("POST", url)
}

/// Create a PUT Request.
pub fn put(url: &str) -> (r: Result<ClientRequest, Error>)
    ensures
        r is Ok <==> url_of(url@) is Some,
        r matches Ok(req) ==> req.fresh("PUT"@, url_of(url@)->0) && req.deadline is None,
        r matches Err(e) ==> e is InvalidCredentialsInURL,
{
    ClientRequest::new("PUT", url)
}

/// Create a PATCH Request.
pub fn patch(url: &str) -> (r: Result<ClientRequest, Error>)
    ensures
        r is Ok <==> url_of(url@) is Some,
        r matches Ok(req) ==> req.fresh("PATCH"@, url_of(url@)->0) && req.deadline is None,
        r matches Err(e) ==> e is InvalidCredentialsInURL,
{
    ClientRequest::new("PATCH", url)
}

/// Create a DELETE Request.
pub fn delete(url: &str) -> (r: Result<ClientRequest, Error>)
    ensures
        r is Ok <==> url_of(url@) is Some,
        r matches Ok(req) ==> req.fresh("DELETE"@, url_of(url@)->0) && req.deadline is None,
        r matches Err(e) ==> e is InvalidCredentialsInURL,
{
    ClientRequest::new("DELETE", url)
}

/// Create a HEAD Request.
pub fn head(url: &str) -> (r: Result<ClientRequest, Error>)
    ensures
        r is Ok <==> url_of(url@) is Some,
        r matches Ok(req) ==> req.fresh("HEAD"@, url_of(url@)->0) && req.deadline is None,
        r matches Err(e) ==> e is InvalidCredentialsInURL,
{
    ClientRequest::new("HEAD", url)
}

/// Create a TRACE Request.
pub fn trace(url: &str) -> (r: Result<ClientRequest, Error>)
    ensures
        r is Ok <==> url_of(url@) is Some,
        r matches Ok(req) ==> req.fresh("TRACE"@, url_of(url@)->0) && req.deadline is None,
        r matches Err(e) ==> e is InvalidCredentialsInURL,
{
    ClientRequest::new("TRACE", url)
}

/// Create a OPTIONS Request.
pub fn options(url: &str) -> (r: Result<ClientRequest, Error>)
    ensures
        r is Ok <==> url_of(url@) is Some,
        r matches Ok(req) ==> req.fresh("OPTIONS"@, url_of(url@)->0) && req.deadline is None,
        r matches Err(e) ==> e is InvalidCredentialsInURL,
{
    ClientRequest::new("OPTIONS", url)
}

/// Create a CONNECT Request.
pub fn connect(url: &str) -> (r: Result<ClientRequest, Error>)
    ensures
        r is Ok <==> url_of(url@) is Some,
        r matches Ok(req) ==> req.fresh("CONNECT"@, url_of(url@)->0) && req.deadline is None,
        r matches Err(e) ==> e is InvalidCredentialsInURL,
{
    ClientRequest::new("CONNECT", url)
}

} // verus!
