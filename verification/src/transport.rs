//! The types of hyper, the HTTP library below the router, at the router's
//! border. The router works on its own [`HttpMethod`], [`Request`] and
//! [`Response`]; here a request is taken over from hyper and a status is
//! handed back to it. Verus sees nothing inside hyper's values, so what is
//! said of them below is believed, not proved.

use vstd::prelude::*;
use crate::message::{Request, Response};
use crate::method::HttpMethod;

verus! {

/// hyper's request method.
#[verifier::external_type_specification]
#[verifier::external_body]
pub struct ExMethod(hyper::Method);

/// hyper's status code.
#[verifier::external_type_specification]
#[verifier::external_body]
pub struct ExStatusCode(hyper::StatusCode);

/// Tells the variants of `hyper::Method` apart and gives the variant of the
/// same name; an extension keeps its token. Nothing is claimed of the
/// result.
#[verifier::external_body]
fn method_of(method: hyper::Method) -> (own: HttpMethod) {
    match method {
        hyper::Method::Options => HttpMethod::Options,
        hyper::Method::Get => HttpMethod::Get,
        hyper::Method::Post => HttpMethod::Post,
        hyper::Method::Put => HttpMethod::Put,
        hyper::Method::Delete => HttpMethod::Delete,
        hyper::Method::Head => HttpMethod::Head,
        hyper::Method::Trace => HttpMethod::Trace,
        hyper::Method::Connect => HttpMethod::Connect,
        hyper::Method::Patch => HttpMethod::Patch,
        hyper::Method::Extension(token) => HttpMethod::Extension(token),
    }
}

/// Calls `hyper::StatusCode::try_from`, which gives a status code for the
/// numbers from 100 to 599 and an error for every other. Which code it
/// gives is not claimed.
#[verifier::external_body]
fn status_of(number: u16) -> (code: Option<hyper::StatusCode>)
    ensures
        code is Some <==> 100 <= number <= 599,
{
    match hyper::StatusCode::try_from(number) {
        Ok(code) => Some(code),
        Err(_) => None,
    }
}

impl Request {
    /// A request for `path` with the method that hyper read.
    pub fn from_hyper(method: hyper::Method, path: &str) -> (request: Request)
        ensures
            request.path@ == path@,
    {
        Request { method: method_of(method), path: path.to_owned() }
    }
}

impl Response {
    /// The status of the response as hyper's status code, where it is one:
    /// a number from 100 to 599.
    pub fn hyper_status(&self) -> (code: Option<hyper::StatusCode>)
        ensures
            code is Some <==> 100 <= self.status <= 599,
    {
        status_of(self.status)
    }
}

} // verus!
