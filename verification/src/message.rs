//! Requests and responses as the router sees them.

use vstd::prelude::*;
use crate::method::{method_views, HttpMethod, MethodView};

verus! {

/// The status of a response to a request that no registered path matches.
pub const NOT_FOUND: u16 = 404;

/// The status of a response to a request whose path is registered, but not
/// for its method.
pub const METHOD_NOT_ALLOWED: u16 = 405;

/// What of a request decides its route.
#[derive(Debug, PartialEq, Eq)]
pub struct Request {
    pub method: HttpMethod,
    pub path: String,
}

/// A response: its status, the methods that a `405` response allows, and
/// its body.
#[derive(Debug, PartialEq, Eq)]
pub struct Response {
    pub status: u16,
    pub allow: Vec<HttpMethod>,
    pub body: Vec<u8>,
}

impl Request {
    /// A request for `path` with `method`.
    pub fn new(method: HttpMethod, path: &str) -> (request: Request)
        ensures
            request.method@ == method@,
            request.path@ == path@,
    {
        Request { method, path: path.to_owned() }
    }
}

impl Response {
    /// Whether the response holds a status, a list of allowed methods and
    /// nothing else.
    pub open spec fn is_bare(&self, status: u16, allow: Seq<MethodView>) -> bool {
        &&& self.status == status
        &&& method_views(self.allow@) == allow
        &&& self.body@.len() == 0
    }

    /// A response with a status and nothing else.
    pub fn with_status(status: u16) -> (response: Response)
        ensures
            response.is_bare(status, Seq::empty()),
    {
        let response = Response { status, allow: Vec::new(), body: Vec::new() };
        assert(method_views(response.allow@) =~= Seq::empty());
        response
    }

    /// A `405` response that names the methods that the path allows.
    pub fn method_not_allowed(allow: Vec<HttpMethod>) -> (response: Response)
        ensures
            response.is_bare(METHOD_NOT_ALLOWED, method_views(allow@)),
    {
        Response { status: METHOD_NOT_ALLOWED, allow, body: Vec::new() }
    }
}

} // verus!
