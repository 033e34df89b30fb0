//! Route matchers: which requests a route at a matched node accepts.

use vstd::prelude::*;
use crate::message::Request;
use crate::method::{clone_methods, contains_method, method_views, HttpMethod, MethodView};

verus! {

/// Why a route at the node that a request's path leads to does not take the
/// request.
#[derive(Clone, Copy, Debug, PartialEq, Eq, Structural)]
pub enum RouteMismatch {
    /// The route is not registered for the request's method.
    MethodNotAllowed,
}

/// Accepts a request by its method alone.
#[derive(Debug)]
pub struct MethodOnlyRouteMatcher {
    methods: Vec<HttpMethod>,
}

impl View for MethodOnlyRouteMatcher {
    type V = Seq<MethodView>;

    /// The methods that the matcher accepts, in the order given.
    closed spec fn view(&self) -> Seq<MethodView> {
        method_views(self.methods@)
    }
}

impl MethodOnlyRouteMatcher {
    /// A matcher that accepts the given methods.
    pub fn new(methods: Vec<HttpMethod>) -> (matcher: MethodOnlyRouteMatcher)
        ensures
            matcher@ == method_views(methods@),
    {
        MethodOnlyRouteMatcher { methods }
    }

    /// Accepts a request whose method is one of the matcher's.
    pub fn is_match(&self, request: &Request) -> (result: Result<(), RouteMismatch>)
        ensures
            result is Ok <==> self@.contains(request.method@),
            result is Err ==> result == Err::<(), RouteMismatch>(RouteMismatch::MethodNotAllowed),
    {
        if contains_method(&self.methods, &request.method) {
            Ok(())
        } else {
            Err(RouteMismatch::MethodNotAllowed)
        }
    }

    /// The methods that the matcher accepts.
    pub fn methods(&self) -> (methods: Vec<HttpMethod>)
        ensures
            method_views(methods@) == self@,
    {
        clone_methods(&self.methods)
    }
}

} // verus!
