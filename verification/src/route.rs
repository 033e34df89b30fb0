//! Routes: what a node of the tree holds for a path.

use vstd::prelude::*;
use crate::handler::{run_stages, stages_may_end, Middleware, NewHandler};
use crate::matcher::{MethodOnlyRouteMatcher, RouteMismatch};
use crate::message::{Request, Response};
use crate::method::{method_views, HttpMethod, MethodView};
use crate::pipeline::{chain_fits, chain_stages, PipelineHandleChain, PipelineSet};
use crate::tree::PathParam;

verus! {

/// Whether a route ends the routing or hands the rest of the path on.
#[derive(Clone, Copy, Debug, PartialEq, Eq, Structural)]
pub enum Delegation {
    /// The route answers the request.
    Internal,
    /// The route hands the request to a router of its own.
    External,
}

/// A handler factory bound to the chain of pipelines that wrap its handlers.
pub struct Dispatcher<NH> {
    new_handler: NH,
    pipeline_chain: PipelineHandleChain,
}

impl<NH> Dispatcher<NH> {
    /// The handler factory.
    pub closed spec fn handler(&self) -> NH {
        self.new_handler
    }

    /// The chain of pipelines, the outermost first.
    pub closed spec fn chain(&self) -> Seq<int> {
        self.pipeline_chain@
    }

    /// Binds a handler factory to a chain.
    pub fn new(new_handler: NH, pipeline_chain: PipelineHandleChain) -> (dispatcher: Dispatcher<NH>)
        ensures
            dispatcher.handler() == new_handler,
            dispatcher.chain() == pipeline_chain@,
    {
        Dispatcher { new_handler, pipeline_chain }
    }

    /// Runs the middleware of the chain's pipelines in order, the first
    /// pipeline of the chain first, and then a fresh handler, unless a
    /// middleware answers first.
    pub fn dispatch<S, M: Middleware<S>>(
        &self,
        pipelines: &PipelineSet<M>,
        state: S,
        request: &Request,
        params: &Vec<PathParam>,
    ) -> (out: (S, Response)) where NH: NewHandler<S>
        requires
            chain_fits(self.chain(), pipelines@.len()),
        ensures
            stages_may_end(
                chain_stages(pipelines@, self.chain()),
                0,
                &self.handler(),
                state,
                request,
                params,
                out,
            ),
    {
        let stages = self.pipeline_chain.stages(pipelines);
        assert(Seq::new(stages@.len(), |i: int| *stages@[i]) =~= chain_stages(
            pipelines@,
            self.chain(),
        ));
        run_stages(&stages, &self.new_handler, state, request, params)
    }
}

/// A route: a matcher, a dispatcher and a delegation flag.
pub struct Route<NH> {
    matcher: MethodOnlyRouteMatcher,
    dispatcher: Dispatcher<NH>,
    delegation: Delegation,
}

impl<NH> Route<NH> {
    /// The methods for which the route is registered.
    pub closed spec fn methods(&self) -> Seq<MethodView> {
        self.matcher@
    }

    /// The handler factory of the route.
    pub closed spec fn handler(&self) -> NH {
        self.dispatcher.handler()
    }

    /// The chain of pipelines that wrap the route, the outermost first.
    pub closed spec fn chain(&self) -> Seq<int> {
        self.dispatcher.chain()
    }

    /// Whether the route ends the routing.
    pub closed spec fn delegated(&self) -> Delegation {
        self.delegation
    }

    /// Puts a route together.
    pub fn new(matcher: MethodOnlyRouteMatcher, dispatcher: Dispatcher<NH>, delegation: Delegation) -> (route:
        Route<NH>)
        ensures
            route.methods() == matcher@,
            route.handler() == dispatcher.handler(),
            route.chain() == dispatcher.chain(),
            route.delegated() == delegation,
    {
        Route { matcher, dispatcher, delegation }
    }

    /// Whether the route takes the request: its method is one of the route's.
    pub fn is_match(&self, request: &Request) -> (result: Result<(), RouteMismatch>)
        ensures
            result is Ok <==> self.methods().contains(request.method@),
            result is Err ==> result == Err::<(), RouteMismatch>(RouteMismatch::MethodNotAllowed),
    {
        self.matcher.is_match(request)
    }

    /// The methods for which the route is registered.
    pub fn allowed(&self) -> (methods: Vec<HttpMethod>)
        ensures
            method_views(methods@) == self.methods(),
    {
        self.matcher.methods()
    }

    /// Whether the route ends the routing.
    pub fn delegation(&self) -> (delegation: Delegation)
        ensures
            delegation == self.delegated(),
    {
        self.delegation
    }

    /// Runs the route's pipelines and handler on a request.
    pub fn dispatch<S, M: Middleware<S>>(
        &self,
        pipelines: &PipelineSet<M>,
        state: S,
        request: &Request,
        params: &Vec<PathParam>,
    ) -> (out: (S, Response)) where NH: NewHandler<S>
        requires
            chain_fits(self.chain(), pipelines@.len()),
        ensures
            stages_may_end(
                chain_stages(pipelines@, self.chain()),
                0,
                &self.handler(),
                state,
                request,
                params,
                out,
            ),
    {
        self.dispatcher.dispatch(pipelines, state, request, params)
    }
}

} // verus!
