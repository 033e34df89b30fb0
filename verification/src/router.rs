//! The finished router: from a request to the route that takes it, and from
//! there to the response.

use vstd::prelude::*;
use crate::builder::routes_fit;
use crate::finalizer::{finalizer_may_end, ResponseExtender, ResponseFinalizer};
use crate::handler::{stages_may_end, Middleware, NewHandler};
use crate::message::{Request, Response, METHOD_NOT_ALLOWED, NOT_FOUND};
use crate::method::{method_views, HttpMethod, MethodView};
use crate::path::{path_segments, split_path};
use crate::pipeline::{chain_stages, PipelineSet};
use crate::route::Route;
use crate::tree::{param_views, PathParam, Tree};
use crate::tree_model::{bindings, is_tree, lookup, NodeView};

verus! {

/// How a request is resolved.
pub enum Resolution {
    /// The route at place `route` of the node at place `node` takes the
    /// request; `params` is what the dynamic segments on the way bound.
    Dispatch { node: int, route: int, params: Seq<(Seq<char>, Seq<char>)> },
    /// No node with routes stands for the path.
    NotFound,
    /// The path leads to a node whose routes do not take the method;
    /// `allowed` are the methods that they take.
    MethodMismatch { allowed: Seq<MethodView> },
}

/// Whether the route at `r` is the first of `routes` that takes `method`.
pub open spec fn accepts_first<NH>(routes: Seq<Route<NH>>, method: MethodView, r: int) -> bool {
    &&& 0 <= r < routes.len()
    &&& routes[r].methods().contains(method)
    &&& forall|j: int| 0 <= j < r ==> !(#[trigger] routes[j]).methods().contains(method)
}

/// The methods of all of `routes`, route after route.
pub open spec fn allowed_methods<NH>(routes: Seq<Route<NH>>) -> Seq<MethodView>
    decreases routes.len(),
{
    if routes.len() == 0 {
        Seq::empty()
    } else {
        allowed_methods(routes.drop_last()) + routes.last().methods()
    }
}

/// How a request with `method` for `path` is resolved over `nodes`: the path
/// is followed through the tree; at the node that it leads to, the first
/// route that takes the method is chosen.
pub open spec fn resolve<NH>(nodes: Seq<NodeView<Route<NH>>>, method: MethodView, path: Seq<char>) -> Resolution {
    let segments = path_segments(path);
    match lookup(nodes, segments) {
        None => Resolution::NotFound,
        Some(node) => {
            let routes = nodes[node].routes;
            if routes.len() == 0 {
                Resolution::NotFound
            } else if exists|r: int| accepts_first(routes, method, r) {
                Resolution::Dispatch {
                    node,
                    route: choose|r: int| accepts_first(routes, method, r),
                    params: bindings(nodes[node].pattern, segments),
                }
            } else {
                Resolution::MethodMismatch { allowed: allowed_methods(routes) }
            }
        },
    }
}

/// Where the router sends a request.
#[derive(Debug, PartialEq, Eq)]
pub enum Routed {
    /// To the route at place `route` of the node at place `node`, with what
    /// the dynamic segments of its path bound.
    Dispatch { node: usize, route: usize, params: Vec<PathParam> },
    /// Nowhere: no node with routes stands for the path.
    NotFound,
    /// Nowhere: the routes for the path take other methods, these.
    MethodMismatch { allowed: Vec<HttpMethod> },
}

impl View for Routed {
    type V = Resolution;

    open spec fn view(&self) -> Resolution {
        match self {
            Routed::Dispatch { node, route, params } => Resolution::Dispatch {
                node: *node as int,
                route: *route as int,
                params: param_views(params@),
            },
            Routed::NotFound => Resolution::NotFound,
            Routed::MethodMismatch { allowed } => Resolution::MethodMismatch {
                allowed: method_views(allowed@),
            },
        }
    }
}

/// Whether `out` can be what the pipelines and the handler of `route` make
/// of `request`, given `state` and the bound values `params`.
pub open spec fn route_may_answer<S, M: Middleware<S>, NH: NewHandler<S>>(
    route: Route<NH>,
    pipelines: Seq<Seq<M>>,
    params: Seq<(Seq<char>, Seq<char>)>,
    state: S,
    request: &Request,
    out: (S, Response),
) -> bool {
    exists|bound: Vec<PathParam>| #[trigger]
        param_views(bound@) == params && stages_may_end(
            chain_stages(pipelines, route.chain()),
            0,
            &route.handler(),
            state,
            request,
            &bound,
            out,
        )
}

/// Whether `out` can be what the finalizer makes of the bare response with
/// `status` that allows `allowed`.
pub open spec fn fallback_may_answer<S, F: ResponseExtender<S>>(
    extenders: Map<u16, F>,
    status: u16,
    allowed: Seq<MethodView>,
    state: S,
    out: (S, Response),
) -> bool {
    exists|bare: Response| #[trigger]
        bare.is_bare(status, allowed) && finalizer_may_end(extenders, state, bare, out)
}

/// Whether `out` can be the answer to `request`, given `state`: where a
/// route takes the request, what its pipelines and handler make of it; else
/// what the finalizer makes of the bare `404` or `405` response.
pub open spec fn may_answer<S, M: Middleware<S>, NH: NewHandler<S>, F: ResponseExtender<S>>(
    nodes: Seq<NodeView<Route<NH>>>,
    pipelines: Seq<Seq<M>>,
    extenders: Map<u16, F>,
    state: S,
    request: &Request,
    out: (S, Response),
) -> bool {
    match resolve(nodes, request.method@, request.path@) {
        Resolution::Dispatch { node, route, params } => route_may_answer(
            nodes[node].routes[route],
            pipelines,
            params,
            state,
            request,
            out,
        ),
        Resolution::NotFound => fallback_may_answer(
            extenders,
            NOT_FOUND,
            Seq::empty(),
            state,
            out,
        ),
        Resolution::MethodMismatch { allowed } => fallback_may_answer(
            extenders,
            METHOD_NOT_ALLOWED,
            allowed,
            state,
            out,
        ),
    }
}

/// The finished router: the tree of routes, the pipelines and the response
/// finalizer. Nothing in it changes any more.
pub struct Router<M, NH, F> {
    tree: Tree<Route<NH>>,
    pipelines: PipelineSet<M>,
    response_finalizer: ResponseFinalizer<F>,
}

impl<M, NH, F> Router<M, NH, F> {
    /// The nodes of the tree with their routes, in the order of their
    /// creation.
    pub closed spec fn routes(&self) -> Seq<NodeView<Route<NH>>> {
        self.tree@
    }

    /// The pipelines that the routes are dispatched through.
    pub closed spec fn pipelines(&self) -> Seq<Seq<M>> {
        self.pipelines@
    }

    /// The response extenders, by status.
    pub closed spec fn extenders(&self) -> Map<u16, F> {
        self.response_finalizer@
    }

    /// The invariant of the router.
    pub closed spec fn wf(&self) -> bool {
        &&& self.tree.wf()
        &&& routes_fit(self.tree@, self.pipelines@.len())
    }

    /// What a well-formed router holds is the node list of a tree, and the
    /// chains of its routes refer to its pipelines.
    pub proof fn lemma_wf(&self)
        requires
            self.wf(),
        ensures
            is_tree(self.routes()),
            routes_fit(self.routes(), self.pipelines().len()),
    {
        self.tree.lemma_view_is_tree();
    }

    /// Puts a router together.
    pub fn new(
        tree: Tree<Route<NH>>,
        pipelines: PipelineSet<M>,
        response_finalizer: ResponseFinalizer<F>,
    ) -> (router: Router<M, NH, F>)
        requires
            tree.wf(),
            routes_fit(tree@, pipelines@.len()),
        ensures
            router.wf(),
            router.routes() == tree@,
            router.pipelines() == pipelines@,
            router.extenders() == response_finalizer@,
    {
        Router { tree, pipelines, response_finalizer }
    }

    /// Resolves a request: follows its path through the tree and chooses
    /// the first route at the node reached that takes its method.
    #[verifier::loop_isolation(false)]
    pub fn route(&self, request: &Request) -> (routed: Routed)
        requires
            self.wf(),
        ensures
            routed@ == resolve(self.routes(), request.method@, request.path@),
            routed matches Routed::Dispatch { node, route, .. } ==> node < self.routes().len()
                && route < self.routes()[node as int].routes.len(),
    {
        let segments = split_path(request.path.as_str());
        let found = match self.tree.lookup(&segments) {
            Some(found) => found,
            None => {
                return Routed::NotFound;
            },
        };
        let routes = self.tree.routes(found.node);
        if routes.len() == 0 {
            return Routed::NotFound;
        }
        let ghost method = request.method@;
        let mut allowed: Vec<HttpMethod> = Vec::new();
        let mut r: usize = 0;
        assert(routes@.take(0) =~= Seq::empty());
        assert(method_views(allowed@) =~= allowed_methods(routes@.take(0)));
        while r < routes.len()
            invariant
                r <= routes.len(),
                forall|j: int| 0 <= j < r ==> !(#[trigger] routes@[j]).methods().contains(method),
                method_views(allowed@) == allowed_methods(routes@.take(r as int)),
            decreases routes.len() - r,
        {
            let route = &routes[r];
            if route.is_match(request).is_ok() {
                proof {
                    assert(accepts_first(routes@, method, r as int));
                    let chosen = choose|c: int| accepts_first(routes@, method, c);
                    if chosen < r {
                        assert(!routes@[chosen].methods().contains(method));
                    } else if r < chosen {
                        assert(routes@[r as int].methods().contains(method));
                    }
                }
                return Routed::Dispatch { node: found.node, route: r, params: found.params };
            }
            let mut methods = route.allowed();
            let ghost before = allowed@;
            let ghost added = methods@;
            allowed.append(&mut methods);
            proof {
                assert(routes@.take(r + 1).drop_last() =~= routes@.take(r as int));
                assert(routes@.take(r + 1).last() == routes@[r as int]);
                assert(method_views(before + added) =~= method_views(before) + method_views(added));
            }
            r += 1;
        }
        proof {
            assert(routes@.take(r as int) =~= routes@);
            assert forall|c: int| !accepts_first(routes@, method, c) by {
                if 0 <= c < routes@.len() {
                    assert(!routes@[c].methods().contains(method));
                }
            }
        }
        Routed::MethodMismatch { allowed }
    }

    /// Answers a request: through the pipelines and the handler of the route
    /// that takes it, or, where none does, with what the finalizer makes of
    /// a `404` or `405` response.
    pub fn handle<S>(&self, state: S, request: &Request) -> (out: (S, Response)) where
        M: Middleware<S>,
        NH: NewHandler<S>,
        F: ResponseExtender<S>,

        requires
            self.wf(),
        ensures
            may_answer(self.routes(), self.pipelines(), self.extenders(), state, request, out),
    {
        match self.route(request) {
            Routed::Dispatch { node, route, params } => {
                let routes = self.tree.routes(node);
                assert(routes@[route as int] == self.tree@[node as int].routes[route as int]);
                let out = routes[route].dispatch(&self.pipelines, state, request, &params);
                assert(route_may_answer(
                    self.routes()[node as int].routes[route as int],
                    self.pipelines(),
                    param_views(params@),
                    state,
                    request,
                    out,
                ));
                out
            },
            Routed::NotFound => {
                let bare = Response::with_status(NOT_FOUND);
                let out = self.response_finalizer.finalize(state, bare);
                assert(fallback_may_answer(self.extenders(), NOT_FOUND, Seq::empty(), state, out));
                out
            },
            Routed::MethodMismatch { allowed } => {
                let ghost views = method_views(allowed@);
                let bare = Response::method_not_allowed(allowed);
                let out = self.response_finalizer.finalize(state, bare);
                assert(fallback_may_answer(self.extenders(), METHOD_NOT_ALLOWED, views, state, out));
                out
            },
        }
    }
}

} // verus!
