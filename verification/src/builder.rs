//! Building a router: routes are registered through a [`RouterBuilder`], and
//! [`build_router`] closes the registration.

use vstd::prelude::*;
use crate::finalizer::ResponseFinalizerBuilder;
use crate::matcher::MethodOnlyRouteMatcher;
use crate::method::{method_views, HttpMethod, MethodView};
use crate::path::{path_pattern, read_pattern, segment_views, Segment};
use crate::pipeline::{chain_fits, PipelineHandleChain, PipelineSet};
use crate::route::{Delegation, Dispatcher, Route};
use crate::router::Router;
use crate::tree::TreeBuilder;
use crate::tree_model::{
    index_of_pattern, is_tree, lemma_with_pattern_keeps_routes, with_pattern, with_route,
    NodeView,
};

verus! {

/// Whether the chain of every route of `nodes` refers to pipelines of a set
/// of `count` pipelines only.
pub open spec fn routes_fit<NH>(nodes: Seq<NodeView<Route<NH>>>, count: nat) -> bool {
    forall|n: int, r: int|
        0 <= n < nodes.len() && 0 <= r < nodes[n].routes.len() ==> chain_fits(
            (#[trigger] nodes[n].routes[r]).chain(),
            count,
        )
}

/// Makes sure that the tree has a node for `pattern` and for each of its
/// beginnings, and returns the node for `pattern`.
fn build_subtree<R>(tree: &mut TreeBuilder<R>, pattern: Vec<Segment>) -> (target: usize)
    requires
        old(tree).wf(),
    ensures
        final(tree).wf(),
        final(tree)@ == with_pattern(old(tree)@, segment_views(pattern@)),
        target < final(tree)@.len(),
        final(tree)@[target as int].pattern == segment_views(pattern@),
{
    let ghost wanted = segment_views(pattern@);
    let ghost start = tree@;
    let mut node: usize = tree.root();
    proof {
        tree.lemma_view_is_tree();
        assert(wanted.take(0) =~= Seq::empty());
        assert(tree@[0].pattern =~= wanted.take(0));
    }
    for segment in it: pattern
        invariant
            tree.wf(),
            it.seq() == pattern@,
            wanted == segment_views(pattern@),
            node < tree@.len(),
            tree@[node as int].pattern == wanted.take(it.index()),
            tree@ == with_pattern(start, wanted.take(it.index())),
    {
        let ghost k = it.index();
        let ghost before = tree@;
        proof {
            assert(wanted[k] == segment@);
            assert(wanted.take(k + 1).drop_last() =~= wanted.take(k));
            assert(wanted.take(k + 1) =~= wanted.take(k).push(segment@));
        }
        match tree.child(node, &segment) {
            Some(child) => {
                node = child;
            },
            None => {
                let index = tree.len();
                let added = tree.add_child(node, segment);
                assert(added);
                node = index;
            },
        }
    }
    proof {
        assert(wanted.take(wanted.len() as int) =~= wanted);
    }
    node
}

/// What starting a route leaves. The waiting registration `to` holds the
/// tree of the builder `before` with the nodes for `path` added, and will
/// add a route with `methods` and the builder's chain to the node for
/// `path`. Once `to` is gone, the builder `after` is `before` with the tree
/// as `to` left it, `tree_after`.
pub open spec fn begins_route<M, NH, F>(
    before: RouterBuilder<M, NH, F>,
    after: RouterBuilder<M, NH, F>,
    to: RouterBuilderTo<NH>,
    tree_after: TreeBuilder<Route<NH>>,
    methods: Seq<MethodView>,
    path: Seq<char>,
) -> bool {
    &&& to.wf()
    &&& (*to.target())@ == with_pattern(before.routes(), path_pattern(path))
    &&& 0 <= to.node() < (*to.target())@.len()
    &&& to.node() == index_of_pattern((*to.target())@, path_pattern(path))
    &&& (*to.target())@[to.node()].pattern == path_pattern(path)
    &&& to.methods() == methods
    &&& to.chain() == before.chain()
    &&& to.delegated() == Delegation::Internal
    &&& to.limit() == before.pipelines().len()
    &&& after.routes() == tree_after@
    &&& after.chain() == before.chain()
    &&& after.pipelines() == before.pipelines()
    &&& after.extenders() == before.extenders()
    &&& after.wf() <==> (tree_after.wf() && routes_fit(tree_after@, to.limit()))
}

/// Registers routes. Every route that it registers is wrapped by the chain
/// of pipelines that the builder was made with.
pub struct RouterBuilder<M, NH, F> {
    tree: TreeBuilder<Route<NH>>,
    pipeline_chain: PipelineHandleChain,
    pipelines: PipelineSet<M>,
    response_finalizer_builder: ResponseFinalizerBuilder<F>,
}

/// A registration that waits for its handler: the node for the path exists,
/// and the route is added to it once [`RouterBuilderTo::to`] is called.
pub struct RouterBuilderTo<'a, NH> {
    tree: &'a mut TreeBuilder<Route<NH>>,
    node: usize,
    matcher: MethodOnlyRouteMatcher,
    pipeline_chain: PipelineHandleChain,
    delegation: Delegation,
    limit: Ghost<nat>,
}

impl<'a, NH> RouterBuilderTo<'a, NH> {
    /// The tree that the route will be added to.
    pub closed spec fn target(&self) -> &'a mut TreeBuilder<Route<NH>> {
        self.tree
    }

    /// The node that the route will be added to.
    pub closed spec fn node(&self) -> int {
        self.node as int
    }

    /// The methods of the route.
    pub closed spec fn methods(&self) -> Seq<MethodView> {
        self.matcher@
    }

    /// The chain of pipelines that will wrap the route.
    pub closed spec fn chain(&self) -> Seq<int> {
        self.pipeline_chain@
    }

    /// Whether the route will end the routing.
    pub closed spec fn delegated(&self) -> Delegation {
        self.delegation
    }

    /// The number of pipelines of the set that the route is dispatched
    /// through.
    pub closed spec fn limit(&self) -> nat {
        self.limit@
    }

    /// The invariant of a waiting registration.
    pub closed spec fn wf(&self) -> bool {
        &&& (*self.tree).wf()
        &&& self.node < (*self.tree)@.len()
        &&& chain_fits(self.pipeline_chain@, self.limit@)
        &&& routes_fit((*self.tree)@, self.limit@)
    }

    /// A waiting registration holds a well-formed tree whose routes fit the
    /// set of pipelines.
    pub proof fn lemma_wf(&self)
        requires
            self.wf(),
        ensures
            (*self.target()).wf(),
            routes_fit((*self.target())@, self.limit()),
    {
    }

    /// A registration that is given up leaves the tree as it holds it.
    pub proof fn lemma_given_up(&self)
        requires
            has_resolved(*self),
        ensures
            *final(self.target()) == *self.target(),
    {
    }

    /// Completes the registration: a route with the handler factory
    /// `new_handler` is added after the routes that the node already holds.
    pub fn to(self, new_handler: NH)
        requires
            self.wf(),
        ensures
            (*final(self.target())).wf(),
            routes_fit((*final(self.target()))@, self.limit()),
            (exists|route: Route<NH>|
                {
                    &&& route.methods() == self.methods()
                    &&& route.handler() == new_handler
                    &&& route.chain() == self.chain()
                    &&& route.delegated() == self.delegated()
                    &&& (*final(self.target()))@ == with_route(
                        (*self.target())@,
                        self.node(),
                        route,
                    )
                }),
    {
        let ghost before = (*self.tree)@;
        let ghost limit = self.limit@;
        let dispatcher = Dispatcher::new(new_handler, self.pipeline_chain);
        let route = Route::new(self.matcher, dispatcher, self.delegation);
        self.tree.add_route(self.node, route);
        proof {
            let after = (*self.tree)@;
            assert(after == with_route(before, self.node as int, route));
            assert forall|n: int, r: int|
                0 <= n < after.len() && 0 <= r < after[n].routes.len() implies chain_fits(
                (#[trigger] after[n].routes[r]).chain(),
                limit,
            ) by {
                if n == self.node && r == before[n].routes.len() {
                } else {
                    assert(after[n].routes[r] == before[n].routes[r]);
                }
            }
        }
    }
}

impl<M, NH, F> RouterBuilder<M, NH, F> {
    /// The nodes of the tree with their routes, in the order of their
    /// creation.
    pub closed spec fn routes(&self) -> Seq<NodeView<Route<NH>>> {
        self.tree@
    }

    /// The chain of pipelines that wraps the routes registered through the
    /// builder.
    pub closed spec fn chain(&self) -> Seq<int> {
        self.pipeline_chain@
    }

    /// The pipelines that the routes are dispatched through.
    pub closed spec fn pipelines(&self) -> Seq<Seq<M>> {
        self.pipelines@
    }

    /// The response extenders registered so far, by status.
    pub closed spec fn extenders(&self) -> Map<u16, F> {
        self.response_finalizer_builder@
    }

    /// The invariant of the builder.
    pub closed spec fn wf(&self) -> bool {
        &&& self.tree.wf()
        &&& chain_fits(self.pipeline_chain@, self.pipelines@.len())
        &&& routes_fit(self.tree@, self.pipelines@.len())
    }

    /// What a well-formed builder holds is the node list of a tree, and the
    /// chains of its routes refer to its pipelines.
    pub proof fn lemma_wf(&self)
        requires
            self.wf(),
        ensures
            is_tree(self.routes()),
            routes_fit(self.routes(), self.pipelines().len()),
    {
        self.tree.lemma_view_is_tree();
    }

    /// Whether the builder is as `build_router` makes it: well-formed, with
    /// the root alone and without extenders.
    pub open spec fn is_fresh(&self, chain: Seq<int>, pipelines: Seq<Seq<M>>) -> bool {
        &&& self.wf()
        &&& self.routes() == seq![
            NodeView::<Route<NH>> { pattern: Seq::empty(), routes: Seq::empty() },
        ]
        &&& self.chain() == chain
        &&& self.pipelines() == pipelines
        &&& self.extenders() == Map::<u16, F>::empty()
    }

    /// A builder without routes. Every handle of `pipeline_chain` must
    /// refer to a pipeline of `pipelines`.
    pub fn new(pipeline_chain: PipelineHandleChain, pipelines: PipelineSet<M>) -> (made: Result<
        RouterBuilder<M, NH, F>,
        BuildError,
    >)
        ensures
            made is Ok <==> chain_fits(pipeline_chain@, pipelines@.len()),
            made is Err ==> made == Err::<RouterBuilder<M, NH, F>, BuildError>(
                BuildError::UnknownPipeline,
            ),
            made matches Ok(builder) ==> builder.is_fresh(pipeline_chain@, pipelines@),
    {
        if !pipeline_chain.fits(&pipelines) {
            return Err(BuildError::UnknownPipeline);
        }
        Ok(
            RouterBuilder {
                tree: TreeBuilder::new(),
                pipeline_chain,
                pipelines,
                response_finalizer_builder: ResponseFinalizerBuilder::new(),
            },
        )
    }

    /// Closes the registration: what was registered becomes a router.
    pub fn finalize(self) -> (router: Router<M, NH, F>)
        requires
            self.wf(),
        ensures
            router.wf(),
            router.routes() == self.routes(),
            router.pipelines() == self.pipelines(),
            router.extenders() == self.extenders(),
    {
        Router::new(
            self.tree.finalize(),
            self.pipelines,
            self.response_finalizer_builder.finalize(),
        )
    }

    /// Starts a route for `GET` and `HEAD` requests to `path`.
    pub fn get<'b>(&'b mut self, path: &str) -> (to: RouterBuilderTo<'b, NH>)
        requires
            old(self).wf(),
        ensures
            begins_route(
                *old(self),
                *final(self),
                to,
                *final(to.target()),
                seq![MethodView::Get, MethodView::Head],
                path@,
            ),
    {
        let mut methods: Vec<HttpMethod> = Vec::new();
        methods.push(HttpMethod::Get);
        methods.push(HttpMethod::Head);
        assert(method_views(methods@) =~= seq![MethodView::Get, MethodView::Head]);
        self.request(methods, path)
    }

    /// Starts a route for `POST` requests to `path`.
    pub fn post<'b>(&'b mut self, path: &str) -> (to: RouterBuilderTo<'b, NH>)
        requires
            old(self).wf(),
        ensures
            begins_route(
                *old(self),
                *final(self),
                to,
                *final(to.target()),
                seq![MethodView::Post],
                path@,
            ),
    {
        let mut methods: Vec<HttpMethod> = Vec::new();
        methods.push(HttpMethod::Post);
        assert(method_views(methods@) =~= seq![MethodView::Post]);
        self.request(methods, path)
    }

    /// Starts a route for requests to `path` with one of `methods`. The
    /// nodes for the path are made at once; the route is added when the
    /// registration is completed.
    pub fn request<'b>(&'b mut self, methods: Vec<HttpMethod>, path: &str) -> (to: RouterBuilderTo<
        'b,
        NH,
    >)
        requires
            old(self).wf(),
        ensures
            begins_route(
                *old(self),
                *final(self),
                to,
                *final(to.target()),
                method_views(methods@),
                path@,
            ),
    {
        let ghost limit = self.pipelines@.len();
        let ghost before = self.tree@;
        let pattern = read_pattern(path);
        let node = build_subtree(&mut self.tree, pattern);
        proof {
            self.tree.lemma_view_is_tree();
            let found = index_of_pattern(self.tree@, path_pattern(path@));
            assert(self.tree@[found].pattern == self.tree@[node as int].pattern);
            lemma_with_pattern_keeps_routes(before, path_pattern(path@));
            assert(routes_fit(self.tree@, limit)) by {
                let after = self.tree@;
                assert forall|n: int, r: int|
                    0 <= n < after.len() && 0 <= r < after[n].routes.len() implies chain_fits(
                    (#[trigger] after[n].routes[r]).chain(),
                    limit,
                ) by {
                    assert(after[n].routes[r] == before[n].routes[r]);
                }
            }
        }
        let matcher = MethodOnlyRouteMatcher::new(methods);
        RouterBuilderTo {
            tree: &mut self.tree,
            node,
            matcher,
            pipeline_chain: self.pipeline_chain.duplicate(),
            delegation: Delegation::Internal,
            limit: Ghost(limit),
        }
    }

    /// Registers the extender for the responses with `status` that the
    /// router makes itself, in place of an earlier one for that status.
    pub fn add_response_extender(&mut self, status: u16, extender: F)
        requires
            old(self).wf(),
        ensures
            final(self).wf(),
            final(self).routes() == old(self).routes(),
            final(self).chain() == old(self).chain(),
            final(self).pipelines() == old(self).pipelines(),
            final(self).extenders() == old(self).extenders().insert(status, extender),
    {
        self.response_finalizer_builder.add(status, extender);
    }
}

/// Why no router was built.
#[derive(Clone, Copy, Debug, PartialEq, Eq, Structural)]
pub enum BuildError {
    /// The chain refers to a pipeline that the set does not hold.
    UnknownPipeline,
}

/// Builds a router. The routes are those that `f` registers through the
/// builder that it is given; each is wrapped by the pipelines of
/// `pipeline_chain`, which must all be pipelines of `pipelines`.
pub fn build_router<M, NH, F, B>(
    pipeline_chain: PipelineHandleChain,
    pipelines: PipelineSet<M>,
    f: B,
) -> (built: Result<Router<M, NH, F>, BuildError>) where B: FnOnce(&mut RouterBuilder<M, NH, F>)
    requires
        forall|b: &mut RouterBuilder<M, NH, F>|
            (*b).is_fresh(pipeline_chain@, pipelines@) ==> #[trigger] call_requires(f, (b,)),
        forall|b: &mut RouterBuilder<M, NH, F>|
            (*b).is_fresh(pipeline_chain@, pipelines@) && #[trigger] call_ensures(f, (b,), ())
                ==> (*final(b)).wf(),
    ensures
        built is Ok <==> chain_fits(pipeline_chain@, pipelines@.len()),
        built is Err ==> built == Err::<Router<M, NH, F>, BuildError>(BuildError::UnknownPipeline),
        built matches Ok(router) ==> router.wf() && (exists|b: &mut RouterBuilder<M, NH, F>|
            {
                &&& (*b).is_fresh(pipeline_chain@, pipelines@)
                &&& #[trigger] call_ensures(f, (b,), ())
                &&& router.routes() == (*final(b)).routes()
                &&& router.pipelines() == (*final(b)).pipelines()
                &&& router.extenders() == (*final(b)).extenders()
            }),
{
    let mut builder = match RouterBuilder::new(pipeline_chain, pipelines) {
        Ok(builder) => builder,
        Err(error) => {
            return Err(error);
        },
    };
    f(&mut builder);
    Ok(builder.finalize())
}

} // verus!
