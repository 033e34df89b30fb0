//! What holds of answering a request: of the order in which the stages of a
//! chain run, and of who answers.

use vstd::prelude::*;
use crate::finalizer::ResponseExtender;
use crate::handler::{handler_may_end, stages_may_end, Middleware, NewHandler, Outcome};
use crate::message::{Request, Response, METHOD_NOT_ALLOWED, NOT_FOUND};
use crate::method::MethodView;
use crate::pipeline::chain_stages;
use crate::route::Route;
use crate::router::{fallback_may_answer, may_answer, resolve, route_may_answer, Resolution};
use crate::tree::PathParam;
use crate::tree_model::NodeView;

verus! {

/// The answer follows the resolution. A request that is dispatched is
/// answered by the pipelines and the handler of the route that takes it, and
/// the finalizer has no part in it; a request that is not found or whose
/// method is mismatched is answered by the finalizer, from the bare `404` or
/// `405` response, and no pipeline or handler has a part in it.
pub proof fn law_answer_follows_resolution<
    S,
    M: Middleware<S>,
    NH: NewHandler<S>,
    F: ResponseExtender<S>,
>(
    nodes: Seq<NodeView<Route<NH>>>,
    pipelines: Seq<Seq<M>>,
    extenders: Map<u16, F>,
    state: S,
    request: &Request,
    out: (S, Response),
)
    requires
        may_answer(nodes, pipelines, extenders, state, request, out),
    ensures
        (match resolve(nodes, request.method@, request.path@) {
            Resolution::Dispatch { node, route, params } => route_may_answer(
                nodes[node].routes[route],
                pipelines,
                params,
                state,
                request,
                out,
            ),
            Resolution::NotFound => fallback_may_answer(
                extenders,
                NOT_FOUND,
                Seq::empty(),
                state,
                out,
            ),
            Resolution::MethodMismatch { allowed } => fallback_may_answer(
                extenders,
                METHOD_NOT_ALLOWED,
                allowed,
                state,
                out,
            ),
        }),
{
}

/// Without an extender the fallback is bare. Where no extender is
/// registered for a status, the answer of the finalizer for that status is
/// the response with that status, the allowed methods and nothing else, and
/// the state is unchanged.
pub proof fn law_fallback_without_extender_is_bare<S, F: ResponseExtender<S>>(
    extenders: Map<u16, F>,
    status: u16,
    allowed: Seq<MethodView>,
    state: S,
    out: (S, Response),
)
    requires
        !extenders.contains_key(status),
        fallback_may_answer(extenders, status, allowed, state, out),
    ensures
        out.0 == state,
        out.1.is_bare(status, allowed),
{
}

/// The state that the handler is given when each stage from place `from`
/// on hands on what `step` makes of the state that it is given.
pub open spec fn state_after<S, M>(stages: Seq<M>, from: int, step: spec_fn(M, S) -> S, state: S) -> S
    decreases stages.len() - from,
{
    if from < 0 || from >= stages.len() {
        state
    } else {
        state_after(stages, from + 1, step, step(stages[from], state))
    }
}

/// The stages run in their order. Where every stage hands the request on,
/// with the state that `step` makes of the one it is given, the handler is
/// given the state that the stages made of the first one, stage after stage
/// in the order of the chain.
pub proof fn law_stages_run_in_order<S, M: Middleware<S>, NH: NewHandler<S>>(
    stages: Seq<M>,
    from: int,
    step: spec_fn(M, S) -> S,
    new_handler: &NH,
    state: S,
    request: &Request,
    params: &Vec<PathParam>,
    out: (S, Response),
)
    requires
        0 <= from <= stages.len(),
        forall|i: int, given: S, outcome: Outcome<S>|
            from <= i < stages.len() && #[trigger] call_ensures(
                M::call,
                (&stages[i], given, request),
                outcome,
            ) ==> outcome == Outcome::Next(step(stages[i], given)),
        stages_may_end(stages, from, new_handler, state, request, params, out),
    ensures
        handler_may_end(
            new_handler,
            state_after(stages, from, step, state),
            request,
            params,
            out,
        ),
    decreases stages.len() - from,
{
    if from < stages.len() {
        let outcome = choose|outcome: Outcome<S>| #[trigger]
            call_ensures(M::call, (&stages[from], state, request), outcome) && match outcome {
                Outcome::Next(next) => stages_may_end(
                    stages,
                    from + 1,
                    new_handler,
                    next,
                    request,
                    params,
                    out,
                ),
                Outcome::Respond(last, response) => out == (last, response),
            };
        law_stages_run_in_order(
            stages,
            from + 1,
            step,
            new_handler,
            step(stages[from], state),
            request,
            params,
            out,
        );
    }
}

/// The pipelines of a chain run in the order of the chain: the stages of
/// two chains put together are those of the first followed by those of the
/// second.
pub proof fn law_chains_run_in_order<M>(set: Seq<Seq<M>>, first: Seq<int>, second: Seq<int>)
    ensures
        chain_stages(set, first + second) == chain_stages(set, first) + chain_stages(set, second),
    decreases second.len(),
{
    if second.len() == 0 {
        assert(first + second =~= first);
        assert(chain_stages(set, first) + chain_stages(set, second) =~= chain_stages(set, first));
    } else {
        law_chains_run_in_order(set, first, second.drop_last());
        assert((first + second).drop_last() =~= first + second.drop_last());
        assert((first + second).last() == second.last());
        assert(chain_stages(set, first + second) =~= chain_stages(set, first) + chain_stages(
            set,
            second,
        ));
    }
}

/// An answer ends the chain. Where the stage at place `through` never hands
/// the request on, what comes after it makes no difference: the same
/// answers are possible with any other stages after it, any other handler
/// and any other bound values. Neither the handler nor a later stage runs.
pub proof fn law_answer_ends_the_chain<
    S,
    M: Middleware<S>,
    NH: NewHandler<S>,
    Other: NewHandler<S>,
>(
    stages: Seq<M>,
    others: Seq<M>,
    from: int,
    through: int,
    new_handler: &NH,
    other_handler: &Other,
    state: S,
    request: &Request,
    params: &Vec<PathParam>,
    other_params: &Vec<PathParam>,
    out: (S, Response),
)
    requires
        0 <= from <= through < stages.len(),
        through < others.len(),
        forall|i: int| from <= i <= through ==> others[i] == stages[i],
        forall|given: S, outcome: Outcome<S>| #[trigger]
            call_ensures(M::call, (&stages[through], given, request), outcome)
                ==> outcome is Respond,
        stages_may_end(stages, from, new_handler, state, request, params, out),
    ensures
        stages_may_end(others, from, other_handler, state, request, other_params, out),
    decreases through - from,
{
    let outcome = choose|outcome: Outcome<S>| #[trigger]
        call_ensures(M::call, (&stages[from], state, request), outcome) && match outcome {
            Outcome::Next(next) => stages_may_end(
                stages,
                from + 1,
                new_handler,
                next,
                request,
                params,
                out,
            ),
            Outcome::Respond(last, response) => out == (last, response),
        };
    assert(others[from] == stages[from]);
    assert(call_ensures(M::call, (&others[from], state, request), outcome));
    match outcome {
        Outcome::Next(next) => {
            law_answer_ends_the_chain(
                stages,
                others,
                from + 1,
                through,
                new_handler,
                other_handler,
                next,
                request,
                params,
                other_params,
                out,
            );
        },
        Outcome::Respond(last, response) => {},
    }
}

} // verus!
