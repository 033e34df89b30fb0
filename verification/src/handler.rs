//! What the router runs: handlers, the factories that make them, and
//! middleware. All three are written by the users of the router; the router
//! only says in which order it calls them and what it hands from one to the
//! next.

use vstd::prelude::*;
use crate::message::{Request, Response};
use crate::tree::PathParam;

verus! {

/// What a middleware decides.
pub enum Outcome<S> {
    /// The request goes on to the next stage, with this state.
    Next(S),
    /// The request ends here, with this state and response; no later stage
    /// runs.
    Respond(S, Response),
}

/// One stage of a pipeline. It sees the state and the request and either
/// hands the state on or answers the request itself.
pub trait Middleware<S> {
    fn call(&self, state: S, request: &Request) -> Outcome<S>;
}

/// Answers one request and is then discarded.
pub trait Handler<S>: Sized {
    fn handle(self, state: S, request: &Request, params: &Vec<PathParam>) -> (S, Response);
}

/// Makes a fresh handler for each request.
pub trait NewHandler<S> {
    type Instance: Handler<S>;

    fn new_handler(&self) -> Self::Instance;
}

/// Whether a fresh handler of `new_handler`, given `state`, the request and
/// the bound values, can return `out`.
pub open spec fn handler_may_end<S, NH: NewHandler<S>>(
    new_handler: &NH,
    state: S,
    request: &Request,
    params: &Vec<PathParam>,
    out: (S, Response),
) -> bool {
    exists|instance: NH::Instance| #[trigger]
        call_ensures(NH::new_handler, (new_handler,), instance) && call_ensures(
            <NH::Instance as Handler<S>>::handle,
            (instance, state, request, params),
            out,
        )
}

/// Whether the stages from place `from` on, followed by a fresh handler, can
/// end in `out` when the stage at `from` is given `state`: either a stage
/// answers, and `out` is its answer and no later stage nor the handler runs;
/// or every stage hands its state to the next, the last to the handler, and
/// `out` is what the handler returns.
pub open spec fn stages_may_end<S, M: Middleware<S>, NH: NewHandler<S>>(
    stages: Seq<M>,
    from: int,
    new_handler: &NH,
    state: S,
    request: &Request,
    params: &Vec<PathParam>,
    out: (S, Response),
) -> bool
    decreases stages.len() - from,
{
    if from < 0 || from >= stages.len() {
        handler_may_end(new_handler, state, request, params, out)
    } else {
        exists|outcome: Outcome<S>| #[trigger]
            call_ensures(M::call, (&stages[from], state, request), outcome) && match outcome {
                Outcome::Next(next) => stages_may_end(
                    stages,
                    from + 1,
                    new_handler,
                    next,
                    request,
                    params,
                    out,
                ),
                Outcome::Respond(last, response) => out == (last, response),
            }
    }
}

/// Runs the stages in order and then a fresh handler, unless a stage answers
/// first.
pub fn run_stages<S, M: Middleware<S>, NH: NewHandler<S>>(
    stages: &Vec<&M>,
    new_handler: &NH,
    state: S,
    request: &Request,
    params: &Vec<PathParam>,
) -> (out: (S, Response))
    ensures
        stages_may_end(
            Seq::new(stages@.len(), |i: int| *stages@[i]),
            0,
            new_handler,
            state,
            request,
            params,
            out,
        ),
{
    let ghost all = Seq::new(stages@.len(), |i: int| *stages@[i]);
    let mut current = state;
    let mut i: usize = 0;
    while i < stages.len()
        invariant
            i <= stages.len(),
            all == Seq::new(stages@.len(), |i: int| *stages@[i]),
            forall|out: (S, Response)| #[trigger]
                stages_may_end(all, i as int, new_handler, current, request, params, out)
                    ==> stages_may_end(all, 0, new_handler, state, request, params, out),
        decreases stages.len() - i,
    {
        let ghost given = current;
        let outcome = stages[i].call(current, request);
        assert(call_ensures(M::call, (&all[i as int], given, request), outcome));
        match outcome {
            Outcome::Next(next) => {
                current = next;
                assert forall|out: (S, Response)| #[trigger]
                    stages_may_end(all, i + 1, new_handler, current, request, params, out)
                    implies stages_may_end(all, 0, new_handler, state, request, params, out) by {
                    assert(stages_may_end(all, i as int, new_handler, given, request, params, out));
                }
            },
            Outcome::Respond(last, response) => {
                assert(stages_may_end(
                    all,
                    i as int,
                    new_handler,
                    given,
                    request,
                    params,
                    (last, response),
                ));
                return (last, response);
            },
        }
        i += 1;
    }
    let instance = new_handler.new_handler();
    let ghost given = current;
    let out = instance.handle(current, request, params);
    assert(handler_may_end(new_handler, given, request, params, out));
    assert(stages_may_end(all, i as int, new_handler, given, request, params, out));
    out
}

} // verus!
