//! The response finalizer: what is answered when no route takes a request.

use vstd::prelude::*;
use std::collections::HashMap;
use crate::message::Response;

verus! {

broadcast use vstd::std_specs::hash::group_hash_axioms;

/// Turns the bare response for a status into the one that is sent. Written
/// by the users of the router, one for each status that they care about.
pub trait ResponseExtender<S> {
    fn extend(&self, state: S, response: Response) -> (S, Response);
}

/// The extenders registered so far, by status.
pub struct ResponseFinalizerBuilder<F> {
    extenders: HashMap<u16, F>,
}

impl<F> View for ResponseFinalizerBuilder<F> {
    type V = Map<u16, F>;

    closed spec fn view(&self) -> Map<u16, F> {
        self.extenders@
    }
}

impl<F> ResponseFinalizerBuilder<F> {
    /// A builder without extenders.
    pub fn new() -> (builder: ResponseFinalizerBuilder<F>)
        ensures
            builder@ == Map::<u16, F>::empty(),
    {
        ResponseFinalizerBuilder { extenders: HashMap::new() }
    }

    /// Registers the extender for a status, in place of an earlier one for
    /// the same status.
    pub fn add(&mut self, status: u16, extender: F)
        ensures
            final(self)@ == old(self)@.insert(status, extender),
    {
        self.extenders.insert(status, extender);
    }

    /// Closes the registration.
    pub fn finalize(self) -> (finalizer: ResponseFinalizer<F>)
        ensures
            finalizer@ == self@,
    {
        ResponseFinalizer { extenders: self.extenders }
    }
}

/// The extenders of a finished router, by status.
pub struct ResponseFinalizer<F> {
    extenders: HashMap<u16, F>,
}

impl<F> View for ResponseFinalizer<F> {
    type V = Map<u16, F>;

    closed spec fn view(&self) -> Map<u16, F> {
        self.extenders@
    }
}

/// Whether `out` can be what is sent for the bare response `response`: what
/// the extender for its status makes of it, or the bare response itself and
/// the state unchanged where none is registered for that status.
pub open spec fn finalizer_may_end<S, F: ResponseExtender<S>>(
    extenders: Map<u16, F>,
    state: S,
    response: Response,
    out: (S, Response),
) -> bool {
    if extenders.contains_key(response.status) {
        call_ensures(F::extend, (&extenders[response.status], state, response), out)
    } else {
        out == (state, response)
    }
}

impl<F> ResponseFinalizer<F> {
    /// Makes the response that is sent out of the bare one.
    pub fn finalize<S>(&self, state: S, response: Response) -> (out: (S, Response)) where
        F: ResponseExtender<S>,

        ensures
            finalizer_may_end(self@, state, response, out),
    {
        match self.extenders.get(&response.status) {
            Some(extender) => extender.extend(state, response),
            None => (state, response),
        }
    }
}

} // verus!
