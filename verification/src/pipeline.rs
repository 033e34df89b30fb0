//! Pipelines of middleware, the set that holds them, and the chains of
//! handles that say which pipelines wrap a route, and in which order.

use vstd::prelude::*;

verus! {

/// An ordered sequence of middleware.
pub struct Pipeline<M> {
    middleware: Vec<M>,
}

impl<M> View for Pipeline<M> {
    type V = Seq<M>;

    /// The middleware, the first to run first.
    closed spec fn view(&self) -> Seq<M> {
        self.middleware@
    }
}

/// A pipeline under construction.
pub struct PipelineBuilder<M> {
    middleware: Vec<M>,
}

impl<M> View for PipelineBuilder<M> {
    type V = Seq<M>;

    closed spec fn view(&self) -> Seq<M> {
        self.middleware@
    }
}

/// Starts a pipeline without middleware.
pub fn new_pipeline<M>() -> (builder: PipelineBuilder<M>)
    ensures
        builder@ == Seq::<M>::empty(),
{
    PipelineBuilder { middleware: Vec::new() }
}

impl<M> PipelineBuilder<M> {
    /// Adds a middleware that runs after those added before.
    pub fn add(self, middleware: M) -> (builder: PipelineBuilder<M>)
        ensures
            builder@ == self@.push(middleware),
    {
        let mut list = self.middleware;
        list.push(middleware);
        PipelineBuilder { middleware: list }
    }

    /// Finishes the pipeline.
    pub fn build(self) -> (pipeline: Pipeline<M>)
        ensures
            pipeline@ == self@,
    {
        Pipeline { middleware: self.middleware }
    }
}

/// The views of a list of pipelines, in order.
pub open spec fn pipeline_views<M>(pipelines: Seq<Pipeline<M>>) -> Seq<Seq<M>> {
    Seq::new(pipelines.len(), |i: int| pipelines[i]@)
}

/// A reference to a pipeline of a set: its place in the set.
#[derive(Clone, Copy, Debug, PartialEq, Eq)]
pub struct PipelineHandle {
    index: usize,
}

impl View for PipelineHandle {
    type V = int;

    closed spec fn view(&self) -> int {
        self.index as int
    }
}

/// A set of pipelines to which pipelines can still be added.
pub struct EditablePipelineSet<M> {
    pipelines: Vec<Pipeline<M>>,
}

impl<M> View for EditablePipelineSet<M> {
    type V = Seq<Seq<M>>;

    /// The pipelines, in the order in which they were added.
    closed spec fn view(&self) -> Seq<Seq<M>> {
        pipeline_views(self.pipelines@)
    }
}

/// A set without pipelines.
pub fn new_pipeline_set<M>() -> (set: EditablePipelineSet<M>)
    ensures
        set@ == Seq::<Seq<M>>::empty(),
{
    let set = EditablePipelineSet { pipelines: Vec::new() };
    assert(set@ =~= Seq::<Seq<M>>::empty());
    set
}

impl<M> EditablePipelineSet<M> {
    /// Adds a pipeline and hands out the handle by which chains refer to it.
    /// The pipelines added before keep their handles.
    pub fn add(self, pipeline: Pipeline<M>) -> (added: (EditablePipelineSet<M>, PipelineHandle))
        ensures
            added.0@ == self@.push(pipeline@),
            added.1@ == self@.len(),
    {
        let mut pipelines = self.pipelines;
        let index = pipelines.len();
        pipelines.push(pipeline);
        let set = EditablePipelineSet { pipelines };
        assert(set@ =~= self@.push(pipeline@));
        (set, PipelineHandle { index })
    }
}

/// A set of pipelines that is complete: routes are dispatched through it, and
/// nothing can be added to it.
pub struct PipelineSet<M> {
    pipelines: Vec<Pipeline<M>>,
}

impl<M> View for PipelineSet<M> {
    type V = Seq<Seq<M>>;

    /// The pipelines, in the order in which they were added.
    closed spec fn view(&self) -> Seq<Seq<M>> {
        pipeline_views(self.pipelines@)
    }
}

/// Completes a set of pipelines.
pub fn finalize_pipeline_set<M>(set: EditablePipelineSet<M>) -> (complete: PipelineSet<M>)
    ensures
        complete@ == set@,
{
    PipelineSet { pipelines: set.pipelines }
}

/// The pipelines that wrap a route, the outermost first.
#[derive(Debug)]
pub struct PipelineHandleChain {
    handles: Vec<PipelineHandle>,
}

impl View for PipelineHandleChain {
    type V = Seq<int>;

    /// The places in the set of the pipelines of the chain, the outermost
    /// first.
    closed spec fn view(&self) -> Seq<int> {
        Seq::new(self.handles@.len(), |i: int| self.handles@[i]@)
    }
}

/// Whether every handle of `chain` refers to one of `count` pipelines.
pub open spec fn chain_fits(chain: Seq<int>, count: nat) -> bool {
    forall|i: int| 0 <= i < chain.len() ==> 0 <= #[trigger] chain[i] < count
}

/// The middleware of the pipelines of `chain`, in the order in which it
/// runs: pipeline after pipeline, and within each the middleware in order.
pub open spec fn chain_stages<M>(set: Seq<Seq<M>>, chain: Seq<int>) -> Seq<M>
    decreases chain.len(),
{
    if chain.len() == 0 {
        Seq::empty()
    } else {
        chain_stages(set, chain.drop_last()) + set[chain.last()]
    }
}

impl PipelineHandleChain {
    /// A chain of the given handles, the outermost first.
    pub fn new(handles: Vec<PipelineHandle>) -> (chain: PipelineHandleChain)
        ensures
            chain@.len() == handles@.len(),
            forall|i: int| 0 <= i < handles@.len() ==> chain@[i] == handles@[i]@,
    {
        PipelineHandleChain { handles }
    }

    /// A chain without pipelines.
    pub fn empty() -> (chain: PipelineHandleChain)
        ensures
            chain@ == Seq::<int>::empty(),
    {
        let chain = PipelineHandleChain { handles: Vec::new() };
        assert(chain@ =~= Seq::<int>::empty());
        chain
    }

    /// The chain with one more pipeline inside those it has.
    pub fn then(self, handle: PipelineHandle) -> (chain: PipelineHandleChain)
        ensures
            chain@ == self@.push(handle@),
    {
        let mut handles = self.handles;
        handles.push(handle);
        let chain = PipelineHandleChain { handles };
        assert(chain@ =~= self@.push(handle@));
        chain
    }

    /// A copy of the chain.
    pub fn duplicate(&self) -> (chain: PipelineHandleChain)
        ensures
            chain@ == self@,
    {
        let mut handles: Vec<PipelineHandle> = Vec::new();
        let mut i: usize = 0;
        while i < self.handles.len()
            invariant
                i <= self.handles.len(),
                handles.len() == i,
                forall|j: int| 0 <= j < i ==> handles@[j] == self.handles@[j],
            decreases self.handles.len() - i,
        {
            handles.push(self.handles[i]);
            i += 1;
        }
        let chain = PipelineHandleChain { handles };
        assert(chain@ =~= self@);
        chain
    }

    /// Whether every handle of the chain refers to a pipeline of `set`.
    pub fn fits<M>(&self, set: &PipelineSet<M>) -> (fits: bool)
        ensures
            fits == chain_fits(self@, set@.len()),
    {
        let mut i: usize = 0;
        while i < self.handles.len()
            invariant
                i <= self.handles.len(),
                forall|j: int| 0 <= j < i ==> 0 <= #[trigger] self@[j] < set@.len(),
            decreases self.handles.len() - i,
        {
            if self.handles[i].index >= set.pipelines.len() {
                assert(!(0 <= self@[i as int] < set@.len()));
                return false;
            }
            assert(self@[i as int] == self.handles@[i as int]@);
            i += 1;
        }
        true
    }

    /// The middleware that the chain runs, in order.
    pub fn stages<'a, M>(&self, set: &'a PipelineSet<M>) -> (stages: Vec<&'a M>)
        requires
            chain_fits(self@, set@.len()),
        ensures
            stages@.len() == chain_stages(set@, self@).len(),
            forall|i: int| 0 <= i < stages@.len() ==> *stages@[i] == chain_stages(set@, self@)[i],
    {
        let mut stages: Vec<&'a M> = Vec::new();
        let mut c: usize = 0;
        assert(self@.take(0) =~= Seq::<int>::empty());
        while c < self.handles.len()
            invariant
                chain_fits(self@, set@.len()),
                c <= self.handles.len(),
                self@.len() == self.handles.len(),
                stages@.len() == chain_stages(set@, self@.take(c as int)).len(),
                forall|i: int|
                    0 <= i < stages@.len() ==> *stages@[i] == chain_stages(
                        set@,
                        self@.take(c as int),
                    )[i],
            decreases self.handles.len() - c,
        {
            let handle = self.handles[c];
            assert(self@[c as int] == handle@);
            let pipeline = &set.pipelines[handle.index];
            assert(pipeline@ == set@[handle@]);
            let ghost before = chain_stages(set@, self@.take(c as int));
            proof {
                assert(self@.take(c + 1).drop_last() =~= self@.take(c as int));
                assert(self@.take(c + 1).last() == handle@);
                assert(chain_stages(set@, self@.take(c + 1)) == before + pipeline@);
            }
            let mut m: usize = 0;
            while m < pipeline.middleware.len()
                invariant
                    m <= pipeline@.len(),
                    stages@.len() == before.len() + m,
                    forall|i: int| 0 <= i < before.len() ==> *stages@[i] == before[i],
                    forall|i: int| 0 <= i < m ==> *stages@[before.len() + i] == pipeline@[i],
                decreases pipeline@.len() - m,
            {
                stages.push(&pipeline.middleware[m]);
                m += 1;
            }
            c += 1;
        }
        assert(self@.take(c as int) =~= self@);
        stages
    }
}

} // verus!
