//! Context-preserving execution of asynchronous computations.
//!
//! A [`ScopedFuture`] wraps an arbitrary future together with the owner and
//! the observer that were ambient when it was created — captured once, at
//! construction, never re-derived. On every poll the host first reinstalls
//! the captured context with [`enter_poll`], polls the inner future, and
//! then unwinds the restoration with [`exit_poll`], whatever the poll's
//! outcome, so new scopes attach to the right owner and signal reads are
//! attributed to the right subscriber across suspension points.
//!
//! The four combinations of captured context — neither, observer only,
//! owner only, both — are dispatched explicitly through
//! [`CapturedContext`], so each behaviour stands on its own.
//!
//! [`enter_poll`]: ScopedFuture::enter_poll
//! [`exit_poll`]: ScopedFuture::exit_poll

use crate::arena::{Owner, OwnerArena};
use crate::observer::{
    graph_wf, lemma_reads_attribute_to_observer, observer_of, spec_run_reads, AnySubscriber,
    GraphView, Observer, ReactiveGraph,
};
use vstd::prelude::*;

verus! {

/// Which parts of the ambient context a future captured, dispatched as an
/// explicit four-way variant.
#[derive(Clone, Copy, PartialEq, Eq, Structural, Debug)]
pub enum CapturedContext {
    /// No ambient owner, no ambient observer: the future polls bare.
    Neither,
    /// Only a tracking subscriber was ambient.
    ObserverOnly(AnySubscriber),
    /// Only an ownership scope was ambient.
    OwnerOnly(Owner),
    /// Both were ambient: the owner scope is installed around the
    /// observer.
    Both(Owner, AnySubscriber),
}

/// Record of what a poll installed, handed back to [`ScopedFuture::exit_poll`]
/// so the restoration is unwound exactly.
pub struct PollGuard {
    pushed_owner: bool,
    pushed_observer: bool,
}

impl PollGuard {
    /// Whether the poll installed a captured owner.
    pub closed spec fn pushed_owner_spec(self) -> bool {
        self.pushed_owner
    }

    /// Whether the poll installed a captured observer.
    pub closed spec fn pushed_observer_spec(self) -> bool {
        self.pushed_observer
    }
}

/// A future together with the reactive context it was created under.
pub struct ScopedFuture<Fut> {
    owner: Option<Owner>,
    observer: Option<AnySubscriber>,
    fut: Fut,
}

impl<Fut> ScopedFuture<Fut> {
    /// The owner captured at construction, if any.
    pub closed spec fn captured_owner(self) -> Option<Owner> {
        self.owner
    }

    /// The observer captured at construction, if any.
    pub closed spec fn captured_observer(self) -> Option<AnySubscriber> {
        self.observer
    }

    /// The wrapped future.
    pub closed spec fn inner_spec(self) -> Fut {
        self.fut
    }

    /// Wrap `fut`, capturing the ambient owner and observer as they are at
    /// this moment; later changes of the ambient context do not affect the
    /// capture.
    pub fn new(fut: Fut, arena: &OwnerArena, graph: &ReactiveGraph) -> (r: ScopedFuture<Fut>)
        ensures
            r.captured_owner() == arena.current_owner(),
            match observer_of(graph@) {
                Some(o) => r.captured_observer() matches Some(s) && s.id_spec() == o,
                None => r.captured_observer() is None,
            },
            r.inner_spec() == fut,
    {
        let owner = Owner::current(arena);
        let observer = Observer::get(graph);
        ScopedFuture { owner, observer, fut }
    }

    /// The captured owner, if any.
    pub fn owner(&self) -> (r: Option<Owner>)
        ensures
            r == self.captured_owner(),
    {
        self.owner
    }

    /// The captured observer, if any.
    pub fn observer(&self) -> (r: Option<AnySubscriber>)
        ensures
            r == self.captured_observer(),
    {
        self.observer
    }

    /// Give the inner future back to the host for the actual poll.
    pub fn into_inner(self) -> (r: Fut)
        ensures
            r == self.inner_spec(),
    {
        self.fut
    }

    /// The four-way dispatch over what was captured.
    pub fn capture_kind(&self) -> (c: CapturedContext)
        ensures
            c == match (self.captured_owner(), self.captured_observer()) {
                (None, None) => CapturedContext::Neither,
                (None, Some(s)) => CapturedContext::ObserverOnly(s),
                (Some(o), None) => CapturedContext::OwnerOnly(o),
                (Some(o), Some(s)) => CapturedContext::Both(o, s),
            },
    {
        match (self.owner, self.observer) {
            (None, None) => CapturedContext::Neither,
            (None, Some(s)) => CapturedContext::ObserverOnly(s),
            (Some(o), None) => CapturedContext::OwnerOnly(o),
            (Some(o), Some(s)) => CapturedContext::Both(o, s),
        }
    }

    /// Reinstall the captured context for one poll of the inner future:
    /// the captured owner (if any) becomes current, so new scopes and
    /// cleanups attach to it, and the captured observer (if any) becomes
    /// the tracking subscriber, so reads during the poll are attributed to
    /// it. Nothing else in either structure changes.
    pub fn enter_poll(&self, arena: &mut OwnerArena, graph: &mut ReactiveGraph) -> (g: PollGuard)
        requires
            old(arena).wf(),
            old(graph).inv(),
            match self.captured_owner() {
                Some(o) => 0 <= o.id_spec() < old(arena).nodes().len(),
                None => true,
            },
            match self.captured_observer() {
                Some(s) => 0 <= s.id_spec() < old(graph)@.subs.len(),
                None => true,
            },
        ensures
            final(arena).wf(),
            final(graph).inv(),
            final(arena).nodes() == old(arena).nodes(),
            final(arena).token_counter() == old(arena).token_counter(),
            final(graph)@.sources == old(graph)@.sources,
            final(graph)@.subs == old(graph)@.subs,
            match self.captured_owner() {
                Some(o) => final(arena).current_stack() == old(arena).current_stack().push(
                    o.id_spec(),
                ) && final(arena).current_owner() == Some(o),
                None => final(arena).current_stack() == old(arena).current_stack(),
            },
            match self.captured_observer() {
                Some(s) => final(graph)@.observers == old(graph)@.observers.push(s.id_spec())
                    && observer_of(final(graph)@) == Some(s.id_spec()),
                None => final(graph)@.observers == old(graph)@.observers,
            },
            g.pushed_owner_spec() == (self.captured_owner() is Some),
            g.pushed_observer_spec() == (self.captured_observer() is Some),
    {
        match self.capture_kind() {
            CapturedContext::Neither => PollGuard { pushed_owner: false, pushed_observer: false },
            CapturedContext::ObserverOnly(s) => {
                graph.push_observer(s);
                PollGuard { pushed_owner: false, pushed_observer: true }
            },
            CapturedContext::OwnerOnly(o) => {
                arena.push_current(o);
                PollGuard { pushed_owner: true, pushed_observer: false }
            },
            CapturedContext::Both(o, s) => {
                arena.push_current(o);
                graph.push_observer(s);
                PollGuard { pushed_owner: true, pushed_observer: true }
            },
        }
    }

    /// Unwind exactly what [`enter_poll`] installed, whatever the poll's
    /// outcome, restoring the context that was ambient before it.
    ///
    /// [`enter_poll`]: ScopedFuture::enter_poll
    pub fn exit_poll(&self, g: PollGuard, arena: &mut OwnerArena, graph: &mut ReactiveGraph)
        requires
            old(arena).wf(),
            old(graph).inv(),
            g.pushed_owner_spec() ==> old(arena).current_stack().len() > 0,
            g.pushed_observer_spec() ==> observer_of(old(graph)@) is Some,
        ensures
            final(arena).wf(),
            final(graph).inv(),
            final(arena).nodes() == old(arena).nodes(),
            final(arena).token_counter() == old(arena).token_counter(),
            final(graph)@.sources == old(graph)@.sources,
            final(graph)@.subs == old(graph)@.subs,
            final(arena).current_stack() == if g.pushed_owner_spec() {
                old(arena).current_stack().drop_last()
            } else {
                old(arena).current_stack()
            },
            final(graph)@.observers == if g.pushed_observer_spec() {
                old(graph)@.observers.drop_last()
            } else {
                old(graph)@.observers
            },
    {
        if g.pushed_owner {
            arena.exit();
        }
        if g.pushed_observer {
            graph.pop_observer();
        }
    }
}

/// Attribution law for scoped polls: once a poll has installed a captured
/// observer `s` — the observer stack grew by `s`, as
/// [`ScopedFuture::enter_poll`] ensures — every tracked read performed
/// during that poll records its dependency edge on `s` itself: afterwards
/// `s` depends on its previous dependencies plus exactly the sources read,
/// no other subscriber's dependencies move, and `s` is still the observer.
pub proof fn lemma_scoped_poll_attributes_reads(g0: GraphView, s: int, reads: Seq<int>)
    requires
        graph_wf(g0),
        0 <= s < g0.subs.len(),
        forall|k: int| 0 <= k < reads.len() ==> 0 <= #[trigger] reads[k] < g0.sources.len(),
    ensures
        ({
            let g1 = GraphView { observers: g0.observers.push(s), ..g0 };
            let g2 = spec_run_reads(g1, s, reads);
            &&& observer_of(g1) == Some(s)
            &&& g2.subs[s].deps == g0.subs[s].deps.union(reads.to_set())
            &&& forall|j: int|
                0 <= j < g0.subs.len() && j != s ==> (#[trigger] g2.subs[j]).deps == g0.subs[j].deps
            &&& observer_of(g2) == Some(s)
        }),
{
    let g1 = GraphView { observers: g0.observers.push(s), ..g0 };
    lemma_reads_attribute_to_observer(g1, s, reads);
}

} // verus!
