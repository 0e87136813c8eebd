//! Asynchronous derived state with stale-while-revalidate semantics.
//!
//! An [`AsyncState`] is `Loading` until a first value arrives, `Complete`
//! while the value is current, and `Reloading` — still carrying the last
//! value — while a refresh is in flight. A [`Resource`] drives those
//! transitions: it owns the state, a generation counter that retires stale
//! computations (at most one computation is live per resource; a dependency
//! change cancels the stale one by outdating its generation), the
//! subscriber handle under which its computation tracks reads, and the
//! sender half of the notify channel that wakes its task.

use crate::notify::{ChannelTable, Sender};
use crate::notify::notified;
use crate::observer::AnySubscriber;
use vstd::prelude::*;

verus! {

/// The lifecycle of an asynchronously computed value.
#[derive(Clone, Debug, PartialEq, Eq)]
pub enum AsyncState<T> {
    /// No value has ever been produced.
    Loading,
    /// The value is current.
    Complete(T),
    /// A refresh is in flight; the previous value is retained meanwhile.
    Reloading(T),
}

impl<T> AsyncState<T> {
    /// The last known value, if any.
    pub open spec fn value(self) -> Option<T> {
        match self {
            AsyncState::Loading => None,
            AsyncState::Complete(v) => Some(v),
            AsyncState::Reloading(v) => Some(v),
        }
    }

    /// The last known value in constant time: present in `Complete` and in
    /// `Reloading` (the retained stale value), absent only in `Loading`.
    pub fn current_value(&self) -> (r: Option<&T>)
        ensures
            match r {
                Some(v) => self.value() == Some(*v),
                None => self.value() is None,
            },
            (r is Some) == !(self is Loading),
    {
        match self {
            AsyncState::Loading => None,
            AsyncState::Complete(val) => Some(val),
            AsyncState::Reloading(val) => Some(val),
        }
    }

    /// Whether fresh data is still on its way: true in `Loading` and
    /// `Reloading`, false only in `Complete` — callers show stale data with
    /// an indicator in `Reloading` rather than blocking.
    pub fn loading(&self) -> (r: bool)
        ensures
            r == !(self is Complete),
    {
        match self {
            AsyncState::Loading => true,
            AsyncState::Reloading(_) => true,
            AsyncState::Complete(_) => false,
        }
    }
}

impl<T> Default for AsyncState<T> {
    /// An asynchronous value starts out `Loading`.
    fn default() -> (r: Self)
        ensures
            r is Loading,
    {
        AsyncState::Loading
    }
}

/// An asynchronous derived value: state machine over [`AsyncState`] with
/// last-writer-wins cancellation of superseded computations.
pub struct Resource<T> {
    state: AsyncState<T>,
    generation: u64,
    in_flight: bool,
    subscriber: AnySubscriber,
    sender: Sender,
}

impl<T> Resource<T> {
    /// The lifecycle state.
    pub closed spec fn state_spec(self) -> AsyncState<T> {
        self.state
    }

    /// The generation of the computation currently allowed to resolve.
    pub closed spec fn generation_spec(self) -> int {
        self.generation as int
    }

    /// Whether a computation is in flight.
    pub closed spec fn in_flight(self) -> bool {
        self.in_flight
    }

    /// The subscriber handle under which the computation tracks its reads.
    pub closed spec fn subscriber_spec(self) -> AnySubscriber {
        self.subscriber
    }

    /// The sender half of the wake channel of the resource's task.
    pub closed spec fn sender_spec(self) -> Sender {
        self.sender
    }

    /// A fresh resource: `Loading`, with its first computation (generation
    /// zero) in flight.
    pub fn new(subscriber: AnySubscriber, sender: Sender) -> (r: Resource<T>)
        ensures
            r.state_spec() is Loading,
            r.generation_spec() == 0,
            r.in_flight(),
            r.subscriber_spec() == subscriber,
            r.sender_spec() == sender,
    {
        Resource {
            state: AsyncState::Loading,
            generation: 0,
            in_flight: true,
            subscriber,
            sender,
        }
    }

    /// The last known value, if any; constant time.
    pub fn current_value(&self) -> (r: Option<&T>)
        ensures
            match r {
                Some(v) => self.state_spec().value() == Some(*v),
                None => self.state_spec().value() is None,
            },
            (r is Some) == !(self.state_spec() is Loading),
    {
        self.state.current_value()
    }

    /// Whether fresh data is still on its way.
    pub fn loading(&self) -> (r: bool)
        ensures
            r == !(self.state_spec() is Complete),
    {
        self.state.loading()
    }

    /// The current generation, to be handed to [`try_resolve`] by the
    /// computation it was started with.
    ///
    /// [`try_resolve`]: Resource::try_resolve
    pub fn generation(&self) -> (g: u64)
        ensures
            g as int == self.generation_spec(),
    {
        self.generation
    }

    /// The subscriber handle of this resource's computation.
    pub fn subscriber(&self) -> (s: AnySubscriber)
        ensures
            s == self.subscriber_spec(),
    {
        self.subscriber
    }

    /// A dependency changed: the stale computation, if any, is cancelled by
    /// retiring its generation, a fresh computation (whose generation is
    /// returned) starts, and the last known value is retained — `Complete`
    /// becomes `Reloading` with the same value, `Reloading` stays as it
    /// was, `Loading` stays `Loading`.
    pub fn invalidate(&mut self) -> (g: u64)
        requires
            old(self).generation_spec() < u64::MAX,
        ensures
            final(self).generation_spec() == old(self).generation_spec() + 1,
            g as int == final(self).generation_spec(),
            final(self).in_flight(),
            final(self).state_spec().value() == old(self).state_spec().value(),
            (final(self).state_spec() is Loading) == (old(self).state_spec() is Loading),
            !(old(self).state_spec() is Loading) ==> final(self).state_spec() is Reloading,
            final(self).subscriber_spec() == old(self).subscriber_spec(),
            final(self).sender_spec() == old(self).sender_spec(),
    {
        self.generation = self.generation + 1;
        self.in_flight = true;
        let mut taken = AsyncState::Loading;
        core::mem::swap(&mut self.state, &mut taken);
        self.state = match taken {
            AsyncState::Loading => AsyncState::Loading,
            AsyncState::Complete(v) => AsyncState::Reloading(v),
            AsyncState::Reloading(v) => AsyncState::Reloading(v),
        };
        self.generation
    }

    /// Deliver the result of the computation of generation `g`. Accepted —
    /// the state becomes `Complete(value)`, discarding any stale retained
    /// value — exactly when `g` is still the current generation and the
    /// computation is still wanted; a superseded computation's result is
    /// discarded whole (last writer wins, nothing is buffered).
    pub fn try_resolve(&mut self, g: u64, value: T) -> (accepted: bool)
        ensures
            accepted == ((g as int) == old(self).generation_spec() && old(self).in_flight()),
            accepted ==> final(self).state_spec() == AsyncState::Complete(value) && !final(self).in_flight(),
            !accepted ==> final(self).state_spec() == old(self).state_spec() && final(self).in_flight() == old(self).in_flight(),
            final(self).generation_spec() == old(self).generation_spec(),
            final(self).subscriber_spec() == old(self).subscriber_spec(),
            final(self).sender_spec() == old(self).sender_spec(),
    {
        if g == self.generation && self.in_flight {
            self.state = AsyncState::Complete(value);
            self.in_flight = false;
            true
        } else {
            false
        }
    }

    /// A write reached one of this resource's dependencies: cancel the
    /// stale computation, start a fresh one, and raise the wake flag of the
    /// resource's channel so its task is polled again. Returns the fresh
    /// generation and whether a registered waiter must be woken.
    pub fn dependency_changed(&mut self, table: &mut ChannelTable) -> (r: (u64, bool))
        requires
            old(self).generation_spec() < u64::MAX,
            0 <= old(self).sender_spec().cell_index() < old(table).cells().len(),
        ensures
            final(self).generation_spec() == old(self).generation_spec() + 1,
            r.0 as int == final(self).generation_spec(),
            final(self).in_flight(),
            final(self).state_spec().value() == old(self).state_spec().value(),
            !(old(self).state_spec() is Loading) ==> final(self).state_spec() is Reloading,
            final(self).subscriber_spec() == old(self).subscriber_spec(),
            final(self).sender_spec() == old(self).sender_spec(),
            final(table).cells() == old(table).cells().update(
                old(self).sender_spec().cell_index(),
                notified(old(table).cells()[old(self).sender_spec().cell_index()]),
            ),
            r.1 == old(table).cells()[old(self).sender_spec().cell_index()].waker,
    {
        let g = self.invalidate();
        let wake = self.sender.notify(table);
        (g, wake)
    }
}

} // verus!
