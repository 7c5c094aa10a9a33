//! A service whose inner composition is swapped at runtime behind a stable front.
//!
//! A front adopts a newly loaded inner only when it is asked whether it is ready, never between
//! that and the call it answers: a reservation, once granted, is honoured by the inner that
//! granted it.

use vstd::prelude::*;

verus! {

/// A front over a swappable inner: the one it holds, and the load it came from.
pub struct HotSwap<S: Copy> {
    pub current: Option<S>,
    pub adopted: u64,
}

/// The inner that is loaded, and a generation that moves on with each load so that fronts know to
/// adopt again.
pub struct HotSwapHandle<S: Copy> {
    pub inner: S,
    pub generation: u64,
}

/// Whether a front adopts what is loaded: it holds nothing yet, or something else was loaded
/// since.
pub open spec fn adopts<S: Copy>(front: HotSwap<S>, handle: HotSwapHandle<S>) -> bool {
    front.current is None || handle.generation != front.adopted
}

/// The front once it has been asked whether it is ready.
pub open spec fn readied<S: Copy>(front: HotSwap<S>, handle: HotSwapHandle<S>) -> HotSwap<S> {
    if adopts(front, handle) {
        HotSwap { current: Some(handle.inner), adopted: handle.generation }
    } else {
        front
    }
}

/// The handle once `inner` is loaded.
pub open spec fn loaded<S: Copy>(handle: HotSwapHandle<S>, inner: S) -> HotSwapHandle<S> {
    HotSwapHandle {
        inner,
        generation: if handle.generation == u64::MAX {
            0
        } else {
            (handle.generation + 1) as u64
        },
    }
}

/// A front that holds nothing yet.
pub open spec fn fresh<S: Copy>() -> HotSwap<S> {
    HotSwap { current: None, adopted: u64::MAX }
}

/// What a front holds is what was loaded at the generation it adopted.
pub open spec fn current_with<S: Copy>(front: HotSwap<S>, handle: HotSwapHandle<S>) -> bool {
    front.current is Some && front.adopted == handle.generation ==> front.current == Some(
        handle.inner,
    )
}

impl<S: Copy> HotSwap<S> {
    /// The front, and the handle that reloads it.
    pub fn new(inner: S) -> (pair: (HotSwap<S>, HotSwapHandle<S>))
        ensures
            pair.0 == fresh::<S>(),
            pair.1 == (HotSwapHandle { inner, generation: 0 }),
            current_with(pair.0, pair.1),
    {
        (HotSwap { current: None, adopted: u64::MAX }, HotSwapHandle { inner, generation: 0 })
    }

    /// Another front onto the same handle: it holds nothing until it is first asked.
    pub fn another(&self) -> (front: HotSwap<S>)
        ensures
            front == fresh::<S>(),
    {
        HotSwap { current: None, adopted: u64::MAX }
    }

    /// Asked whether it is ready, which is the one place a swap is adopted: the inner to ask.
    pub fn ready(&mut self, handle: &HotSwapHandle<S>) -> (inner: S)
        ensures
            *final(self) == readied(*old(self), *handle),
            final(self).current == Some(inner),
    {
        match self.current {
            Some(held) if handle.generation == self.adopted => held,
            _ => {
                self.current = Some(handle.inner);
                self.adopted = handle.generation;
                handle.inner
            },
        }
    }

    /// The inner that answers a call: the one that was ready.
    pub fn call(&self) -> (inner: S)
        requires
            self.current is Some,
        ensures
            Some(inner) == self.current,
    {
        self.current.unwrap()
    }
}

impl<S: Copy> HotSwapHandle<S> {
    /// Replace the composition. What was granted by the old one is finished by it; every front
    /// picks this up the next time it is asked whether it is ready.
    pub fn load(&mut self, inner: S)
        ensures
            *final(self) == loaded(*old(self), inner),
    {
        self.inner = inner;
        self.generation = if self.generation == u64::MAX {
            0
        } else {
            self.generation + 1
        };
    }
}

/// A load is seen on the next readiness, and what is held is always what is loaded.
pub proof fn a_load_is_seen_on_the_next_readiness<S: Copy>(
    front: HotSwap<S>,
    handle: HotSwapHandle<S>,
    inner: S,
)
    ensures
        readied(readied(front, handle), loaded(handle, inner)).current == Some(inner),
        current_with(front, handle) ==> readied(front, handle).current == Some(handle.inner),
        current_with(readied(front, loaded(handle, inner)), loaded(handle, inner))
            || !adopts(front, loaded(handle, inner)),
{
}

/// A reservation is honoured by the inner that granted it: however many times something else is
/// loaded between readiness and the call, the call goes to the inner that was ready.
pub proof fn a_reservation_is_honoured_by_the_inner_that_granted_it<S: Copy>(
    front: HotSwap<S>,
    handle: HotSwapHandle<S>,
    later: HotSwapHandle<S>,
)
    requires
        current_with(front, handle),
    ensures
        readied(front, handle).current == Some(handle.inner),
        adopts(readied(front, handle), later) <==> later.generation != handle.generation,
{
}

/// A fresh front starts current, whatever was loaded before it and however often.
pub proof fn a_fresh_front_adopts_the_latest<S: Copy>(handle: HotSwapHandle<S>)
    ensures
        readied(fresh::<S>(), handle).current == Some(handle.inner),
        current_with(fresh::<S>(), handle),
{
}

/// Loading keeps every front current until the generations have come all the way round.
pub proof fn loading_strands_nobody<S: Copy>(
    front: HotSwap<S>,
    handle: HotSwapHandle<S>,
    inner: S,
)
    requires
        front.adopted != loaded(handle, inner).generation || front.current is None,
    ensures
        current_with(front, loaded(handle, inner)),
        readied(front, loaded(handle, inner)).current == Some(inner),
{
}

/// Loading counts up by one, around the end, so that no load is taken for the one before it.
pub proof fn a_load_is_the_next_generation<S: Copy>(handle: HotSwapHandle<S>, inner: S)
    ensures
        loaded(handle, inner).inner == inner,
        handle.generation < u64::MAX ==> loaded(handle, inner).generation == handle.generation + 1,
        handle.generation == u64::MAX ==> loaded(handle, inner).generation == 0,
        loaded(handle, inner).generation != handle.generation,
{
}

} // verus!
