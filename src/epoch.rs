//! Per-reader epoch counters.
//!
//! The low bit of a counter says whether its reader is inside a read critical
//! section; the remaining bits form a generation that only grows.
use std::sync::atomic::AtomicUsize;
use std::sync::atomic::Ordering;
use std::sync::Arc;
use vstd::prelude::*;

verus! {

/// An epoch value with its low bit set marks a reader inside a critical section.
pub open spec fn inside(e: usize) -> bool {
    e % 2 == 1
}

/// The value a counter takes when its reader enters a critical section.
pub open spec fn enter_spec(e: usize) -> usize
    recommends
        !inside(e),
{
    (e + 1) as usize
}

/// The value a counter takes when its reader leaves a critical section
/// (wrapping past the largest word).
pub open spec fn exit_spec(e: usize) -> usize {
    if e == usize::MAX {
        0
    } else {
        (e + 1) as usize
    }
}

/// Whether an epoch value marks a reader inside a critical section.
pub fn is_inside(e: usize) -> (r: bool)
    ensures
        r == inside(e),
{
    assert((e & 1 != 0) == (e % 2 == 1)) by (bit_vector);
    e & 1 != 0
}

/// The enter announcement: sets the low bit of an outside epoch.
pub fn entered(e: usize) -> (r: usize)
    requires
        !inside(e),
    ensures
        r == enter_spec(e),
        inside(r),
{
    assert(e % 2 == 0 ==> (e | 1) == e + 1) by (bit_vector);
    e | 1
}

/// The exit announcement: advances an inside epoch to the next generation,
/// which clears its low bit.
pub fn exited(e: usize) -> (r: usize)
    requires
        inside(e),
    ensures
        r == exit_spec(e),
        !inside(r),
{
    e.wrapping_add(1)
}

/// What entering does to a counter found at `e`: the announced value, or
/// `None` when `e` is already inside a critical section (a nested read).
pub open spec fn enter_outcome(e: usize) -> Option<usize> {
    if inside(e) {
        None
    } else {
        Some(enter_spec(e))
    }
}

/// What exiting does to a counter found at `e`: the announced value, or
/// `None` when `e` is not inside a critical section.
pub open spec fn exit_outcome(e: usize) -> Option<usize> {
    if inside(e) {
        Some(exit_spec(e))
    } else {
        None
    }
}

/// The enter decision for a counter found at `e`.
pub fn enter_step(e: usize) -> (r: Option<usize>)
    ensures
        r == enter_outcome(e),
{
    if is_inside(e) {
        None
    } else {
        Some(entered(e))
    }
}

/// The exit decision for a counter found at `e`.
pub fn exit_step(e: usize) -> (r: Option<usize>)
    ensures
        r == exit_outcome(e),
{
    if is_inside(e) {
        Some(exited(e))
    } else {
        None
    }
}

/// A balanced enter and exit advance an outside epoch by exactly two (wrapping
/// to zero past the largest word).
pub proof fn lemma_enter_exit_advances(e: usize)
    requires
        !inside(e),
    ensures
        inside(enter_spec(e)),
        e + 2 <= usize::MAX ==> exit_spec(enter_spec(e)) == e + 2,
        e + 2 > usize::MAX ==> exit_spec(enter_spec(e)) == 0,
        !inside(exit_spec(enter_spec(e))),
{
}

/// A reader sampled inside a critical section at `e` no longer shows `e` once
/// it has left that section, nor after it has entered the next one: a witness
/// recorded at `e` is dropped by the next reclamation pass that sees either.
pub proof fn lemma_moving_on_ends_witness(e: usize)
    requires
        inside(e),
    ensures
        exit_spec(e) != e,
        enter_spec(exit_spec(e)) != e,
{
}

/// A shared epoch counter. Only the owning reader stores to it; any holder of
/// a handle may load it.
pub struct Epoch {
    counter: Arc<AtomicUsize>,
}

impl Epoch {
    /// A fresh counter at generation zero, outside any critical section.
    pub fn new() -> (r: Epoch) {
        Epoch { counter: Arc::new(AtomicUsize::new(0)) }
    }

    /// Another handle on the same counter.
    pub fn share(&self) -> (r: Epoch) {
        Epoch { counter: self.counter.clone() }
    }

    /// Another shared reference to the counter.
    pub(crate) fn handle(&self) -> (r: Arc<AtomicUsize>) {
        self.counter.clone()
    }

    /// A handle on a counter that another shared reference already reaches.
    pub(crate) fn from_handle(counter: Arc<AtomicUsize>) -> (r: Epoch) {
        Epoch { counter }
    }

    /// The counter's current value (relaxed load).
    pub fn load(&self) -> (r: usize) {
        self.counter.load(Ordering::Relaxed)
    }

    /// Announces entry into a critical section (relaxed store of the value
    /// with the low bit set). Returns the announced value, or `None`, storing
    /// nothing, when the counter was already inside one. The result is the
    /// enter decision for the value the counter was found at.
    pub fn enter(&self) -> (r: Option<usize>)
        ensures
            exists|e: usize| r == #[trigger] enter_outcome(e),
            r matches Some(v) ==> inside(v),
    {
        let e = self.load();
        let r = enter_step(e);
        if let Some(n) = r {
            self.counter.store(n, Ordering::Relaxed);
        }
        r
    }

    /// Announces exit from a critical section (release store of the next
    /// generation). Returns the announced value, or `None`, storing nothing,
    /// when the counter was not inside one. The result is the exit decision
    /// for the value the counter was found at.
    pub fn exit(&self) -> (r: Option<usize>)
        ensures
            exists|e: usize| r == #[trigger] exit_outcome(e),
            r matches Some(v) ==> !inside(v),
    {
        let e = self.load();
        let r = exit_step(e);
        if let Some(n) = r {
            self.counter.store(n, Ordering::Release);
        }
        r
    }
}

} // verus!
