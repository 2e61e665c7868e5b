//! The async I/O resource as the reactor sees it: its registration
//! lifecycle (registered at construction, deregistered exactly once, at
//! destruction), and the decision every suspend point takes after one
//! non-blocking OS attempt.

use vstd::prelude::*;
use crate::reactor::Reactor;

verus! {

/// The interest a resource registers with: fixed at creation, read-only
/// for a listening resource, read and write for a connected stream.
#[derive(Clone, Copy, Debug, PartialEq, Eq, Structural)]
pub enum Interest {
    ReadOnly,
    ReadWrite,
}

/// The outcome of one non-blocking OS call, as the caller observed it.
pub enum Attempt<T, E> {
    /// The call completed with a value (bytes moved, a connection taken).
    Completed(T),
    /// The call cannot complete yet: the suspension signal, consumed here
    /// and never surfaced as an error.
    WouldBlock,
    /// Any other error: surfaced immediately, never retried by this layer.
    Failed(E),
}

/// What the suspend point decides to do with that outcome.
pub enum Step<T, E> {
    /// Yield the value now; no suspension.
    Yielded(T),
    /// Yield the error now.
    Failed(E),
    /// The waker was recorded under the resource's key; the operation is
    /// suspended until the next matching readiness event drives a fresh
    /// attempt.
    Suspended,
}

impl<W> Reactor<W> {
    /// Resolve one poll of a suspendable operation: success and failure are
    /// yielded as they are, with the registry untouched; would-block records
    /// the current waker under the key — overwriting any waker the key held,
    /// including one left by another operation of the same resource — and
    /// suspends.
    pub fn poll_step<T, E>(&mut self, key: u64, waker: W, attempt: Attempt<T, E>) -> (r: Step<
        T,
        E,
    >)
        requires
            old(self).wf(),
        ensures
            final(self).wf(),
            final(self).registered() == old(self).registered(),
            attempt matches Attempt::Completed(v) ==> r == Step::<T, E>::Yielded(v)
                && final(self).waiting() == old(self).waiting(),
            attempt matches Attempt::Failed(e) ==> r == Step::<T, E>::Failed(e)
                && final(self).waiting() == old(self).waiting(),
            attempt is WouldBlock ==> r is Suspended
                && final(self).waiting() == old(self).waiting().insert(key, waker),
    {
        match attempt {
            Attempt::Completed(v) => Step::Yielded(v),
            Attempt::WouldBlock => {
                self.record_wait(key, waker);
                Step::Suspended
            }
            Attempt::Failed(e) => Step::Failed(e),
        }
    }
}

/// The registration of one resource: created registered, consumed to
/// deregister, so deregistration happens exactly once and cannot be
/// attempted on a resource that was never registered.
pub struct Registration {
    key: u64,
    interest: Interest,
}

impl Registration {
    /// The readiness key the resource registered under, derived by the
    /// caller from the OS handle.
    pub closed spec fn key(&self) -> u64 {
        self.key
    }

    /// The interest set fixed at creation.
    pub closed spec fn interest(&self) -> Interest {
        self.interest
    }

    /// The key, as a value.
    pub fn key_value(&self) -> (r: u64)
        ensures
            r == self.key(),
    {
        self.key
    }

    /// The interest set, as a value.
    pub fn interest_value(&self) -> (r: Interest)
        ensures
            r == self.interest(),
    {
        self.interest
    }

    /// Register a resource's key with the worker's reactor at construction.
    /// Keys are per-handle and handles are owned exclusively, so the key is
    /// not yet registered.
    pub fn open<W>(reactor: &mut Reactor<W>, key: u64, interest: Interest) -> (r: Self)
        requires
            old(reactor).wf(),
            !old(reactor).registered().contains(key),
        ensures
            r.key() == key,
            r.interest() == interest,
            final(reactor).wf(),
            final(reactor).registered() == old(reactor).registered().insert(key),
            final(reactor).waiting() == old(reactor).waiting(),
    {
        reactor.register(key);
        Registration { key, interest }
    }

    /// Deregister at destruction, consuming the registration: after this no
    /// readiness event names the key, so a waker still recorded under it is
    /// never dispatched.
    pub fn close<W>(self, reactor: &mut Reactor<W>)
        requires
            old(reactor).wf(),
            old(reactor).registered().contains(self.key()),
        ensures
            final(reactor).wf(),
            final(reactor).registered() == old(reactor).registered().remove(self.key()),
            final(reactor).waiting() == old(reactor).waiting(),
    {
        reactor.deregister(self.key);
    }
}

} // verus!
