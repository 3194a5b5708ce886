//! A deferred call that can be made at most once.
//!
//! A [`Thunk`] owns a closure together with everything the closure captured,
//! stored in a [`Slot`]. The closure's concrete type is hidden, so thunks built
//! from different closures share one type as long as they produce the same kind
//! of result. Calling a thunk consumes it; a thunk that is never called releases
//! what it captured when it goes out of scope.

use vstd::prelude::*;
use crate::slot::{fits, Slot};

verus! {

/// What a thunk needs from the storage behind it: a way to run the stored call,
/// whatever its concrete type.
trait Deferred<T> {
    /// The stored call may be made.
    spec fn ready(&self) -> bool;

    /// `result` is a value that the stored call may return.
    spec fn produces(&self, result: T) -> bool;

    /// Takes the stored call out of its storage and makes it.
    fn invoke(self: Box<Self>) -> (result: T)
        requires
            self.ready(),
        ensures
            self.produces(result),
    ;
}

impl<T, F: FnOnce() -> T> Deferred<T> for Slot<F> {
    spec fn ready(&self) -> bool {
        self@ matches Some(f) && call_requires(f, ())
    }

    spec fn produces(&self, result: T) -> bool {
        self@ matches Some(f) && call_ensures(f, (), result)
    }

    fn invoke(self: Box<Self>) -> (result: T) {
        let mut slot = *self;
        let f = slot.take();
        f()
    }
}

/// A single-use deferred computation of a `T`.
#[verifier::reject_recursive_types(T)]
pub struct Thunk<'a, T = ()> {
    inner: Box<dyn Deferred<T> + 'a>,
}

impl<'a, T> Thunk<'a, T> {
    /// The thunk may be called: the precondition of the closure it was built
    /// from holds.
    pub closed spec fn callable(&self) -> bool {
        self.inner.ready()
    }

    /// `result` is a value that calling the thunk may return: one that the
    /// closure it was built from may return.
    pub closed spec fn yields(&self, result: T) -> bool {
        self.inner.produces(result)
    }

    /// Stores `fn_once`, with what it captured, in a slot of its own for a
    /// later call.
    pub fn new<F>(fn_once: F) -> (thunk: Self) where F: FnOnce() -> T + 'a
        requires
            fits::<F>(),
        ensures
            thunk.callable() <==> call_requires(fn_once, ()),
            forall|result: T| thunk.yields(result) <==> call_ensures(fn_once, (), result),
    {
        Thunk::new_in(Slot::new(), fn_once)
    }

    /// Stores `fn_once`, with what it captured, in the vacant `slot` for a
    /// later call. The thunk keeps the slot until it is called or dropped.
    pub fn new_in<F>(slot: Slot<F>, fn_once: F) -> (thunk: Self) where F: FnOnce() -> T + 'a
        requires
            fits::<F>(),
            slot@ is None,
        ensures
            thunk.callable() <==> call_requires(fn_once, ()),
            forall|result: T| thunk.yields(result) <==> call_ensures(fn_once, (), result),
    {
        let mut slot = slot;
        let _ = slot.put(fn_once);
        Thunk { inner: Box::new(slot) }
    }

    /// Stores `fn_once` if its captured state fits a slot, and hands it back
    /// untouched if it does not.
    pub fn try_new<F>(fn_once: F) -> (outcome: Result<Self, F>) where F: FnOnce() -> T + 'a
        ensures
            outcome is Ok <==> fits::<F>(),
            outcome matches Ok(thunk) ==> {
                &&& thunk.callable() <==> call_requires(fn_once, ())
                &&& forall|result: T| thunk.yields(result) <==> call_ensures(fn_once, (), result)
            },
            outcome matches Err(refused) ==> refused == fn_once,
    {
        if Slot::<F>::admits() {
            Ok(Thunk::new(fn_once))
        } else {
            Err(fn_once)
        }
    }

    /// Makes the deferred call and returns its result.
    pub fn call(self) -> (result: T)
        requires
            self.callable(),
        ensures
            self.yields(result),
    {
        self.inner.invoke()
    }
}

} // verus!
