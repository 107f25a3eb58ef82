//! A value that arrives once: the bridge from a completion callback to a
//! consumer that polls.

use vstd::prelude::*;

verus! {

/// A place for one value and for whoever waits for it. Wakers are named by
/// numbers.
pub struct OneShot<T> {
    pub value: Option<T>,
    pub waker: Option<u64>,
}

impl<T> OneShot<T> {
    /// The place after `v` was put in.
    pub open spec fn completed(self, v: T) -> OneShot<T> {
        OneShot { value: Some(v), waker: None }
    }

    /// The place after a consumer asked.
    pub open spec fn polled(self, waker: u64) -> OneShot<T> {
        OneShot {
            value: None,
            waker: if self.value is Some {
                self.waker
            } else {
                Some(waker)
            },
        }
    }

    /// An empty place.
    pub fn new() -> (r: OneShot<T>)
        ensures
            r == (OneShot::<T> { value: None, waker: None }),
    {
        OneShot { value: None, waker: None }
    }

    /// Puts the value in. The returned waker, if any, is to be woken.
    pub fn complete(&mut self, v: T) -> (r: Option<u64>)
        ensures
            r == old(self).waker,
            *final(self) == old(self).completed(v),
    {
        self.value = Some(v);
        self.waker.take()
    }

    /// Takes the value out; without one, remembers whom to wake.
    pub fn poll(&mut self, waker: u64) -> (r: Option<T>)
        ensures
            r == old(self).value,
            *final(self) == old(self).polled(waker),
    {
        let v = self.value.take();
        if v.is_none() {
            self.waker = Some(waker);
        }
        v
    }
}

/// A value is not missed, whoever comes first: a consumer that asked too
/// early is the one to wake, and one that asks later finds the value, once.
pub proof fn law_value_arrives_once<T>(place: OneShot<T>, waker: u64, v: T)
    requires
        place.value is None,
    ensures
        place.polled(waker).waker == Some(waker),
        place.polled(waker).completed(v).value == Some(v),
        place.completed(v).value == Some(v),
        place.completed(v).polled(waker).value is None,
{
}

/// A consumer that finds the value takes it and leaves whom to wake alone; a
/// value that arrives wakes nobody twice.
pub proof fn law_ready_value_is_taken<T>(place: OneShot<T>, waker: u64, v: T)
    ensures
        place.completed(v).waker is None,
        place.polled(waker).value is None,
        place.value is Some ==> place.polled(waker).waker == place.waker,
        place.value is None ==> place.polled(waker).waker == Some(waker),
{
}

} // verus!
