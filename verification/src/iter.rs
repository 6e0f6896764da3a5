//! Bridges to the standard iterator interface: an iterator is drained into a
//! producer, and a producer is pulled through an iterator.

use crate::producer::Producer;
use crate::sources::{from_deque, Owned};
use std::collections::VecDeque;
use vstd::prelude::*;
use vstd::std_specs::iter::{IteratorSpec, IteratorSpecImpl};

verus! {

/// Drains a standard iterator that ends into a producer of what it yields.
/// The iterator is consumed at once; the elements are held until pulled.
pub fn from_iter<I: Iterator>(iter: I) -> (r: Owned<I::Item>)
    requires
        iter.obeys_prophetic_iter_laws(),
        iter.decrease() is Some,
    ensures
        r.wf(),
        r.remaining() == iter.remaining(),
{
    let mut iter = iter;
    let ghost all = iter.remaining();
    let mut items: VecDeque<I::Item> = VecDeque::new();
    loop
        invariant
            iter.obeys_prophetic_iter_laws(),
            iter.decrease() is Some,
            items@ + iter.remaining() == all,
        ensures
            items@ == all,
        decreases iter.decrease()->0,
    {
        let ghost pending = iter.remaining();
        match iter.next() {
            None => {
                assert(items@ + pending =~= items@);
                break ;
            },
            Some(x) => {
                items.push_back(x);
                assert(items@ + iter.remaining() =~= all);
            },
        }
    }
    from_deque(items)
}

/// A producer seen as a standard iterator.
pub struct Pulls<P: Producer> {
    inner: Option<P>,
}

impl<P: Producer> Pulls<P> {
    /// The producer, which is set aside only while it is being pulled, is valid.
    #[verifier::type_invariant]
    spec fn inv(self) -> bool {
        match self.inner {
            Some(p) => p.wf(),
            None => true,
        }
    }

    /// The elements that the iterator will still yield.
    pub closed spec fn pending(&self) -> Seq<P::Item> {
        match self.inner {
            Some(p) => p.remaining(),
            None => Seq::empty(),
        }
    }
}

impl<P: Producer> Iterator for Pulls<P> {
    type Item = P::Item;

    fn next(&mut self) -> (r: Option<P::Item>) {
        proof {
            use_type_invariant(&*self);
        }
        let mut taken = Pulls { inner: None };
        core::mem::swap(self, &mut taken);
        match taken.inner {
            None => None,
            Some(p) => {
                let mut p = p;
                let r = p.next();
                *self = Pulls { inner: Some(p) };
                r
            },
        }
    }
}

impl<P: Producer> IteratorSpecImpl for Pulls<P> {
    open spec fn obeys_prophetic_iter_laws(&self) -> bool {
        true
    }

    closed spec fn remaining(&self) -> Seq<P::Item> {
        self.pending()
    }

    closed spec fn will_return_none(&self) -> bool {
        true
    }

    closed spec fn decrease(&self) -> Option<nat> {
        Some(self.pending().len())
    }

    open spec fn initial_value_relation(&self, init: &Self) -> bool {
        self.pending() == init.pending()
    }

    open spec fn peek(&self, index: int) -> Option<P::Item> {
        if 0 <= index < self.pending().len() {
            Some(self.pending()[index])
        } else {
            None
        }
    }
}

/// Turns a producer into a standard iterator over its pending elements.
pub fn pulls<P: Producer>(p: P) -> (r: Pulls<P>)
    requires
        p.wf(),
    ensures
        r.pending() == p.remaining(),
        IteratorSpec::remaining(&r) == p.remaining(),
        IteratorSpec::obeys_prophetic_iter_laws(&r),
        IteratorSpec::decrease(&r) is Some,
{
    Pulls { inner: Some(p) }
}

} // verus!
