//! Concatenation of producers: all of the first, then all of the next.

use crate::producer::{BackProducer, Producer, SizedProducer};
use crate::sources::{empty, Single};
use vstd::prelude::*;

verus! {

/// Two producers of the same element type, one after the other.
pub struct Chain2<A, B> {
    a: A,
    b: B,
}

impl<A: Producer, B: Producer<Item = A::Item>> Producer for Chain2<A, B> {
    type Item = A::Item;

    closed spec fn wf(&self) -> bool {
        self.a.wf() && self.b.wf()
    }

    closed spec fn remaining(&self) -> Seq<A::Item> {
        self.a.remaining() + self.b.remaining()
    }

    fn next(&mut self) -> (r: Option<A::Item>) {
        match self.a.next() {
            Some(x) => {
                assert(self.remaining() =~= old(self).remaining().skip(1));
                Some(x)
            },
            None => {
                let r = self.b.next();
                assert(old(self).remaining() =~= old(self).b.remaining());
                assert(self.remaining() =~= self.b.remaining());
                r
            },
        }
    }
}

impl<A: BackProducer, B: BackProducer<Item = A::Item>> BackProducer for Chain2<A, B> {
    fn next_back(&mut self) -> (r: Option<A::Item>) {
        match self.b.next_back() {
            Some(x) => {
                assert(self.remaining() =~= old(self).remaining().take(
                    old(self).remaining().len() - 1,
                ));
                Some(x)
            },
            None => {
                let r = self.a.next_back();
                assert(old(self).remaining() =~= old(self).a.remaining());
                assert(self.remaining() =~= self.a.remaining());
                r
            },
        }
    }
}

impl<A: SizedProducer, B: SizedProducer<Item = A::Item>> Chain2<A, B> {
    /// The exact number of pending elements, or `None` when that number does
    /// not fit in a `usize`.
    pub fn checked_len(&self) -> (n: Option<usize>)
        requires
            self.wf(),
        ensures
            match n {
                Some(k) => k == self.remaining().len(),
                None => self.remaining().len() > usize::MAX,
            },
    {
        let la = self.a.len();
        let lb = self.b.len();
        if la <= usize::MAX - lb {
            Some(la + lb)
        } else {
            None
        }
    }
}

/// The concatenation of no producers: exhausted from the start.
pub fn chain0() -> (r: Single<()>)
    ensures
        r.wf(),
        r.remaining() == Seq::<()>::empty(),
{
    empty()
}

/// The concatenation of one producer: the producer itself.
pub fn chain1<A: Producer>(a: A) -> (r: A)
    ensures
        r == a,
{
    a
}

/// All elements of `a`, then all elements of `b`.
pub fn chain2<A: Producer, B: Producer<Item = A::Item>>(a: A, b: B) -> (r: Chain2<A, B>)
    requires
        a.wf(),
        b.wf(),
    ensures
        r.wf(),
        r.remaining() == a.remaining() + b.remaining(),
{
    Chain2 { a, b }
}

/// All elements of `a`, then all of `b`, then all of `c`.
pub fn chain3<A: Producer, B: Producer<Item = A::Item>, C: Producer<Item = A::Item>>(
    a: A,
    b: B,
    c: C,
) -> (r: Chain2<Chain2<A, B>, C>)
    requires
        a.wf(),
        b.wf(),
        c.wf(),
    ensures
        r.wf(),
        r.remaining() == a.remaining() + b.remaining() + c.remaining(),
{
    chain2(chain2(a, b), c)
}

} // verus!
