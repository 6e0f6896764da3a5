//! Sources: producers over vectors, slices, single values and counters.

use crate::producer::{after_front, BackProducer, Producer, Restartable, SizedProducer};
use std::collections::VecDeque;
use vstd::prelude::*;

verus! {

/// An owning source over the elements of a vector, front to back.
pub struct Owned<T> {
    items: VecDeque<T>,
}

impl<T> Producer for Owned<T> {
    type Item = T;

    open spec fn wf(&self) -> bool {
        true
    }

    closed spec fn remaining(&self) -> Seq<T> {
        self.items@
    }

    fn next(&mut self) -> (r: Option<T>) {
        self.items.pop_front()
    }
}

impl<T> BackProducer for Owned<T> {
    fn next_back(&mut self) -> (r: Option<T>) {
        self.items.pop_back()
    }
}

impl<T> SizedProducer for Owned<T> {
    fn len(&self) -> (n: usize) {
        self.items.len()
    }
}

/// Turns a queue into a producer of its elements, front to back.
pub fn from_deque<T>(items: VecDeque<T>) -> (r: Owned<T>)
    ensures
        r.wf(),
        r.remaining() == items@,
{
    Owned { items }
}

/// Turns a vector into a producer of its elements, first to last.
pub fn from_vec<T>(v: Vec<T>) -> (r: Owned<T>)
    ensures
        r.wf(),
        r.remaining() == v@,
{
    let mut v = v;
    let ghost orig = v@;
    let mut items: VecDeque<T> = VecDeque::new();
    while v.len() > 0
        invariant
            v@ + items@ == orig,
        decreases v.len(),
    {
        let ghost before = v@ + items@;
        let x = v.pop().unwrap();
        items.push_front(x);
        assert(v@ + items@ =~= before);
    }
    assert(v@ + items@ =~= items@);
    Owned { items }
}

/// A borrowing source over the elements of a slice, front to back.
pub struct Refs<'a, T> {
    items: &'a [T],
    front: usize,
    back: usize,
}

impl<'a, T> Producer for Refs<'a, T> {
    type Item = &'a T;

    closed spec fn wf(&self) -> bool {
        self.front <= self.back <= self.items@.len()
    }

    closed spec fn remaining(&self) -> Seq<&'a T> {
        self.items@.subrange(self.front as int, self.back as int).as_ref()
    }

    fn next(&mut self) -> (r: Option<&'a T>) {
        if self.front < self.back {
            let x = &self.items[self.front];
            self.front = self.front + 1;
            assert(self.remaining() =~= old(self).remaining().skip(1));
            Some(x)
        } else {
            None
        }
    }
}

impl<'a, T> BackProducer for Refs<'a, T> {
    fn next_back(&mut self) -> (r: Option<&'a T>) {
        if self.front < self.back {
            self.back = self.back - 1;
            let x = &self.items[self.back];
            assert(self.remaining() =~= old(self).remaining().take(
                old(self).remaining().len() - 1,
            ));
            Some(x)
        } else {
            None
        }
    }
}

impl<'a, T> SizedProducer for Refs<'a, T> {
    fn len(&self) -> (n: usize) {
        self.back - self.front
    }
}

impl<'a, T> Restartable for Refs<'a, T> {
    fn fork(&self) -> (r: Self) {
        Refs { items: self.items, front: self.front, back: self.back }
    }
}

/// Turns a slice into a producer of references to its elements, first to last.
pub fn from_slice<'a, T>(items: &'a [T]) -> (r: Refs<'a, T>)
    ensures
        r.wf(),
        r.remaining() == items@.as_ref(),
{
    let r = Refs { items, front: 0, back: items.len() };
    assert(r.remaining() =~= items@.as_ref());
    r
}

/// A borrowing source over the elements of a slice that hands out copies.
pub struct Values<'a, T> {
    items: &'a [T],
    front: usize,
    back: usize,
}

impl<'a, T: Copy> Producer for Values<'a, T> {
    type Item = T;

    closed spec fn wf(&self) -> bool {
        self.front <= self.back <= self.items@.len()
    }

    closed spec fn remaining(&self) -> Seq<T> {
        self.items@.subrange(self.front as int, self.back as int)
    }

    fn next(&mut self) -> (r: Option<T>) {
        if self.front < self.back {
            let x = self.items[self.front];
            self.front = self.front + 1;
            assert(self.remaining() =~= old(self).remaining().skip(1));
            Some(x)
        } else {
            None
        }
    }
}

impl<'a, T: Copy> BackProducer for Values<'a, T> {
    fn next_back(&mut self) -> (r: Option<T>) {
        if self.front < self.back {
            self.back = self.back - 1;
            let x = self.items[self.back];
            assert(self.remaining() =~= old(self).remaining().take(
                old(self).remaining().len() - 1,
            ));
            Some(x)
        } else {
            None
        }
    }
}

impl<'a, T: Copy> SizedProducer for Values<'a, T> {
    fn len(&self) -> (n: usize) {
        self.back - self.front
    }
}

impl<'a, T: Copy> Restartable for Values<'a, T> {
    fn fork(&self) -> (r: Self) {
        Values { items: self.items, front: self.front, back: self.back }
    }
}

/// Turns a slice into a producer of copies of its elements, first to last.
pub fn copied<'a, T: Copy>(items: &'a [T]) -> (r: Values<'a, T>)
    ensures
        r.wf(),
        r.remaining() == items@,
{
    let r = Values { items, front: 0, back: items.len() };
    assert(r.remaining() =~= items@);
    r
}

/// A source of at most one element.
pub struct Single<T> {
    item: Option<T>,
}

impl<T> Producer for Single<T> {
    type Item = T;

    open spec fn wf(&self) -> bool {
        true
    }

    closed spec fn remaining(&self) -> Seq<T> {
        match self.item {
            Some(x) => seq![x],
            None => Seq::empty(),
        }
    }

    fn next(&mut self) -> (r: Option<T>) {
        let r = self.item.take();
        assert(self.remaining() =~= after_front(old(self).remaining()));
        r
    }
}

/// A producer that yields `x` and is then exhausted.
pub fn once<T>(x: T) -> (r: Single<T>)
    ensures
        r.wf(),
        r.remaining() == seq![x],
{
    Single { item: Some(x) }
}

/// A producer that is exhausted from the start.
pub fn empty<T>() -> (r: Single<T>)
    ensures
        r.wf(),
        r.remaining() == Seq::<T>::empty(),
{
    Single { item: None }
}

/// The integers from `start` up to `u64::MAX`, in ascending order.
pub open spec fn counting_from(start: u64) -> Seq<u64> {
    Seq::new((u64::MAX - start + 1) as nat, |i: int| (start + i) as u64)
}

/// A source of consecutive integers that ends after `u64::MAX`.
pub struct Counter {
    upcoming: Option<u64>,
}

impl Producer for Counter {
    type Item = u64;

    open spec fn wf(&self) -> bool {
        true
    }

    closed spec fn remaining(&self) -> Seq<u64> {
        match self.upcoming {
            Some(n) => counting_from(n),
            None => Seq::empty(),
        }
    }

    fn next(&mut self) -> (r: Option<u64>) {
        match self.upcoming {
            Some(n) => {
                if n < u64::MAX {
                    self.upcoming = Some(n + 1);
                } else {
                    self.upcoming = None;
                }
                assert(self.remaining() =~= old(self).remaining().skip(1));
                Some(n)
            },
            None => None,
        }
    }
}

/// A producer of `start`, `start + 1`, and so on up to `u64::MAX`.
pub fn count_from(start: u64) -> (r: Counter)
    ensures
        r.wf(),
        r.remaining() == counting_from(start),
{
    Counter { upcoming: Some(start) }
}

} // verus!
