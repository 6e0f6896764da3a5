//! Alternation between two producers.

use crate::producer::Producer;
use vstd::prelude::*;

verus! {

/// The elements of `sa` and `sb` in turn, starting with `sa`; once one of
/// them has run out, the rest of the other follows.
pub open spec fn interleaved<T>(sa: Seq<T>, sb: Seq<T>) -> Seq<T>
    decreases sa.len() + sb.len(),
{
    if sa.len() == 0 {
        sb
    } else {
        seq![sa[0]] + interleaved(sb, sa.skip(1))
    }
}

/// Two producers of the same element type pulled in turn.
pub struct Interleave<A, B> {
    a: A,
    b: B,
    b_is_next: bool,
}

impl<A, B> Interleave<A, B> {
    /// The input that was pulled first.
    pub closed spec fn first(&self) -> A {
        self.a
    }

    /// The other input.
    pub closed spec fn second(&self) -> B {
        self.b
    }

    /// Whether the next pull goes to the second input.
    pub closed spec fn second_is_next(&self) -> bool {
        self.b_is_next
    }
}

impl<A: Producer, B: Producer<Item = A::Item>> Interleave<A, B> {
    /// Nothing is held back: what is pending is what is pending in the two
    /// inputs, in turn.
    pub proof fn lemma_holds_nothing_back(self)
        ensures
            self.remaining() == if self.second_is_next() {
                interleaved(self.second().remaining(), self.first().remaining())
            } else {
                interleaved(self.first().remaining(), self.second().remaining())
            },
    {
    }
}

impl<A: Producer, B: Producer<Item = A::Item>> Producer for Interleave<A, B> {
    type Item = A::Item;

    closed spec fn wf(&self) -> bool {
        self.a.wf() && self.b.wf()
    }

    closed spec fn remaining(&self) -> Seq<A::Item> {
        if self.b_is_next {
            interleaved(self.b.remaining(), self.a.remaining())
        } else {
            interleaved(self.a.remaining(), self.b.remaining())
        }
    }

    fn next(&mut self) -> (r: Option<A::Item>) {
        if self.b_is_next {
            match self.b.next() {
                Some(y) => {
                    self.b_is_next = false;
                    assert(self.remaining() =~= old(self).remaining().skip(1));
                    Some(y)
                },
                None => self.a.next(),
            }
        } else {
            match self.a.next() {
                Some(x) => {
                    self.b_is_next = true;
                    assert(self.remaining() =~= old(self).remaining().skip(1));
                    Some(x)
                },
                None => self.b.next(),
            }
        }
    }
}

/// Alternates between `a` and `b`, starting with `a`. When one is exhausted
/// the other is drained. Nothing is pulled from `a` or `b` yet.
pub fn interleave<A: Producer, B: Producer<Item = A::Item>>(a: A, b: B) -> (r: Interleave<A, B>)
    requires
        a.wf(),
        b.wf(),
    ensures
        r.wf(),
        r.remaining() == interleaved(a.remaining(), b.remaining()),
        r.first() == a,
        r.second() == b,
        !r.second_is_next(),
{
    Interleave { a, b, b_is_next: false }
}

} // verus!
