//! A bounded repetition of one value that clones as rarely as possible.

use crate::producer::{after_front, clones_exactly, Producer, SizedProducer};
use vstd::prelude::*;

verus! {

/// A value together with the number of times it is still to be handed out.
/// Every emission but the last hands out a clone; the last hands out the
/// value itself.
pub struct RepeatN<T> {
    elt: Option<T>,
    n: usize,
    clones: Ghost<nat>,
}

/// The number of clone operations that it takes to hand out `n` copies.
pub open spec fn clones_needed(n: nat) -> nat {
    if n == 0 {
        0
    } else {
        (n - 1) as nat
    }
}

impl<T> RepeatN<T> {
    /// The value is held exactly as long as an emission is pending.
    pub closed spec fn inv(&self) -> bool {
        self.n > 0 <==> self.elt is Some
    }

    /// The number of emissions that are pending.
    pub closed spec fn pending(&self) -> nat {
        self.n as nat
    }

    /// The value that is repeated; meaningful while an emission is pending.
    pub closed spec fn value(&self) -> T {
        self.elt->0
    }

    /// The number of clone operations performed so far.
    pub closed spec fn clones_made(&self) -> nat {
        self.clones@
    }
}

impl<T: Clone> RepeatN<T> {
    /// Hands out the next copy. The last pending copy is the held value
    /// itself, moved out; every earlier one is a fresh clone of it.
    pub fn emit(&mut self) -> (r: Option<T>)
        requires
            old(self).inv(),
        ensures
            final(self).inv(),
            old(self).pending() == 0 ==> {
                &&& r is None
                &&& final(self).pending() == 0
                &&& final(self).clones_made() == old(self).clones_made()
            },
            old(self).pending() == 1 ==> {
                &&& r == Some(old(self).value())
                &&& final(self).pending() == 0
                &&& final(self).clones_made() == old(self).clones_made()
            },
            old(self).pending() > 1 ==> {
                &&& r is Some
                &&& cloned(old(self).value(), r->0)
                &&& final(self).value() == old(self).value()
                &&& final(self).pending() == old(self).pending() - 1
                &&& final(self).clones_made() == old(self).clones_made() + 1
            },
            final(self).clones_made() + clones_needed(final(self).pending()) == old(
                self,
            ).clones_made() + clones_needed(old(self).pending()),
    {
        if self.n > 1 {
            self.n = self.n - 1;
            match &self.elt {
                Some(x) => {
                    let copy = x.clone();
                    proof {
                        self.clones@ = self.clones@ + 1;
                    }
                    Some(copy)
                },
                None => None,
            }
        } else {
            self.n = 0;
            self.elt.take()
        }
    }
}

impl<T: Clone> RepeatN<T> {
    /// Hands out all pending copies at once. Handing out `n` copies takes
    /// `n - 1` clone operations, and none when `n` is 0: every copy but the
    /// last is a clone, and the last is the held value itself.
    pub fn emit_all(&mut self) -> (out: Vec<T>)
        requires
            old(self).inv(),
        ensures
            final(self).inv(),
            final(self).pending() == 0,
            out@.len() == old(self).pending(),
            final(self).clones_made() == old(self).clones_made() + clones_needed(
                old(self).pending(),
            ),
            forall|i: int|
                0 <= i < out@.len() - 1 ==> cloned(old(self).value(), #[trigger] out@[i]),
            out@.len() > 0 ==> out@[out@.len() - 1] == old(self).value(),
    {
        let mut out: Vec<T> = Vec::new();
        loop
            invariant
                self.inv(),
                out@.len() + self.pending() == old(self).pending(),
                self.pending() > 0 ==> self.value() == old(self).value(),
                self.clones_made() + clones_needed(self.pending()) == old(self).clones_made()
                    + clones_needed(old(self).pending()),
                forall|i: int|
                    0 <= i < out@.len() - 1 ==> cloned(old(self).value(), #[trigger] out@[i]),
                self.pending() > 0 && out@.len() > 0 ==> cloned(
                    old(self).value(),
                    out@[out@.len() - 1],
                ),
                self.pending() == 0 && out@.len() > 0 ==> out@[out@.len() - 1] == old(
                    self,
                ).value(),
            ensures
                self.inv(),
                self.pending() == 0,
                out@.len() == old(self).pending(),
                self.clones_made() == old(self).clones_made() + clones_needed(
                    old(self).pending(),
                ),
                forall|i: int|
                    0 <= i < out@.len() - 1 ==> cloned(old(self).value(), #[trigger] out@[i]),
                out@.len() > 0 ==> out@[out@.len() - 1] == old(self).value(),
            decreases self.pending(),
        {
            match self.emit() {
                None => {
                    break ;
                },
                Some(x) => {
                    out.push(x);
                },
            }
        }
        out
    }
}

impl<T: Clone> Producer for RepeatN<T> {
    type Item = T;

    closed spec fn wf(&self) -> bool {
        self.inv() && clones_exactly::<T>()
    }

    closed spec fn remaining(&self) -> Seq<T> {
        Seq::new(self.n as nat, |i: int| self.elt->0)
    }

    fn next(&mut self) -> (r: Option<T>) {
        let r = self.emit();
        assert(self.remaining() =~= after_front(old(self).remaining()));
        r
    }
}

impl<T: Clone> SizedProducer for RepeatN<T> {
    fn len(&self) -> (n: usize) {
        self.n
    }
}

/// A producer of `n` copies of `element`. No clone has been made yet, and
/// with `n == 0` the element is dropped at once.
pub fn repeat_n<T: Clone>(element: T, n: usize) -> (r: RepeatN<T>)
    ensures
        r.inv(),
        r.pending() == n,
        r.clones_made() == 0,
        n > 0 ==> r.value() == element,
        clones_exactly::<T>() ==> r.wf() && r.remaining() == Seq::new(n as nat, |i: int| element),
{
    let r = if n == 0 {
        RepeatN { elt: None, n, clones: Ghost(0) }
    } else {
        RepeatN { elt: Some(element), n, clones: Ghost(0) }
    };
    assert(r.remaining() =~= Seq::new(n as nat, |i: int| element));
    r
}

} // verus!
