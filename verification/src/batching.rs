//! A producer whose elements are made, one step at a time, from runs of the
//! elements of another producer.

use crate::producer::Producer;
use vstd::prelude::*;

verus! {

/// One step of a batching: it pulls some elements from the input and makes an
/// output of them, or decides that there is no more output.
pub trait BatchStep<P: Producer> {
    type Out;

    /// Validity of the step.
    spec fn wf(&self) -> bool;

    /// What a step makes of the pending input `s`: the output together with
    /// the number of elements that it consumes, or `None` when it ends the
    /// output.
    spec fn outcome(&self, s: Seq<P::Item>) -> Option<(Self::Out, nat)>;

    /// Performs one step on `inner`.
    fn step(&self, inner: &mut P) -> (r: Option<Self::Out>)
        requires
            self.wf(),
            old(inner).wf(),
        ensures
            final(inner).wf(),
            match self.outcome(old(inner).remaining()) {
                Some((out, used)) => {
                    &&& r == Some(out)
                    &&& used <= old(inner).remaining().len()
                    &&& final(inner).remaining() == old(inner).remaining().skip(used as int)
                },
                None => r is None,
            },
    ;
}

/// Every output of `step` consumes at least one element, so that a finite
/// input gives a finite output.
pub open spec fn makes_progress<P: Producer, S: BatchStep<P>>(step: S) -> bool {
    forall|s: Seq<P::Item>|
        match #[trigger] step.outcome(s) {
            Some((_, used)) => 0 < used <= s.len(),
            None => true,
        }
}

/// The outputs that repeated steps make of the input `s`, up to the first
/// step that ends the output. (The count stops at a step that consumes
/// nothing; `makes_progress` rules such steps out.)
pub open spec fn batched<P: Producer, S: BatchStep<P>>(step: S, s: Seq<P::Item>) -> Seq<S::Out>
    decreases s.len(),
{
    match step.outcome(s) {
        Some((out, used)) => if 0 < used <= s.len() {
            seq![out] + batched::<P, S>(step, s.skip(used as int))
        } else {
            seq![out]
        },
        None => Seq::empty(),
    }
}

/// A producer of the outputs of a step that is applied again and again to an
/// inner producer. Once the step has ended the output it is not called again.
pub struct Batching<P, S> {
    inner: P,
    step: S,
    done: bool,
}

impl<P, S> Batching<P, S> {
    /// Whether the step has ended the output.
    pub closed spec fn finished(&self) -> bool {
        self.done
    }

    /// The producer that the step pulls from.
    pub closed spec fn source(&self) -> P {
        self.inner
    }
}

impl<P: Producer, S: BatchStep<P>> Producer for Batching<P, S> {
    type Item = S::Out;

    closed spec fn wf(&self) -> bool {
        &&& self.inner.wf()
        &&& self.step.wf()
        &&& makes_progress::<P, S>(self.step)
    }

    closed spec fn remaining(&self) -> Seq<S::Out> {
        if self.done {
            Seq::empty()
        } else {
            batched::<P, S>(self.step, self.inner.remaining())
        }
    }

    /// Once the step has returned `None` every further pull leaves
    /// everything as it is: the step is not run again.
    fn next(&mut self) -> (r: Option<S::Out>)
        ensures
            old(self).finished() ==> *final(self) == *old(self),
            !old(self).finished() ==> final(self).finished() == (r is None),
    {
        if self.done {
            return None;
        }
        let ghost pending = self.inner.remaining();
        match self.step.step(&mut self.inner) {
            None => {
                self.done = true;
                None
            },
            Some(out) => {
                assert(self.step.outcome(pending) is Some);
                assert(self.remaining() =~= old(self).remaining().skip(1));
                Some(out)
            },
        }
    }
}

/// Applies `step` to `p` again and again and yields its outputs, until the
/// step returns `None`.
pub fn batching<P: Producer, S: BatchStep<P>>(p: P, step: S) -> (r: Batching<P, S>)
    requires
        p.wf(),
        step.wf(),
        makes_progress::<P, S>(step),
    ensures
        r.wf(),
        r.remaining() == batched::<P, S>(step, p.remaining()),
        r.source() == p,
        !r.finished(),
{
    Batching { inner: p, step, done: false }
}

/// The step that gathers the input in pairs; a last element without a
/// partner is dropped.
pub struct InPairs;

impl<P: Producer> BatchStep<P> for InPairs {
    type Out = (P::Item, P::Item);

    open spec fn wf(&self) -> bool {
        true
    }

    open spec fn outcome(&self, s: Seq<P::Item>) -> Option<((P::Item, P::Item), nat)> {
        if s.len() >= 2 {
            Some(((s[0], s[1]), 2))
        } else {
            None
        }
    }

    fn step(&self, inner: &mut P) -> (r: Option<(P::Item, P::Item)>) {
        match inner.next() {
            None => None,
            Some(x) => match inner.next() {
                None => None,
                Some(y) => {
                    assert(inner.remaining() =~= old(inner).remaining().skip(2));
                    Some((x, y))
                },
            },
        }
    }
}

} // verus!
