//! Insertion of a separator between consecutive elements.

use crate::producer::{clones_exactly, Producer};
use vstd::prelude::*;

verus! {

/// A source of separators, asked once for every gap.
pub trait Separator<T> {
    /// Validity of the source.
    spec fn wf(&self) -> bool;

    /// The separator that `generate` will return after `k` further calls.
    spec fn upcoming(&self, k: nat) -> T;

    /// Hands out the next separator.
    fn generate(&mut self) -> (r: T)
        requires
            old(self).wf(),
        ensures
            final(self).wf(),
            r == old(self).upcoming(0),
            forall|k: nat| #[trigger] final(self).upcoming(k) == old(self).upcoming(k + 1),
    ;
}

/// The same separator for every gap, cloned from one value.
pub struct Repeated<T> {
    value: T,
}

impl<T: Clone> Separator<T> for Repeated<T> {
    closed spec fn wf(&self) -> bool {
        clones_exactly::<T>()
    }

    closed spec fn upcoming(&self, k: nat) -> T {
        self.value
    }

    fn generate(&mut self) -> (r: T) {
        let r = self.value.clone();
        assert(cloned(self.value, r));
        r
    }
}

/// Separators made by a function that always returns the same value.
pub struct Supplied<F> {
    supply: F,
}

/// A supplying function that can be called and cannot return two different
/// values.
pub open spec fn supplies_one_value<T, F: FnMut() -> T>(supply: F) -> bool {
    &&& supply.requires(())
    &&& forall|x: T, y: T| supply.ensures((), x) && supply.ensures((), y) ==> x == y
}

impl<T, F: FnMut() -> T> Separator<T> for Supplied<F> {
    closed spec fn wf(&self) -> bool {
        supplies_one_value::<T, F>(self.supply)
    }

    closed spec fn upcoming(&self, k: nat) -> T {
        choose|x: T| self.supply.ensures((), x)
    }

    fn generate(&mut self) -> (r: T) {
        (self.supply)()
    }
}

/// The elements of `s` with a separator between each two neighbours, and
/// none before the first or after the last; `gap(k)` is the separator that
/// follows the element at position `k`.
pub open spec fn interspersed_with<T>(s: Seq<T>, gap: spec_fn(nat) -> T) -> Seq<T> {
    if s.len() == 0 {
        s
    } else {
        Seq::new(
            (2 * s.len() - 1) as nat,
            |i: int|
                if i % 2 == 0 {
                    s[i / 2]
                } else {
                    gap((i / 2) as nat)
                },
        )
    }
}

/// The elements of `s` with `sep` between each two neighbours.
pub open spec fn interspersed<T>(s: Seq<T>, sep: T) -> Seq<T> {
    interspersed_with(s, |k: nat| sep)
}

/// The elements of `s`, each preceded by a separator.
spec fn gapped<T, S: Separator<T>>(s: Seq<T>, sep: S) -> Seq<T> {
    Seq::new(
        2 * s.len(),
        |i: int|
            if i % 2 == 0 {
                sep.upcoming((i / 2) as nat)
            } else {
                s[i / 2]
            },
    )
}

/// A producer with separators put between its elements.
pub struct IntersperseWith<P: Producer, S> {
    inner: P,
    sep: S,
    held: Option<P::Item>,
    started: bool,
}

impl<P: Producer, S> IntersperseWith<P, S> {
    /// The producer whose elements are separated.
    pub closed spec fn source(&self) -> P {
        self.inner
    }

    /// The element of the source that is held back while its separator is
    /// handed out, if any.
    pub closed spec fn held(&self) -> Option<P::Item> {
        self.held
    }
}

impl<P: Producer, S: Separator<P::Item>> Producer for IntersperseWith<P, S> {
    type Item = P::Item;

    closed spec fn wf(&self) -> bool {
        &&& self.inner.wf()
        &&& self.sep.wf()
        &&& self.held is Some ==> self.started
    }

    closed spec fn remaining(&self) -> Seq<P::Item> {
        match self.held {
            Some(x) => seq![x] + gapped(self.inner.remaining(), self.sep),
            None => if self.started {
                gapped(self.inner.remaining(), self.sep)
            } else {
                interspersed_with(self.inner.remaining(), |k: nat| self.sep.upcoming(k))
            },
        }
    }

    fn next(&mut self) -> (r: Option<P::Item>) {
        match self.held.take() {
            Some(x) => {
                assert(self.remaining() =~= old(self).remaining().skip(1));
                Some(x)
            },
            None => match self.inner.next() {
                None => {
                    assert(self.remaining() =~= old(self).remaining());
                    None
                },
                Some(x) => {
                    if self.started {
                        let gap = self.sep.generate();
                        self.held = Some(x);
                        assert(self.remaining() =~= old(self).remaining().skip(1));
                        Some(gap)
                    } else {
                        self.started = true;
                        assert(self.remaining() =~= old(self).remaining().skip(1));
                        Some(x)
                    }
                },
            },
        }
    }
}

/// Puts the separators that `sep` hands out between the elements of `p`, one
/// for each gap, in the order in which `sep` hands them out.
pub fn intersperse_from<P: Producer, S: Separator<P::Item>>(p: P, sep: S) -> (r: IntersperseWith<
    P,
    S,
>)
    requires
        p.wf(),
        sep.wf(),
    ensures
        r.wf(),
        r.remaining() == interspersed_with(p.remaining(), |k: nat| sep.upcoming(k)),
        r.source() == p,
        r.held() is None,
{
    IntersperseWith { inner: p, sep, held: None, started: false }
}

/// Puts a clone of `element` between each two neighbouring elements of `p`.
pub fn intersperse<P: Producer>(p: P, element: P::Item) -> (r: IntersperseWith<
    P,
    Repeated<P::Item>,
>) where P::Item: Clone
    requires
        p.wf(),
        clones_exactly::<P::Item>(),
    ensures
        r.wf(),
        r.remaining() == interspersed(p.remaining(), element),
        r.source() == p,
        r.held() is None,
{
    let r = intersperse_from(p, Repeated { value: element });
    assert(r.remaining() =~= interspersed(p.remaining(), element));
    r
}

/// Puts what `supply` returns between each two neighbouring elements of `p`;
/// `supply` is called once for every gap.
pub fn intersperse_with<P: Producer, F: FnMut() -> P::Item>(p: P, supply: F) -> (r: IntersperseWith<
    P,
    Supplied<F>,
>)
    requires
        p.wf(),
        supplies_one_value::<P::Item, F>(supply),
    ensures
        r.wf(),
        forall|v: P::Item|
            supply.ensures((), v) ==> r.remaining() == interspersed(p.remaining(), v),
        r.source() == p,
        r.held() is None,
{
    let r = intersperse_from(p, Supplied { supply });
    assert forall|v: P::Item| supply.ensures((), v) implies r.remaining() == interspersed(
        p.remaining(),
        v,
    ) by {
        assert(r.remaining() =~= interspersed(p.remaining(), v));
    }
    r
}

} // verus!
