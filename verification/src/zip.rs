//! Lock-step traversal of several producers, yielding tuples until the
//! shortest is exhausted.

use crate::consume::truncate_back;
use crate::producer::{after_front, BackProducer, Producer, SizedProducer};
use vstd::prelude::*;

verus! {

/// The smaller of two lengths.
pub open spec fn shorter(a: nat, b: nat) -> nat {
    if a <= b {
        a
    } else {
        b
    }
}

/// The pairs of elements at equal positions, up to the end of the shorter sequence.
pub open spec fn zipped<X, Y>(sa: Seq<X>, sb: Seq<Y>) -> Seq<(X, Y)> {
    Seq::new(shorter(sa.len(), sb.len()), |i: int| (sa[i], sb[i]))
}

/// The triples of elements at equal positions, up to the end of the shortest sequence.
pub open spec fn zipped3<X, Y, Z>(sa: Seq<X>, sb: Seq<Y>, sc: Seq<Z>) -> Seq<(X, Y, Z)> {
    Seq::new(
        shorter(shorter(sa.len(), sb.len()), sc.len()),
        |i: int| (sa[i], sb[i], sc[i]),
    )
}

/// The 4-tuples of elements at equal positions, up to the end of the shortest sequence.
pub open spec fn zipped4<X, Y, Z, W>(sa: Seq<X>, sb: Seq<Y>, sc: Seq<Z>, sd: Seq<W>) -> Seq<
    (X, Y, Z, W),
> {
    Seq::new(
        shorter(shorter(shorter(sa.len(), sb.len()), sc.len()), sd.len()),
        |i: int| (sa[i], sb[i], sc[i], sd[i]),
    )
}

/// The 5-tuples of elements at equal positions, up to the end of the shortest sequence.
pub open spec fn zipped5<X, Y, Z, W, V>(
    sa: Seq<X>,
    sb: Seq<Y>,
    sc: Seq<Z>,
    sd: Seq<W>,
    se: Seq<V>,
) -> Seq<(X, Y, Z, W, V)> {
    Seq::new(
        shorter(shorter(shorter(shorter(sa.len(), sb.len()), sc.len()), sd.len()), se.len()),
        |i: int| (sa[i], sb[i], sc[i], sd[i], se[i]),
    )
}

/// Two producers traversed in lock step.
pub struct Zip2<A, B> {
    a: A,
    b: B,
}

impl<A, B> Zip2<A, B> {
    /// The input that gives the first components.
    pub closed spec fn first(&self) -> A {
        self.a
    }

    /// The input that gives the second components.
    pub closed spec fn second(&self) -> B {
        self.b
    }
}

impl<A: Producer, B: Producer> Producer for Zip2<A, B> {
    type Item = (A::Item, B::Item);

    closed spec fn wf(&self) -> bool {
        self.a.wf() && self.b.wf()
    }

    closed spec fn remaining(&self) -> Seq<(A::Item, B::Item)> {
        zipped(self.a.remaining(), self.b.remaining())
    }

    /// The first input is pulled first, and the second only when the first
    /// had an element to give.
    fn next(&mut self) -> (r: Option<(A::Item, B::Item)>)
        ensures
            final(self).first().remaining() == after_front(old(self).first().remaining()),
            final(self).second().remaining() == if old(self).first().remaining().len() > 0 {
                after_front(old(self).second().remaining())
            } else {
                old(self).second().remaining()
            },
    {
        match self.a.next() {
            None => None,
            Some(x) => match self.b.next() {
                None => {
                    assert(self.remaining() =~= old(self).remaining());
                    None
                },
                Some(y) => {
                    assert(self.remaining() =~= old(self).remaining().skip(1));
                    Some((x, y))
                },
            },
        }
    }
}

impl<A: SizedProducer, B: SizedProducer> SizedProducer for Zip2<A, B> {
    fn len(&self) -> (n: usize) {
        let la = self.a.len();
        let lb = self.b.len();
        if la <= lb {
            la
        } else {
            lb
        }
    }
}

impl<A: BackProducer + SizedProducer, B: BackProducer + SizedProducer> BackProducer for Zip2<
    A,
    B,
> {
    fn next_back(&mut self) -> (r: Option<(A::Item, B::Item)>) {
        let la = self.a.len();
        let lb = self.b.len();
        if la > lb {
            truncate_back(&mut self.a, lb);
        } else if lb > la {
            truncate_back(&mut self.b, la);
        }
        assert(self.remaining() =~= old(self).remaining());
        match self.a.next_back() {
            None => None,
            Some(x) => match self.b.next_back() {
                None => None,
                Some(y) => {
                    assert(self.remaining() =~= old(self).remaining().take(
                        old(self).remaining().len() - 1,
                    ));
                    Some((x, y))
                },
            },
        }
    }
}

/// The one-producer member of the family: the producer itself.
pub fn izip1<A: Producer>(a: A) -> (r: A)
    ensures
        r == a,
{
    a
}

/// Pairs up the elements of `a` and `b`, stopping with the shorter.
pub fn izip2<A: Producer, B: Producer>(a: A, b: B) -> (r: Zip2<A, B>)
    requires
        a.wf(),
        b.wf(),
    ensures
        r.wf(),
        r.remaining() == zipped(a.remaining(), b.remaining()),
        r.first() == a,
        r.second() == b,
{
    Zip2 { a, b }
}

/// Three producers traversed in lock step.
pub struct Zip3<A, B, C> {
    inner: Zip2<Zip2<A, B>, C>,
}

/// Flattens the nested pairs of a pairwise zip into triples.
pub open spec fn flat3<X0, X1, X2>(s: Seq<((X0, X1), X2)>) -> Seq<(X0, X1, X2)> {
    Seq::new(s.len(), |i: int| ((s[i].0).0, (s[i].0).1, s[i].1))
}

impl<A: Producer, B: Producer, C: Producer> Producer for Zip3<A, B, C> {
    type Item = (A::Item, B::Item, C::Item);

    closed spec fn wf(&self) -> bool {
        self.inner.wf()
    }

    closed spec fn remaining(&self) -> Seq<(A::Item, B::Item, C::Item)> {
        flat3(self.inner.remaining())
    }

    fn next(&mut self) -> (r: Option<(A::Item, B::Item, C::Item)>) {
        match self.inner.next() {
            None => None,
            Some(((x0, x1), x2)) => {
                assert(self.remaining() =~= old(self).remaining().skip(1));
                Some((x0, x1, x2))
            },
        }
    }
}

impl<A: SizedProducer, B: SizedProducer, C: SizedProducer> SizedProducer for Zip3<A, B, C> {
    fn len(&self) -> (n: usize) {
        self.inner.len()
    }
}

impl<
    A: BackProducer + SizedProducer,
    B: BackProducer + SizedProducer,
    C: BackProducer + SizedProducer,
> BackProducer for Zip3<A, B, C> {
    fn next_back(&mut self) -> (r: Option<(A::Item, B::Item, C::Item)>) {
        match self.inner.next_back() {
            None => None,
            Some(((x0, x1), x2)) => {
                assert(self.remaining() =~= old(self).remaining().take(
                    old(self).remaining().len() - 1,
                ));
                Some((x0, x1, x2))
            },
        }
    }
}

/// Groups the elements of three producers by position, stopping with the shortest.
pub fn izip3<A: Producer, B: Producer, C: Producer>(a: A, b: B, c: C) -> (r: Zip3<A, B, C>)
    requires
        a.wf(),
        b.wf(),
        c.wf(),
    ensures
        r.wf(),
        r.remaining() == zipped3(a.remaining(), b.remaining(), c.remaining()),
{
    let inner = izip2(izip2(a, b), c);
    let r = Zip3 { inner };
    assert(r.remaining() =~= zipped3(a.remaining(), b.remaining(), c.remaining()));
    r
}

/// Four producers traversed in lock step.
pub struct Zip4<A, B, C, D> {
    inner: Zip2<Zip3<A, B, C>, D>,
}

/// Flattens the nested pairs of a pairwise zip into 4-tuples.
pub open spec fn flat4<X0, X1, X2, X3>(s: Seq<((X0, X1, X2), X3)>) -> Seq<(X0, X1, X2, X3)> {
    Seq::new(s.len(), |i: int| ((s[i].0).0, (s[i].0).1, (s[i].0).2, s[i].1))
}

impl<A: Producer, B: Producer, C: Producer, D: Producer> Producer for Zip4<A, B, C, D> {
    type Item = (A::Item, B::Item, C::Item, D::Item);

    closed spec fn wf(&self) -> bool {
        self.inner.wf()
    }

    closed spec fn remaining(&self) -> Seq<(A::Item, B::Item, C::Item, D::Item)> {
        flat4(self.inner.remaining())
    }

    fn next(&mut self) -> (r: Option<(A::Item, B::Item, C::Item, D::Item)>) {
        match self.inner.next() {
            None => None,
            Some(((x0, x1, x2), x3)) => {
                assert(self.remaining() =~= old(self).remaining().skip(1));
                Some((x0, x1, x2, x3))
            },
        }
    }
}

impl<A: SizedProducer, B: SizedProducer, C: SizedProducer, D: SizedProducer> SizedProducer for Zip4<
    A,
    B,
    C,
    D,
> {
    fn len(&self) -> (n: usize) {
        self.inner.len()
    }
}

impl<
    A: BackProducer + SizedProducer,
    B: BackProducer + SizedProducer,
    C: BackProducer + SizedProducer,
    D: BackProducer + SizedProducer,
> BackProducer for Zip4<A, B, C, D> {
    fn next_back(&mut self) -> (r: Option<(A::Item, B::Item, C::Item, D::Item)>) {
        match self.inner.next_back() {
            None => None,
            Some(((x0, x1, x2), x3)) => {
                assert(self.remaining() =~= old(self).remaining().take(
                    old(self).remaining().len() - 1,
                ));
                Some((x0, x1, x2, x3))
            },
        }
    }
}

/// Groups the elements of four producers by position, stopping with the shortest.
pub fn izip4<A: Producer, B: Producer, C: Producer, D: Producer>(
    a: A,
    b: B,
    c: C,
    d: D,
) -> (r: Zip4<A, B, C, D>)
    requires
        a.wf(),
        b.wf(),
        c.wf(),
        d.wf(),
    ensures
        r.wf(),
        r.remaining() == zipped4(
            a.remaining(),
            b.remaining(),
            c.remaining(),
            d.remaining(),
        ),
{
    let inner = izip2(izip3(a, b, c), d);
    let r = Zip4 { inner };
    assert(r.remaining() =~= zipped4(
        a.remaining(),
        b.remaining(),
        c.remaining(),
        d.remaining(),
    ));
    r
}

/// Five producers traversed in lock step.
pub struct Zip5<A, B, C, D, E> {
    inner: Zip2<Zip4<A, B, C, D>, E>,
}

/// Flattens the nested pairs of a pairwise zip into 5-tuples.
pub open spec fn flat5<X0, X1, X2, X3, X4>(s: Seq<((X0, X1, X2, X3), X4)>) -> Seq<
    (X0, X1, X2, X3, X4),
> {
    Seq::new(s.len(), |i: int| ((s[i].0).0, (s[i].0).1, (s[i].0).2, (s[i].0).3, s[i].1))
}

impl<A: Producer, B: Producer, C: Producer, D: Producer, E: Producer> Producer for Zip5<
    A,
    B,
    C,
    D,
    E,
> {
    type Item = (A::Item, B::Item, C::Item, D::Item, E::Item);

    closed spec fn wf(&self) -> bool {
        self.inner.wf()
    }

    closed spec fn remaining(&self) -> Seq<(A::Item, B::Item, C::Item, D::Item, E::Item)> {
        flat5(self.inner.remaining())
    }

    fn next(&mut self) -> (r: Option<(A::Item, B::Item, C::Item, D::Item, E::Item)>) {
        match self.inner.next() {
            None => None,
            Some(((x0, x1, x2, x3), x4)) => {
                assert(self.remaining() =~= old(self).remaining().skip(1));
                Some((x0, x1, x2, x3, x4))
            },
        }
    }
}

impl<
    A: SizedProducer,
    B: SizedProducer,
    C: SizedProducer,
    D: SizedProducer,
    E: SizedProducer,
> SizedProducer for Zip5<A, B, C, D, E> {
    fn len(&self) -> (n: usize) {
        self.inner.len()
    }
}

impl<
    A: BackProducer + SizedProducer,
    B: BackProducer + SizedProducer,
    C: BackProducer + SizedProducer,
    D: BackProducer + SizedProducer,
    E: BackProducer + SizedProducer,
> BackProducer for Zip5<A, B, C, D, E> {
    fn next_back(&mut self) -> (r: Option<(A::Item, B::Item, C::Item, D::Item, E::Item)>) {
        match self.inner.next_back() {
            None => None,
            Some(((x0, x1, x2, x3), x4)) => {
                assert(self.remaining() =~= old(self).remaining().take(
                    old(self).remaining().len() - 1,
                ));
                Some((x0, x1, x2, x3, x4))
            },
        }
    }
}

/// Groups the elements of five producers by position, stopping with the shortest.
pub fn izip5<A: Producer, B: Producer, C: Producer, D: Producer, E: Producer>(
    a: A,
    b: B,
    c: C,
    d: D,
    e: E,
) -> (r: Zip5<A, B, C, D, E>)
    requires
        a.wf(),
        b.wf(),
        c.wf(),
        d.wf(),
        e.wf(),
    ensures
        r.wf(),
        r.remaining() == zipped5(
            a.remaining(),
            b.remaining(),
            c.remaining(),
            d.remaining(),
            e.remaining(),
        ),
{
    let inner = izip2(izip4(a, b, c, d), e);
    let r = Zip5 { inner };
    assert(r.remaining() =~= zipped5(
        a.remaining(),
        b.remaining(),
        c.remaining(),
        d.remaining(),
        e.remaining(),
    ));
    r
}

} // verus!
