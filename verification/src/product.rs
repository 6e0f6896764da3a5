//! Cartesian products of producers in lexicographic order: the last component
//! cycles fastest.

use crate::producer::{Producer, Restartable};
use crate::sources::{once, Single};
use vstd::prelude::*;

verus! {

/// `x` paired with each element of `sb`, in order.
pub open spec fn paired<X, Y>(x: X, sb: Seq<Y>) -> Seq<(X, Y)> {
    Seq::new(sb.len(), |j: int| (x, sb[j]))
}

/// Every element of `sa` paired with every element of `sb`: the pairs of the
/// first element of `sa` come first, then those of the second, and so on.
pub open spec fn cartesian<X, Y>(sa: Seq<X>, sb: Seq<Y>) -> Seq<(X, Y)>
    decreases sa.len(),
{
    if sa.len() == 0 {
        Seq::empty()
    } else {
        paired(sa[0], sb) + cartesian(sa.skip(1), sb)
    }
}

/// Wraps each element in a 1-tuple.
pub open spec fn tupled<X>(sa: Seq<X>) -> Seq<(X,)> {
    Seq::new(sa.len(), |i: int| (sa[i],))
}

/// Flattens the nested pairs of a pairwise product into triples.
pub open spec fn flat_triples<X, Y, Z>(s: Seq<((X, Y), Z)>) -> Seq<(X, Y, Z)> {
    Seq::new(s.len(), |i: int| ((s[i].0).0, (s[i].0).1, s[i].1))
}

/// The triples over three sequences in lexicographic order.
pub open spec fn cartesian3<X, Y, Z>(sa: Seq<X>, sb: Seq<Y>, sc: Seq<Z>) -> Seq<(X, Y, Z)> {
    flat_triples(cartesian(cartesian(sa, sb), sc))
}

/// A product with an empty second component is empty.
pub proof fn lemma_cartesian_with_nothing<X, Y>(sa: Seq<X>, sb: Seq<Y>)
    requires
        sb.len() == 0,
    ensures
        cartesian(sa, sb) == Seq::<(X, Y)>::empty(),
    decreases sa.len(),
{
    if sa.len() > 0 {
        lemma_cartesian_with_nothing(sa.skip(1), sb);
        assert(paired(sa[0], sb) + cartesian(sa.skip(1), sb) =~= Seq::<(X, Y)>::empty());
    }
}

/// The product of a producer with a restartable producer.
pub struct Product2<A: Producer, B> {
    a: A,
    current: Option<A::Item>,
    b: B,
    b_origin: B,
}

impl<A: Producer, B: Restartable> Producer for Product2<A, B> where A::Item: Copy {
    type Item = (A::Item, B::Item);

    closed spec fn wf(&self) -> bool {
        self.a.wf() && self.b.wf() && self.b_origin.wf()
    }

    closed spec fn remaining(&self) -> Seq<(A::Item, B::Item)> {
        match self.current {
            Some(x) => paired(x, self.b.remaining()) + cartesian(
                self.a.remaining(),
                self.b_origin.remaining(),
            ),
            None => cartesian(self.a.remaining(), self.b_origin.remaining()),
        }
    }

    fn next(&mut self) -> (r: Option<(A::Item, B::Item)>) {
        let ghost origin = self.b_origin.remaining();
        let x = match self.current {
            Some(x) => x,
            None => match self.a.next() {
                None => {
                    return None;
                },
                Some(x) => {
                    self.current = Some(x);
                    self.b = self.b_origin.fork();
                    x
                },
            },
        };
        assert(self.remaining() == old(self).remaining());
        match self.b.next() {
            Some(y) => {
                assert(self.remaining() =~= old(self).remaining().skip(1));
                Some((x, y))
            },
            None => {
                assert(old(self).remaining() =~= cartesian(self.a.remaining(), origin));
                match self.a.next() {
                    None => {
                        self.current = None;
                        None
                    },
                    Some(x2) => {
                        self.b = self.b_origin.fork();
                        match self.b.next() {
                            Some(y) => {
                                self.current = Some(x2);
                                assert(self.remaining() =~= old(self).remaining().skip(1));
                                Some((x2, y))
                            },
                            None => {
                                self.current = None;
                                proof {
                                    lemma_cartesian_with_nothing(old(self).a.remaining(), origin);
                                    lemma_cartesian_with_nothing(self.a.remaining(), origin);
                                    lemma_cartesian_with_nothing(
                                        self.a.remaining().skip(1),
                                        origin,
                                    );
                                }
                                None
                            },
                        }
                    },
                }
            },
        }
    }
}

/// The product of no producers: the empty tuple, once.
pub fn iproduct0() -> (r: Single<()>)
    ensures
        r.wf(),
        r.remaining() == seq![()],
{
    once(())
}

/// A producer seen as a product with one component.
pub struct Product1<A> {
    a: A,
}

impl<A: Producer> Producer for Product1<A> {
    type Item = (A::Item,);

    closed spec fn wf(&self) -> bool {
        self.a.wf()
    }

    closed spec fn remaining(&self) -> Seq<(A::Item,)> {
        tupled(self.a.remaining())
    }

    fn next(&mut self) -> (r: Option<(A::Item,)>) {
        match self.a.next() {
            None => None,
            Some(x) => {
                assert(self.remaining() =~= old(self).remaining().skip(1));
                Some((x,))
            },
        }
    }
}

/// The elements of `a`, each as a 1-tuple.
pub fn iproduct1<A: Producer>(a: A) -> (r: Product1<A>)
    requires
        a.wf(),
    ensures
        r.wf(),
        r.remaining() == tupled(a.remaining()),
{
    Product1 { a }
}

/// Every element of `a` paired with every element of `b`; `b` is traversed
/// once for each element of `a`.
pub fn iproduct2<A: Producer, B: Restartable>(a: A, b: B) -> (r: Product2<A, B>) where
    A::Item: Copy,

    requires
        a.wf(),
        b.wf(),
    ensures
        r.wf(),
        r.remaining() == cartesian(a.remaining(), b.remaining()),
{
    let start = b.fork();
    Product2 { a, current: None, b: start, b_origin: b }
}

/// The product of three producers, as triples.
pub struct Product3<A: Producer, B: Restartable, C> where A::Item: Copy {
    inner: Product2<Product2<A, B>, C>,
}

impl<A: Producer, B: Restartable, C: Restartable> Producer for Product3<A, B, C> where
    A::Item: Copy,
    B::Item: Copy,
{
    type Item = (A::Item, B::Item, C::Item);

    closed spec fn wf(&self) -> bool {
        self.inner.wf()
    }

    closed spec fn remaining(&self) -> Seq<(A::Item, B::Item, C::Item)> {
        flat_triples(self.inner.remaining())
    }

    fn next(&mut self) -> (r: Option<(A::Item, B::Item, C::Item)>) {
        match self.inner.next() {
            None => None,
            Some(((x, y), z)) => {
                assert(self.remaining() =~= old(self).remaining().skip(1));
                Some((x, y, z))
            },
        }
    }
}

/// Every combination of an element of `a`, one of `b` and one of `c`, the
/// last component cycling fastest.
pub fn iproduct3<A: Producer, B: Restartable, C: Restartable>(a: A, b: B, c: C) -> (r: Product3<
    A,
    B,
    C,
>) where A::Item: Copy, B::Item: Copy
    requires
        a.wf(),
        b.wf(),
        c.wf(),
    ensures
        r.wf(),
        r.remaining() == cartesian3(a.remaining(), b.remaining(), c.remaining()),
{
    Product3 { inner: iproduct2(iproduct2(a, b), c) }
}

} // verus!
