//! Sums and products that tell an empty sequence apart from one that folds to
//! the identity.

use crate::producer::Producer;
use vstd::prelude::*;

verus! {

/// A machine integer type that can be summed and multiplied.
pub trait Number: Copy {
    /// The mathematical integer that `self` stands for.
    spec fn value(self) -> int;

    /// Whether `v` is representable in this type.
    spec fn fits(v: int) -> bool;

    /// Distinct machine values stand for distinct integers.
    proof fn value_is_injective(a: Self, b: Self)
        requires
            a.value() == b.value(),
        ensures
            a == b,
    ;

    /// The sum of two numbers whose sum is representable.
    fn plus(self, other: Self) -> (r: Self)
        requires
            Self::fits(self.value() + other.value()),
        ensures
            r.value() == self.value() + other.value(),
    ;

    /// The product of two numbers whose product is representable.
    fn times(self, other: Self) -> (r: Self)
        requires
            Self::fits(self.value() * other.value()),
        ensures
            r.value() == self.value() * other.value(),
    ;
}

impl Number for i32 {
    open spec fn value(self) -> int {
        self as int
    }

    open spec fn fits(v: int) -> bool {
        i32::MIN <= v <= i32::MAX
    }

    proof fn value_is_injective(a: Self, b: Self) {
    }

    fn plus(self, other: Self) -> (r: Self) {
        self + other
    }

    fn times(self, other: Self) -> (r: Self) {
        self * other
    }
}

impl Number for i64 {
    open spec fn value(self) -> int {
        self as int
    }

    open spec fn fits(v: int) -> bool {
        i64::MIN <= v <= i64::MAX
    }

    proof fn value_is_injective(a: Self, b: Self) {
    }

    fn plus(self, other: Self) -> (r: Self) {
        self + other
    }

    fn times(self, other: Self) -> (r: Self) {
        self * other
    }
}

impl Number for u32 {
    open spec fn value(self) -> int {
        self as int
    }

    open spec fn fits(v: int) -> bool {
        0 <= v <= u32::MAX
    }

    proof fn value_is_injective(a: Self, b: Self) {
    }

    fn plus(self, other: Self) -> (r: Self) {
        self + other
    }

    fn times(self, other: Self) -> (r: Self) {
        self * other
    }
}

impl Number for u64 {
    open spec fn value(self) -> int {
        self as int
    }

    open spec fn fits(v: int) -> bool {
        0 <= v <= u64::MAX
    }

    proof fn value_is_injective(a: Self, b: Self) {
    }

    fn plus(self, other: Self) -> (r: Self) {
        self + other
    }

    fn times(self, other: Self) -> (r: Self) {
        self * other
    }
}

/// The sum of the integers that the elements of `s` stand for.
pub open spec fn sum_of<T: Number>(s: Seq<T>) -> int
    decreases s.len(),
{
    if s.len() == 0 {
        0
    } else {
        sum_of(s.drop_last()) + s.last().value()
    }
}

/// The product of the integers that the elements of `s` stand for.
pub open spec fn product_of<T: Number>(s: Seq<T>) -> int
    decreases s.len(),
{
    if s.len() == 0 {
        1
    } else {
        product_of(s.drop_last()) * s.last().value()
    }
}

/// Every non-empty prefix of `s` has a representable sum.
pub open spec fn sums_fit<T: Number>(s: Seq<T>) -> bool {
    forall|k: int| 1 <= k <= s.len() ==> T::fits(#[trigger] sum_of(s.take(k)))
}

/// Every non-empty prefix of `s` has a representable product.
pub open spec fn products_fit<T: Number>(s: Seq<T>) -> bool {
    forall|k: int| 1 <= k <= s.len() ==> T::fits(#[trigger] product_of(s.take(k)))
}

/// Adds up the elements of `p` from first to last. Returns `None` exactly
/// when `p` is empty.
pub fn sum1<P, T>(p: P) -> (r: Option<T>) where P: Producer<Item = T>, T: Number
    requires
        p.wf(),
        sums_fit(p.remaining()),
    ensures
        match r {
            None => p.remaining().len() == 0,
            Some(t) => p.remaining().len() > 0 && t.value() == sum_of(p.remaining()),
        },
{
    let mut p = p;
    let ghost all = p.remaining();
    let ghost mut done: int = 1;
    match p.next() {
        None => None,
        Some(first) => {
            let mut acc = first;
            proof {
                assert(all.take(1).drop_last() =~= Seq::<T>::empty());
                assert(sum_of(Seq::<T>::empty()) == 0);
                assert(sum_of(all.take(1)) == first.value());
            }
            loop
                invariant
                    p.wf(),
                    sums_fit(all),
                    1 <= done <= all.len(),
                    p.remaining() == all.skip(done),
                    acc.value() == sum_of(all.take(done)),
                ensures
                    acc.value() == sum_of(all),
                decreases p.remaining().len(),
            {
                match p.next() {
                    None => {
                        assert(all.take(done) =~= all);
                        break ;
                    },
                    Some(x) => {
                        proof {
                            assert(all.take(done + 1).drop_last() =~= all.take(done));
                            assert(all.take(done + 1).last() == x);
                            assert(T::fits(sum_of(all.take(done + 1))));
                        }
                        acc = acc.plus(x);
                        proof {
                            assert(p.remaining() =~= all.skip(done + 1));
                            done = done + 1;
                        }
                    },
                }
            }
            Some(acc)
        },
    }
}

/// Multiplies the elements of `p` from first to last. Returns `None` exactly
/// when `p` is empty.
pub fn product1<P, T>(p: P) -> (r: Option<T>) where P: Producer<Item = T>, T: Number
    requires
        p.wf(),
        products_fit(p.remaining()),
    ensures
        match r {
            None => p.remaining().len() == 0,
            Some(t) => p.remaining().len() > 0 && t.value() == product_of(p.remaining()),
        },
{
    let mut p = p;
    let ghost all = p.remaining();
    let ghost mut done: int = 1;
    match p.next() {
        None => None,
        Some(first) => {
            let mut acc = first;
            proof {
                assert(all.take(1).drop_last() =~= Seq::<T>::empty());
                assert(product_of(all.take(1)) == product_of(Seq::<T>::empty()) * first.value());
                assert(product_of(Seq::<T>::empty()) == 1);
                assert(product_of(all.take(1)) == first.value());
            }
            loop
                invariant
                    p.wf(),
                    products_fit(all),
                    1 <= done <= all.len(),
                    p.remaining() == all.skip(done),
                    acc.value() == product_of(all.take(done)),
                ensures
                    acc.value() == product_of(all),
                decreases p.remaining().len(),
            {
                match p.next() {
                    None => {
                        assert(all.take(done) =~= all);
                        break ;
                    },
                    Some(x) => {
                        proof {
                            assert(all.take(done + 1).drop_last() =~= all.take(done));
                            assert(all.take(done + 1).last() == x);
                            assert(T::fits(product_of(all.take(done + 1))));
                        }
                        acc = acc.times(x);
                        proof {
                            assert(p.remaining() =~= all.skip(done + 1));
                            done = done + 1;
                        }
                    },
                }
            }
            Some(acc)
        },
    }
}

} // verus!
