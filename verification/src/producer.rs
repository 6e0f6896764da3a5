//! The pull interface shared by every source and combinator, and the
//! capability traits layered on top of it.

use vstd::prelude::*;

verus! {

/// A finite, deterministic source of values that is consumed one pull at a time.
pub trait Producer {
    type Item;

    /// Validity of the value: holds of everything a constructor returns and is
    /// kept by every pull.
    spec fn wf(&self) -> bool;

    /// The elements that are still to come, in the order in which `next`
    /// will hand them out.
    spec fn remaining(&self) -> Seq<Self::Item>;

    /// Pulls the next element from the front, or reports exhaustion.
    fn next(&mut self) -> (r: Option<Self::Item>)
        requires
            old(self).wf(),
        ensures
            final(self).wf(),
            r == front_of(old(self).remaining()),
            final(self).remaining() == after_front(old(self).remaining()),
    ;
}

/// What a front pull returns on a producer whose pending elements are `s`.
pub open spec fn front_of<T>(s: Seq<T>) -> Option<T> {
    if s.len() > 0 {
        Some(s[0])
    } else {
        None
    }
}

/// What a front pull leaves behind on a producer whose pending elements are `s`.
pub open spec fn after_front<T>(s: Seq<T>) -> Seq<T> {
    if s.len() > 0 {
        s.skip(1)
    } else {
        s
    }
}

/// What a back pull returns on a producer whose pending elements are `s`.
pub open spec fn back_of<T>(s: Seq<T>) -> Option<T> {
    if s.len() > 0 {
        Some(s[s.len() - 1])
    } else {
        None
    }
}

/// What a back pull leaves behind on a producer whose pending elements are `s`.
pub open spec fn after_back<T>(s: Seq<T>) -> Seq<T> {
    if s.len() > 0 {
        s.take(s.len() - 1)
    } else {
        s
    }
}

/// The pending elements of a producer that started with `s`, after `k` front pulls.
pub open spec fn pending_after<T>(s: Seq<T>, k: nat) -> Seq<T>
    decreases k,
{
    if k == 0 {
        s
    } else {
        after_front(pending_after(s, (k - 1) as nat))
    }
}

/// Determinism: what a producer yields is fixed by its pending elements.
/// Whatever its type and inner state, a producer whose pending elements are
/// `s` returns `s[k]` on pull number `k` for as long as there are elements,
/// and `None` on every later pull. Two producers built from equal inputs
/// have equal pending elements and so yield the same elements in the same
/// order.
pub proof fn lemma_pulls_follow_pending<T>(s: Seq<T>, k: nat)
    ensures
        pending_after(s, k) == if k <= s.len() {
            s.skip(k as int)
        } else {
            Seq::empty()
        },
        front_of(pending_after(s, k)) == if k < s.len() {
            Some(s[k as int])
        } else {
            None
        },
    decreases k,
{
    if k == 0 {
        assert(s.skip(0) =~= s);
    } else {
        lemma_pulls_follow_pending(s, (k - 1) as nat);
        let before = pending_after(s, (k - 1) as nat);
        if k <= s.len() {
            assert(before.skip(1) =~= s.skip(k as int));
        } else {
            assert(after_front(before) =~= Seq::<T>::empty());
        }
    }
}

/// The pending elements of a producer that started with `s`, after `k` back pulls.
pub open spec fn pending_after_back<T>(s: Seq<T>, k: nat) -> Seq<T>
    decreases k,
{
    if k == 0 {
        s
    } else {
        after_back(pending_after_back(s, (k - 1) as nat))
    }
}

/// Back pulls yield the reverse of what front pulls yield: on a producer
/// whose pending elements are `s`, back pull number `k` returns element `k`
/// of the reverse of `s` for as long as there are elements, and `None` on
/// every later pull.
pub proof fn lemma_back_pulls_follow_reverse<T>(s: Seq<T>, k: nat)
    ensures
        pending_after_back(s, k) == if k <= s.len() {
            s.take(s.len() - k)
        } else {
            Seq::empty()
        },
        back_of(pending_after_back(s, k)) == if k < s.len() {
            Some(s.reverse()[k as int])
        } else {
            None
        },
    decreases k,
{
    if k == 0 {
        assert(s.take(s.len() as int) =~= s);
    } else {
        lemma_back_pulls_follow_reverse(s, (k - 1) as nat);
        let before = pending_after_back(s, (k - 1) as nat);
        if k <= s.len() {
            assert(before.take(before.len() - 1) =~= s.take(s.len() - k));
        } else {
            assert(after_back(before) =~= Seq::<T>::empty());
        }
    }
}

/// Capability: elements can also be pulled from the back.
pub trait BackProducer: Producer {
    /// Pulls the last pending element, or reports exhaustion.
    fn next_back(&mut self) -> (r: Option<Self::Item>)
        requires
            old(self).wf(),
        ensures
            final(self).wf(),
            r == back_of(old(self).remaining()),
            final(self).remaining() == after_back(old(self).remaining()),
    ;
}

/// Capability: the number of pending elements is known exactly and cheaply.
pub trait SizedProducer: Producer {
    /// The exact number of elements still to come.
    fn len(&self) -> (n: usize)
        requires
            self.wf(),
        ensures
            n == self.remaining().len(),
    ;
}

/// Capability: the producer can be traversed again from its current position.
pub trait Restartable: Producer + Sized {
    /// An independent producer with the same pending elements.
    fn fork(&self) -> (r: Self)
        requires
            self.wf(),
        ensures
            r.wf(),
            r.remaining() == self.remaining(),
    ;
}

/// Every clone of a `T` equals the value it was cloned from.
///
/// Combinators that duplicate elements describe their output by the values
/// that were cloned, so they ask for this of the element type.
pub open spec fn clones_exactly<T: Clone>() -> bool {
    forall|a: T, b: T| #[trigger] cloned(a, b) ==> a == b
}

} // verus!
