//! Views of a producer restricted to a range of positions.

use crate::consume::truncate_back;
use crate::producer::{
    back_of, front_of, lemma_back_pulls_follow_reverse, lemma_pulls_follow_pending, pending_after,
    pending_after_back, BackProducer, Producer, SizedProducer,
};
use vstd::prelude::*;

verus! {

/// Where a range of positions ends.
#[derive(Clone, Copy, Debug, PartialEq, Eq)]
pub enum End {
    /// The range has no upper bound.
    Open,
    /// The range ends just before this position.
    Before(usize),
    /// The range ends with this position.
    Through(usize),
}

/// A range of positions: an optional first position and an end.
#[derive(Clone, Copy, Debug, PartialEq, Eq)]
pub struct Bounds {
    /// The first position inside the range; `None` stands for position 0.
    pub start: Option<usize>,
    /// The end of the range.
    pub end: End,
}

/// The failure of a range whose number of positions does not fit in a `usize`.
#[derive(Clone, Copy, Debug, PartialEq, Eq)]
pub struct SpanOverflow;

impl Bounds {
    /// The first position inside the range.
    pub open spec fn first(self) -> nat {
        match self.start {
            Some(s) => s as nat,
            None => 0,
        }
    }

    /// The first position past the range, or `None` for a range without upper bound.
    pub open spec fn limit(self) -> Option<nat> {
        match self.end {
            End::Open => None,
            End::Before(e) => Some(e as nat),
            End::Through(e) => Some((e + 1) as nat),
        }
    }

    /// The number of positions inside the range, or `None` for a range
    /// without upper bound.
    pub open spec fn span(self) -> Option<nat> {
        match self.limit() {
            None => None,
            Some(l) => Some(
                if l >= self.first() {
                    (l - self.first()) as nat
                } else {
                    0
                },
            ),
        }
    }

    /// Whether the number of positions inside the range fits in a `usize`.
    pub open spec fn representable(self) -> bool {
        match self.span() {
            Some(n) => n <= usize::MAX,
            None => true,
        }
    }
}

/// The elements of `s` whose positions lie inside `bounds`, in order.
pub open spec fn window<T>(s: Seq<T>, bounds: Bounds) -> Seq<T> {
    let lo = if bounds.first() <= s.len() {
        bounds.first() as int
    } else {
        s.len() as int
    };
    let hi = match bounds.limit() {
        None => s.len() as int,
        Some(l) => if l <= lo {
            lo
        } else if l <= s.len() {
            l as int
        } else {
            s.len() as int
        },
    };
    s.subrange(lo, hi)
}

/// What is left of `s` once its first `n` elements are dropped; nothing when
/// `s` has no more than `n` elements.
pub open spec fn past<T>(s: Seq<T>, n: nat) -> Seq<T> {
    if n <= s.len() {
        s.skip(n as int)
    } else {
        Seq::empty()
    }
}

/// What is left of `s` once its first `skip` elements are dropped and at most
/// `take` of the others are kept.
spec fn clipped<T>(s: Seq<T>, skip: nat, take: Option<nat>) -> Seq<T> {
    let rest = if skip <= s.len() {
        s.skip(skip as int)
    } else {
        Seq::empty()
    };
    match take {
        Some(t) => if t <= rest.len() {
            rest.take(t as int)
        } else {
            rest
        },
        None => rest,
    }
}

/// A producer restricted to a range of positions. Elements before the range
/// are dropped on the first pull, not at construction.
pub struct RangeView<P> {
    inner: P,
    skip: usize,
    take: Option<usize>,
}

impl<P> RangeView<P> {
    /// The number of elements that this view will still yield at most, or
    /// `None` when the range has no upper bound.
    pub closed spec fn quota(&self) -> Option<nat> {
        match self.take {
            Some(t) => Some(t as nat),
            None => None,
        }
    }

    /// The producer that this view pulls from.
    pub closed spec fn source(&self) -> P {
        self.inner
    }

    /// The number of elements of the source that lie before the range and
    /// have not been dropped yet.
    pub closed spec fn lead(&self) -> nat {
        self.skip as nat
    }
}

impl<P: Producer> Producer for RangeView<P> {
    type Item = P::Item;

    closed spec fn wf(&self) -> bool {
        self.inner.wf()
    }

    closed spec fn remaining(&self) -> Seq<P::Item> {
        clipped(self.inner.remaining(), self.skip as nat, self.quota())
    }

    /// A view that has nothing left to yield leaves its source alone; any
    /// other pull first drops the elements before the range and then pulls
    /// one more.
    fn next(&mut self) -> (r: Option<P::Item>)
        ensures
            final(self).source().remaining() == if old(self).quota() == Some(0nat) {
                old(self).source().remaining()
            } else {
                past(old(self).source().remaining(), old(self).lead() + 1)
            },
            final(self).lead() == if old(self).quota() == Some(0nat) {
                old(self).lead()
            } else {
                0
            },
            final(self).quota() == match (old(self).quota(), r) {
                (Some(q), Some(_)) => Some((q - 1) as nat),
                (q, _) => q,
            },
    {
        match self.take {
            Some(0) => {
                return None;
            },
            _ => {},
        }
        let ghost start = self.inner.remaining();
        let ghost lead = self.skip;
        assert(past(start, 0) =~= start);
        while self.skip > 0
            invariant
                self.inner.wf(),
                self.take == old(self).take,
                self.remaining() == old(self).remaining(),
                self.skip <= lead,
                self.inner.remaining() == past(start, (lead - self.skip) as nat),
                self.inner.remaining().len() == 0 ==> past(start, lead as nat + 1).len() == 0,
            decreases self.skip,
        {
            let ghost before = self.inner.remaining();
            match self.inner.next() {
                Some(_) => {
                    self.skip = self.skip - 1;
                    proof {
                        if before.len() > self.skip + 1 {
                            assert(before.skip(self.skip + 1) =~= before.skip(1).skip(
                                self.skip as int,
                            ));
                        }
                    }
                },
                None => {
                    self.skip = 0;
                },
            }
            assert(self.remaining() =~= old(self).remaining());
            assert(self.inner.remaining() =~= past(start, (lead - self.skip) as nat));
        }
        match self.inner.next() {
            None => {
                assert(self.inner.remaining() =~= past(start, lead as nat + 1));
                None
            },
            Some(x) => {
                match self.take {
                    Some(t) => {
                        self.take = Some(t - 1);
                    },
                    None => {},
                }
                assert(self.remaining() =~= old(self).remaining().skip(1));
                assert(self.inner.remaining() =~= past(start, lead as nat + 1));
                Some(x)
            },
        }
    }
}

impl<P: SizedProducer> SizedProducer for RangeView<P> {
    fn len(&self) -> (n: usize) {
        let total = self.inner.len();
        let rest = if total > self.skip {
            total - self.skip
        } else {
            0
        };
        match self.take {
            Some(t) => if t <= rest {
                t
            } else {
                rest
            },
            None => rest,
        }
    }
}

impl<P: BackProducer + SizedProducer> BackProducer for RangeView<P> {
    fn next_back(&mut self) -> (r: Option<P::Item>) {
        let total = self.inner.len();
        let rest = if total > self.skip {
            total - self.skip
        } else {
            0
        };
        let count = match self.take {
            Some(t) => if t <= rest {
                t
            } else {
                rest
            },
            None => rest,
        };
        if count == 0 {
            return None;
        }
        truncate_back(&mut self.inner, self.skip + count);
        assert(self.remaining() =~= old(self).remaining());
        match self.inner.next_back() {
            None => None,
            Some(x) => {
                match self.take {
                    Some(t) => {
                        self.take = Some(t - 1);
                    },
                    None => {},
                }
                assert(self.remaining() =~= old(self).remaining().take(
                    old(self).remaining().len() - 1,
                ));
                Some(x)
            },
        }
    }
}

/// The view of `p` that yields the elements whose positions lie inside
/// `bounds`. Fails exactly when the number of positions inside `bounds` does
/// not fit in a `usize`. Nothing is pulled from `p` yet.
pub fn get<P: Producer>(p: P, bounds: Bounds) -> (r: Result<RangeView<P>, SpanOverflow>)
    requires
        p.wf(),
    ensures
        match r {
            Ok(view) => {
                &&& bounds.representable()
                &&& view.wf()
                &&& view.remaining() == window(p.remaining(), bounds)
                &&& view.source() == p
                &&& view.lead() == bounds.first()
                &&& view.quota() == bounds.span()
            },
            Err(_) => !bounds.representable(),
        },
{
    let skip = match bounds.start {
        Some(s) => s,
        None => 0,
    };
    let take = match bounds.end {
        End::Open => None,
        End::Before(e) => if e >= skip {
            Some(e - skip)
        } else {
            Some(0)
        },
        End::Through(e) => if e == usize::MAX {
            if skip == 0 {
                return Err(SpanOverflow);
            }
            Some(e - skip + 1)
        } else if e + 1 >= skip {
            Some(e + 1 - skip)
        } else {
            Some(0)
        },
    };
    let view = RangeView { inner: p, skip, take };
    assert(view.remaining() =~= window(p.remaining(), bounds));
    Ok(view)
}

/// A range that starts at position 0 and ends no earlier than the end of the
/// sequence selects the whole sequence.
pub proof fn lemma_full_window<T>(s: Seq<T>, bounds: Bounds)
    requires
        bounds.first() == 0,
        match bounds.limit() {
            Some(l) => l >= s.len(),
            None => true,
        },
    ensures
        window(s, bounds) == s,
{
    assert(window(s, bounds) =~= s);
}

/// Pulled from the back, a view yields what it yields from the front, in
/// reverse: back pull number `k` returns the element that front pull number
/// `len - 1 - k` returns, where `len` is the number of elements in the view.
pub proof fn lemma_back_pulls_mirror_front_pulls<T>(s: Seq<T>, bounds: Bounds, k: nat)
    requires
        k < window(s, bounds).len(),
    ensures
        back_of(pending_after_back(window(s, bounds), k)) == front_of(
            pending_after(window(s, bounds), (window(s, bounds).len() - 1 - k) as nat),
        ),
{
    let w = window(s, bounds);
    lemma_back_pulls_follow_reverse(w, k);
    lemma_pulls_follow_pending(w, (w.len() - 1 - k) as nat);
}

} // verus!
