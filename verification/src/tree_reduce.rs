//! Reduction of a sequence along a balanced binary tree instead of a left-leaning chain.

use crate::producer::Producer;
use vstd::prelude::*;

verus! {

/// Two to the power `k`.
pub open spec fn pow2(k: nat) -> nat
    decreases k,
{
    if k == 0 {
        1
    } else {
        2 * pow2((k - 1) as nat)
    }
}

/// How many of `n >= 2` elements go to the left subtree: the largest power of
/// two that is strictly smaller than `n`.
pub open spec fn left_size(n: nat) -> nat
    decreases n,
{
    if n <= 2 {
        1
    } else {
        2 * left_size((n + 1) / 2)
    }
}

/// Names the outcomes of the two parts of a split sequence.
pub open spec fn parts<T>(x: T, y: T) -> bool {
    true
}

/// The combining function `f` as a relation: `op(x, y, r)` holds when `f`
/// can return `r` on `x` and `y`.
pub open spec fn outcomes_of<T, F: FnMut(T, T) -> T>(f: F) -> spec_fn(T, T, T) -> bool {
    |x: T, y: T, r: T| f.ensures((x, y), r)
}

/// The inputs that the combining function `f` accepts, as a relation.
pub open spec fn accepted_by<T, F: FnMut(T, T) -> T>(f: F) -> spec_fn(T, T) -> bool {
    |x: T, y: T| f.requires((x, y))
}

/// `r` is a possible outcome of reducing `s` with `op` along the balanced
/// tree: a single element is itself; a longer sequence is split after its
/// first `left_size` elements, both parts are reduced, and `op` combines the
/// two outcomes.
pub open spec fn combines_to<T>(op: spec_fn(T, T, T) -> bool, s: Seq<T>, r: T) -> bool
    decreases s.len(),
    via combines_to_terminates::<T>
{
    if s.len() <= 1 {
        s.len() == 1 && r == s[0]
    } else {
        let k = left_size(s.len()) as int;
        exists|x: T, y: T|
            {
                &&& #[trigger] parts(x, y)
                &&& combines_to(op, s.take(k), x)
                &&& combines_to(op, s.skip(k), y)
                &&& op(x, y, r)
            }
    }
}

#[via_fn]
proof fn combines_to_terminates<T>(op: spec_fn(T, T, T) -> bool, s: Seq<T>, r: T) {
    if s.len() >= 2 {
        lemma_left_size_splits(s.len());
    }
}

/// The reduction of `s` can be carried out: wherever the balanced tree
/// combines the outcomes of two parts, the combining function accepts them.
pub open spec fn reducible<T>(
    accepts: spec_fn(T, T) -> bool,
    op: spec_fn(T, T, T) -> bool,
    s: Seq<T>,
) -> bool
    decreases s.len(),
    via reducible_terminates::<T>
{
    if s.len() <= 1 {
        true
    } else {
        let k = left_size(s.len()) as int;
        &&& reducible(accepts, op, s.take(k))
        &&& reducible(accepts, op, s.skip(k))
        &&& forall|x: T, y: T|
            #[trigger] parts(x, y) && combines_to(op, s.take(k), x) && combines_to(op, s.skip(k), y)
                ==> accepts(x, y)
    }
}

#[via_fn]
proof fn reducible_terminates<T>(
    accepts: spec_fn(T, T) -> bool,
    op: spec_fn(T, T, T) -> bool,
    s: Seq<T>,
) {
    if s.len() >= 2 {
        lemma_left_size_splits(s.len());
    }
}

/// `pow2(k)` is positive and exceeds `k`.
pub proof fn lemma_pow2_exceeds(k: nat)
    ensures
        k < pow2(k),
    decreases k,
{
    if k > 0 {
        lemma_pow2_exceeds((k - 1) as nat);
    }
}

/// `pow2` is monotone.
pub proof fn lemma_pow2_grows(a: nat, b: nat)
    requires
        a <= b,
    ensures
        pow2(a) <= pow2(b),
    decreases b,
{
    if a < b {
        lemma_pow2_grows(a, (b - 1) as nat);
    }
}

/// `left_size(n)` is the power of two `p` with `p < n <= 2 * p`.
pub proof fn lemma_left_size(n: nat, k: nat)
    requires
        pow2(k) < n <= pow2(k + 1),
    ensures
        left_size(n) == pow2(k),
    decreases k,
{
    if k > 0 {
        lemma_left_size((n + 1) / 2, (k - 1) as nat);
    }
}

/// Every `n >= 2` lies above one power of two and not above the next.
proof fn lemma_bracket(n: nat) -> (k: nat)
    requires
        n >= 2,
    ensures
        pow2(k) < n <= pow2(k + 1),
    decreases n,
{
    reveal_with_fuel(pow2, 3);
    if n <= 2 {
        0
    } else {
        let below = lemma_bracket((n + 1) / 2);
        below + 1
    }
}

/// `left_size` leaves at least one element on either side.
pub proof fn lemma_left_size_splits(n: nat)
    requires
        n >= 2,
    ensures
        0 < left_size(n) < n,
{
    let k = lemma_bracket(n);
    lemma_left_size(n, k);
    lemma_pow2_exceeds(k);
}

/// A combining function that accepts every pair can reduce every sequence.
pub proof fn lemma_total_is_reducible<T, F: FnMut(T, T) -> T>(f: F, s: Seq<T>)
    requires
        forall|x: T, y: T| f.requires((x, y)),
    ensures
        reducible(accepted_by(f), outcomes_of(f), s),
    decreases s.len(),
{
    if s.len() > 1 {
        let k = left_size(s.len()) as int;
        lemma_left_size_splits(s.len());
        lemma_total_is_reducible(f, s.take(k));
        lemma_total_is_reducible(f, s.skip(k));
    }
}

/// Combining the outcomes of the two parts gives an outcome of the whole.
proof fn lemma_join<T>(op: spec_fn(T, T, T) -> bool, s: Seq<T>, x: T, y: T, r: T)
    requires
        s.len() >= 2,
        combines_to(op, s.take(left_size(s.len()) as int), x),
        combines_to(op, s.skip(left_size(s.len()) as int), y),
        op(x, y, r),
    ensures
        combines_to(op, s, r),
{
    assert(parts(x, y));
}

/// What `f` is handed at the root of a reducible sequence, it accepts.
proof fn lemma_root_accepted<T>(
    accepts: spec_fn(T, T) -> bool,
    op: spec_fn(T, T, T) -> bool,
    s: Seq<T>,
    x: T,
    y: T,
)
    requires
        s.len() >= 2,
        reducible(accepts, op, s),
        combines_to(op, s.take(left_size(s.len()) as int), x),
        combines_to(op, s.skip(left_size(s.len()) as int), y),
    ensures
        accepts(x, y),
{
    assert(parts(x, y));
}

/// In a sequence that can be reduced, the first `pow2(j)` elements can be
/// reduced too: they form a subtree on the left edge of the tree.
proof fn lemma_prefix_reducible<T>(
    accepts: spec_fn(T, T) -> bool,
    op: spec_fn(T, T, T) -> bool,
    s: Seq<T>,
    j: nat,
)
    requires
        reducible(accepts, op, s),
        pow2(j) <= s.len(),
    ensures
        reducible(accepts, op, s.take(pow2(j) as int)),
    decreases s.len(),
{
    lemma_pow2_exceeds(j);
    if s.len() == pow2(j) {
        assert(s.take(pow2(j) as int) =~= s);
    } else {
        let m = lemma_bracket(s.len());
        lemma_left_size(s.len(), m);
        if j > m {
            lemma_pow2_grows(m + 1, j);
        }
        lemma_pow2_grows(j, m);
        lemma_pow2_exceeds(m);
        let k = pow2(m) as int;
        lemma_prefix_reducible(accepts, op, s.take(k), j);
        assert(s.take(k).take(pow2(j) as int) =~= s.take(pow2(j) as int));
    }
}

/// The part of `s` that a block of at most `need` elements covers.
spec fn block_of<T>(s: Seq<T>, need: nat) -> Seq<T> {
    if s.len() >= need {
        s.take(need as int)
    } else {
        s
    }
}

/// Reduces up to `pow2(levels + 1)` elements of `it`. With that many
/// available the outcome of the full block is `Ok`; with fewer, everything is
/// consumed and the outcome of what was there, if anything, is in `Err`.
fn reduce_block<P, F>(levels: usize, it: &mut P, f: &mut F) -> (r: Result<
    P::Item,
    Option<P::Item>,
>) where P: Producer, F: FnMut(P::Item, P::Item) -> P::Item
    requires
        old(it).wf(),
        reducible(
            accepted_by(*old(f)),
            outcomes_of(*old(f)),
            block_of(old(it).remaining(), pow2((levels + 1) as nat)),
        ),
    ensures
        final(it).wf(),
        *final(f) == *old(f),
        match r {
            Ok(v) => {
                &&& old(it).remaining().len() >= pow2((levels + 1) as nat)
                &&& combines_to(
                    outcomes_of(*old(f)),
                    old(it).remaining().take(pow2((levels + 1) as nat) as int),
                    v,
                )
                &&& final(it).remaining() == old(it).remaining().skip(
                    pow2((levels + 1) as nat) as int,
                )
            },
            Err(Some(v)) => {
                &&& 0 < old(it).remaining().len() < pow2((levels + 1) as nat)
                &&& combines_to(outcomes_of(*old(f)), old(it).remaining(), v)
                &&& final(it).remaining().len() == 0
            },
            Err(None) => old(it).remaining().len() == 0 && final(it).remaining().len() == 0,
        },
    decreases levels,
{
    let ghost all = it.remaining();
    let ghost accepts = accepted_by(*f);
    let ghost op = outcomes_of(*f);
    let ghost need = pow2((levels + 1) as nat);
    let ghost block = block_of(all, need);
    proof {
        reveal_with_fuel(pow2, 3);
        lemma_pow2_exceeds((levels + 1) as nat);
        lemma_pow2_grows(1, (levels + 1) as nat);
    }
    let a = match it.next() {
        Some(v) => v,
        None => {
            return Err(None);
        },
    };
    let b = match it.next() {
        Some(v) => v,
        None => {
            return Err(Some(a));
        },
    };
    proof {
        assert(all.take(2).take(1) =~= seq![a]);
        assert(all.take(2).skip(1) =~= seq![b]);
        lemma_prefix_reducible(accepts, op, block, 1);
        assert(block.take(2) =~= all.take(2));
        lemma_root_accepted(accepts, op, all.take(2), a, b);
    }
    let mut x = f(a, b);
    proof {
        lemma_join(op, all.take(2), a, b, x);
        assert(it.remaining() =~= all.skip(2));
    }
    let mut height: usize = 0;
    while height < levels
        invariant
            it.wf(),
            height <= levels,
            all == old(it).remaining(),
            *f == *old(f),
            accepts == accepted_by(*f),
            op == outcomes_of(*f),
            need == pow2((levels + 1) as nat),
            block == block_of(all, need),
            reducible(accepts, op, block),
            all.len() >= pow2((height + 1) as nat),
            combines_to(op, all.take(pow2((height + 1) as nat) as int), x),
            it.remaining() == all.skip(pow2((height + 1) as nat) as int),
        decreases levels - height,
    {
        let ghost half = pow2((height + 1) as nat);
        let ghost rest = it.remaining();
        let ghost whole = all.take(2 * half as int);
        proof {
            lemma_pow2_exceeds((height + 1) as nat);
            lemma_pow2_grows((height + 2) as nat, (levels + 1) as nat);
            assert(pow2((height + 2) as nat) == 2 * half);
            if rest.len() >= half {
                // the next block is the right half of the first `2 * half` elements
                lemma_prefix_reducible(accepts, op, block, (height + 2) as nat);
                assert(block.take(2 * half as int) =~= whole);
                lemma_left_size(2 * half, (height + 1) as nat);
                assert(whole.take(half as int) =~= all.take(half as int));
                assert(whole.skip(half as int) =~= rest.take(half as int));
            } else if rest.len() > 0 {
                // what is left is the right part of everything
                assert(block == all);
                lemma_left_size(all.len(), (height + 1) as nat);
                assert(all.skip(half as int) =~= rest);
            }
        }
        match reduce_block(height, it, f) {
            Ok(y) => {
                proof {
                    lemma_root_accepted(accepts, op, whole, x, y);
                }
                let z = f(x, y);
                proof {
                    lemma_join(op, whole, x, y, z);
                    assert(it.remaining() =~= all.skip(2 * half as int));
                }
                x = z;
            },
            Err(None) => {
                proof {
                    assert(all.take(half as int) =~= all);
                }
                return Err(Some(x));
            },
            Err(Some(y)) => {
                proof {
                    lemma_root_accepted(accepts, op, all, x, y);
                }
                let z = f(x, y);
                proof {
                    lemma_join(op, all, x, y, z);
                }
                return Err(Some(z));
            },
        }
        height = height + 1;
    }
    Ok(x)
}

/// Reduces the elements of `p` to one value by combining neighbours pairwise
/// along a balanced tree. Returns `None` exactly when `p` is empty; a single
/// element is returned as it is.
pub fn tree_reduce<P, F>(p: P, mut f: F) -> (r: Option<P::Item>) where
    P: Producer,
    F: FnMut(P::Item, P::Item) -> P::Item,

    requires
        p.wf(),
        p.remaining().len() <= usize::MAX,
        reducible(accepted_by(f), outcomes_of(f), p.remaining()),
    ensures
        match r {
            None => p.remaining().len() == 0,
            Some(v) => combines_to(outcomes_of(f), p.remaining(), v),
        },
{
    let mut p = p;
    proof {
        lemma_pow2_exceeds((usize::MAX + 1) as nat);
    }
    match reduce_block(usize::MAX, &mut p, &mut f) {
        Err(found) => found,
        Ok(v) => Some(v),
    }
}

} // verus!
