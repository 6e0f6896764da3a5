//! In-place reordering of a buffer by a predicate.

use vstd::prelude::*;

verus! {

/// Exchanges the elements at positions `i` and `j`.
fn exchange<T>(data: &mut [T], i: usize, j: usize)
    requires
        i < j < old(data)@.len(),
    ensures
        final(data)@ == old(data)@.update(i as int, old(data)@[j as int]).update(
            j as int,
            old(data)@[i as int],
        ),
{
    let (left, right) = data.split_at_mut(j);
    core::mem::swap(&mut left[i], &mut right[0]);
}

/// Exchanging two elements keeps the collection of elements.
proof fn lemma_exchange_keeps_elements<T>(s: Seq<T>, i: int, j: int)
    requires
        0 <= i < j < s.len(),
    ensures
        s.update(i, s[j]).update(j, s[i]).to_multiset() == s.to_multiset(),
{
    broadcast use vstd::seq_lib::to_multiset_update;

    let mid = s.update(i, s[j]);
    assert(mid.to_multiset() =~= s.to_multiset().insert(s[j]).remove(s[i]));
    assert(mid.update(j, s[i]).to_multiset() =~= mid.to_multiset().insert(s[i]).remove(mid[j]));
    assert(mid[j] == s[j]);
    assert(s.to_multiset().count(s[i]) > 0) by {
        s.to_multiset_ensures();
        assert(s.contains(s[i]));
    }
    assert(mid.update(j, s[i]).to_multiset() =~= s.to_multiset());
}

/// Reorders `data` so that the elements that satisfy `pred` come first, and
/// returns how many there are. The order within either group is unspecified.
pub fn partition<T, F>(data: &mut [T], mut pred: F) -> (split: usize) where F: FnMut(&T) -> bool
    requires
        forall|k: int| 0 <= k < old(data)@.len() ==> pred.requires((&#[trigger] old(data)@[k],)),
    ensures
        final(data)@.to_multiset() == old(data)@.to_multiset(),
        final(data)@.len() == old(data)@.len(),
        split <= final(data)@.len(),
        forall|k: int| 0 <= k < split ==> pred.ensures((&#[trigger] final(data)@[k],), true),
        forall|k: int|
            split <= k < final(data)@.len() ==> pred.ensures(
                (&#[trigger] final(data)@[k],),
                false,
            ),
{
    let ghost holds = pred;
    let mut i: usize = 0;
    let mut j: usize = data.len();
    while i < j
        invariant
            pred == holds,
            forall|k: int| 0 <= k < data@.len() ==> holds.requires((&#[trigger] data@[k],)),
            i <= j <= data@.len(),
            data@.len() == old(data)@.len(),
            data@.to_multiset() == old(data)@.to_multiset(),
            forall|k: int| 0 <= k < i ==> holds.ensures((&#[trigger] data@[k],), true),
            forall|k: int| j <= k < data@.len() ==> holds.ensures((&#[trigger] data@[k],), false),
        decreases j - i,
    {
        if pred(&data[i]) {
            i = i + 1;
        } else {
            let mut found = false;
            let ghost reach = j;
            while i + 1 < j && !found
                invariant
                    pred == holds,
                    j <= reach,
                    forall|k: int| 0 <= k < data@.len() ==> holds.requires((&#[trigger] data@[k],)),
                    i < j <= data@.len(),
                    holds.ensures((&data@[i as int],), false),
                    found ==> j < data@.len() && holds.ensures((&data@[j as int],), true),
                    forall|k: int|
                        j + (if found { 1int } else { 0int }) <= k < data@.len() ==> holds.ensures(
                            (&#[trigger] data@[k],),
                            false,
                        ),
                decreases j - i + (if found { 0int } else { 1int }),
            {
                j = j - 1;
                if pred(&data[j]) {
                    found = true;
                }
            }
            if found {
                proof {
                    lemma_exchange_keeps_elements(data@, i as int, j as int);
                }
                exchange(data, i, j);
                i = i + 1;
            } else {
                j = i;
            }
        }
    }
    i
}

/// The number of elements of `s` of which `holds` is true.
pub open spec fn count_of<T>(s: Seq<T>, holds: spec_fn(T) -> bool) -> nat {
    s.to_multiset().filter(holds).len()
}

/// When `after` is a rearrangement of `before` in which exactly the first
/// `split` elements satisfy `holds`, then `split` is the number of elements of
/// `before` that satisfy `holds`.
pub proof fn lemma_boundary_is_count<T>(
    before: Seq<T>,
    after: Seq<T>,
    split: int,
    holds: spec_fn(T) -> bool,
)
    requires
        after.to_multiset() == before.to_multiset(),
        0 <= split <= after.len(),
        forall|k: int| 0 <= k < split ==> holds(#[trigger] after[k]),
        forall|k: int| split <= k < after.len() ==> !holds(#[trigger] after[k]),
    ensures
        split == count_of(before, holds),
{
    broadcast use vstd::multiset::group_multiset_axioms;

    let left = after.take(split);
    let right = after.skip(split);
    assert(after =~= left + right);
    vstd::seq_lib::lemma_multiset_commutative(left, right);
    left.to_multiset_ensures();
    right.to_multiset_ensures();
    assert forall|v: T| #[trigger]
        after.to_multiset().filter(holds).count(v) == left.to_multiset().count(v) by {
        if holds(v) {
            if right.to_multiset().count(v) > 0 {
                assert(right.contains(v));
                let k = choose|k: int| 0 <= k < right.len() && right[k] == v;
                assert(right[k] == after[split + k]);
            }
        } else {
            if left.to_multiset().count(v) > 0 {
                assert(left.contains(v));
                let k = choose|k: int| 0 <= k < left.len() && left[k] == v;
                assert(left[k] == after[k]);
            }
        }
    }
    assert(after.to_multiset().filter(holds) =~= left.to_multiset());
}

} // verus!
