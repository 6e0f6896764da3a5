//! Stable merge of two ordered producers.

use crate::producer::Producer;
use std::cmp::Ordering;
use vstd::prelude::*;
use vstd::std_specs::cmp::PartialOrdSpec;

verus! {

/// A rule that decides which of two heads a merge emits first.
pub trait MergePredicate<T> {
    /// Validity of the rule.
    spec fn wf(&self) -> bool;

    /// Whether `a`, from the left input, goes before `b`, from the right input.
    spec fn first(&self, a: T, b: T) -> bool;

    /// Decides whether `a` goes before `b`. The rule stays what it was.
    fn is_first(&mut self, a: &T, b: &T) -> (r: bool)
        requires
            old(self).wf(),
        ensures
            final(self).wf(),
            r == old(self).first(*a, *b),
            forall|x: T, y: T| #[trigger] final(self).first(x, y) == old(self).first(x, y),
    ;
}

/// The natural order: the left element goes first when it is less than or
/// equal to the right one.
pub struct MergeLte;

impl<T: PartialOrd> MergePredicate<T> for MergeLte {
    open spec fn wf(&self) -> bool {
        T::obeys_partial_cmp_spec()
    }

    open spec fn first(&self, a: T, b: T) -> bool {
        a.partial_cmp_spec(&b) matches Some(Ordering::Less | Ordering::Equal)
    }

    fn is_first(&mut self, a: &T, b: &T) -> (r: bool) {
        a <= b
    }
}

/// An order given by a function that says whether its first argument goes
/// before its second.
pub struct MergeFn<F> {
    decide: F,
}

impl<T, F: FnMut(&T, &T) -> bool> MergePredicate<T> for MergeFn<F> {
    closed spec fn wf(&self) -> bool {
        decides::<T, F>(self.decide)
    }

    closed spec fn first(&self, a: T, b: T) -> bool {
        self.decide.ensures((&a, &b), true)
    }

    fn is_first(&mut self, a: &T, b: &T) -> (r: bool) {
        (self.decide)(a, b)
    }
}

/// The stable merge of `sa` and `sb`: the heads are compared, the left head
/// is emitted when `first` holds of the two and the right head otherwise;
/// once one input has run out, the rest of the other follows.
pub open spec fn merged<T>(sa: Seq<T>, sb: Seq<T>, first: spec_fn(T, T) -> bool) -> Seq<T>
    decreases sa.len() + sb.len(),
{
    if sa.len() == 0 {
        sb
    } else if sb.len() == 0 {
        sa
    } else if first(sa[0], sb[0]) {
        seq![sa[0]] + merged(sa.skip(1), sb, first)
    } else {
        seq![sb[0]] + merged(sa, sb.skip(1), first)
    }
}

/// The natural order as a relation: `x` goes first when it is less than or
/// equal to `y`.
pub open spec fn natural_order<T: PartialOrd>() -> spec_fn(T, T) -> bool {
    |x: T, y: T| x.partial_cmp_spec(&y) matches Some(Ordering::Less | Ordering::Equal)
}

/// The relation that a deciding function stands for: `x` goes first when
/// the function returns `true` on the pair.
pub open spec fn order_of<T, F: FnMut(&T, &T) -> bool>(decide: F) -> spec_fn(T, T) -> bool {
    |x: T, y: T| decide.ensures((&x, &y), true)
}

/// A deciding function that accepts every pair and cannot return both
/// answers on the same pair.
pub open spec fn decides<T, F: FnMut(&T, &T) -> bool>(decide: F) -> bool {
    &&& forall|a: T, b: T| decide.requires((&a, &b))
    &&& forall|a: T, b: T| !(decide.ensures((&a, &b), true) && decide.ensures((&a, &b), false))
}

/// `s` with the element in `head`, if any, put in front.
pub open spec fn with_head<T>(head: Option<T>, s: Seq<T>) -> Seq<T> {
    match head {
        Some(x) => seq![x] + s,
        None => s,
    }
}

/// Two producers merged under a rule; one element of each is held back for
/// comparison.
pub struct MergeBy<A: Producer, B, F> {
    a: A,
    b: B,
    left: Option<A::Item>,
    right: Option<A::Item>,
    rule: F,
}

impl<A: Producer, B, F> MergeBy<A, B, F> {
    /// The left input.
    pub closed spec fn left(&self) -> A {
        self.a
    }

    /// The right input.
    pub closed spec fn right(&self) -> B {
        self.b
    }

    /// The element of the left input that is held back for comparison, if any.
    pub closed spec fn held_left(&self) -> Option<A::Item> {
        self.left
    }

    /// The element of the right input that is held back for comparison, if any.
    pub closed spec fn held_right(&self) -> Option<A::Item> {
        self.right
    }
}

impl<A: Producer, B: Producer<Item = A::Item>, F: MergePredicate<A::Item>> MergeBy<A, B, F> {
    /// The rule of this merge, as a relation.
    pub closed spec fn order(&self) -> spec_fn(A::Item, A::Item) -> bool {
        |x: A::Item, y: A::Item| self.rule.first(x, y)
    }

    /// No more than one element of each input is held back: what is pending
    /// is the merge of what is pending in the inputs, each behind its held
    /// element.
    pub proof fn lemma_holds_back_one_each(self)
        ensures
            self.remaining() == merged(
                with_head(self.held_left(), self.left().remaining()),
                with_head(self.held_right(), self.right().remaining()),
                self.order(),
            ),
    {
    }
}

impl<A: Producer, B: Producer<Item = A::Item>, F: MergePredicate<A::Item>> Producer for MergeBy<
    A,
    B,
    F,
> {
    type Item = A::Item;

    closed spec fn wf(&self) -> bool {
        self.a.wf() && self.b.wf() && self.rule.wf()
    }

    closed spec fn remaining(&self) -> Seq<A::Item> {
        merged(
            with_head(self.left, self.a.remaining()),
            with_head(self.right, self.b.remaining()),
            self.order(),
        )
    }

    fn next(&mut self) -> (r: Option<A::Item>) {
        let ghost sa = with_head(self.left, self.a.remaining());
        let ghost sb = with_head(self.right, self.b.remaining());
        if self.left.is_none() {
            self.left = self.a.next();
        }
        if self.right.is_none() {
            self.right = self.b.next();
        }
        assert(with_head(self.left, self.a.remaining()) =~= sa);
        assert(with_head(self.right, self.b.remaining()) =~= sb);
        match (self.left.take(), self.right.take()) {
            (None, None) => None,
            (Some(x), None) => {
                assert(with_head(self.left, self.a.remaining()) =~= sa.skip(1));
                Some(x)
            },
            (None, Some(y)) => {
                assert(with_head(self.right, self.b.remaining()) =~= sb.skip(1));
                Some(y)
            },
            (Some(x), Some(y)) => {
                let first = self.rule.is_first(&x, &y);
                assert(self.order() =~= old(self).order());
                if first {
                    self.right = Some(y);
                    assert(with_head(self.left, self.a.remaining()) =~= sa.skip(1));
                    assert(with_head(self.right, self.b.remaining()) =~= sb);
                    assert(self.remaining() =~= old(self).remaining().skip(1));
                    Some(x)
                } else {
                    self.left = Some(x);
                    assert(with_head(self.left, self.a.remaining()) =~= sa);
                    assert(with_head(self.right, self.b.remaining()) =~= sb.skip(1));
                    assert(self.remaining() =~= old(self).remaining().skip(1));
                    Some(y)
                }
            },
        }
    }
}

/// Merges `a` and `b` under `rule`: the head of `a` is taken whenever the
/// rule puts it first, and the head of `b` otherwise. Nothing is pulled from
/// `a` or `b` yet.
pub fn merge_with<A: Producer, B: Producer<Item = A::Item>, F: MergePredicate<A::Item>>(
    a: A,
    b: B,
    rule: F,
) -> (r: MergeBy<A, B, F>)
    requires
        a.wf(),
        b.wf(),
        rule.wf(),
    ensures
        r.wf(),
        r.remaining() == merged(
            a.remaining(),
            b.remaining(),
            |x: A::Item, y: A::Item| rule.first(x, y),
        ),
        r.left() == a,
        r.right() == b,
        r.held_left() is None,
        r.held_right() is None,
{
    MergeBy { a, b, left: None, right: None, rule }
}

/// Merges two ascending producers into one ascending producer. Of two equal
/// heads the one from `a` comes first.
pub fn merge<A: Producer, B: Producer<Item = A::Item>>(a: A, b: B) -> (r: MergeBy<
    A,
    B,
    MergeLte,
>) where A::Item: PartialOrd

    requires
        a.wf(),
        b.wf(),
        A::Item::obeys_partial_cmp_spec(),
    ensures
        r.wf(),
        r.remaining() == merged(a.remaining(), b.remaining(), natural_order::<A::Item>()),
        r.left() == a,
        r.right() == b,
        r.held_left() is None,
        r.held_right() is None,
{
    let ghost rule = MergeLte;
    assert((|x: A::Item, y: A::Item| rule.first(x, y)) =~= natural_order::<A::Item>());
    merge_with(a, b, MergeLte)
}

/// Merges `a` and `b`, taking the head of `a` whenever `decide` says that it
/// goes before the head of `b`, and the head of `b` otherwise.
pub fn merge_by<A: Producer, B: Producer<Item = A::Item>, F: FnMut(&A::Item, &A::Item) -> bool>(
    a: A,
    b: B,
    decide: F,
) -> (r: MergeBy<A, B, MergeFn<F>>)
    requires
        a.wf(),
        b.wf(),
        decides::<A::Item, F>(decide),
    ensures
        r.wf(),
        r.remaining() == merged(a.remaining(), b.remaining(), order_of::<A::Item, F>(decide)),
        r.left() == a,
        r.right() == b,
        r.held_left() is None,
        r.held_right() is None,
{
    let ghost rule = MergeFn { decide };
    assert((|x: A::Item, y: A::Item| rule.first(x, y)) =~= order_of::<A::Item, F>(decide));
    merge_with(a, b, MergeFn { decide })
}

/// `s` is ascending under `le`: no element is followed, anywhere later, by
/// one that `le` does not put after it.
pub open spec fn ascending<T>(s: Seq<T>, le: spec_fn(T, T) -> bool) -> bool {
    forall|i: int, j: int| 0 <= i < j < s.len() ==> le(#[trigger] s[i], #[trigger] s[j])
}

/// `le` compares any two values one way or the other, and is transitive.
pub open spec fn total_preorder<T>(le: spec_fn(T, T) -> bool) -> bool {
    &&& forall|x: T, y: T| #[trigger] le(x, y) || #[trigger] le(y, x)
    &&& forall|x: T, y: T, z: T| #[trigger] le(x, y) && #[trigger] le(y, z) ==> le(x, z)
}

/// A merge holds the elements of both inputs and nothing else.
pub proof fn lemma_merged_elements<T>(sa: Seq<T>, sb: Seq<T>, first: spec_fn(T, T) -> bool)
    ensures
        merged(sa, sb, first).to_multiset() == sa.to_multiset().add(sb.to_multiset()),
        merged(sa, sb, first).len() == sa.len() + sb.len(),
    decreases sa.len() + sb.len(),
{
    broadcast use vstd::multiset::group_multiset_axioms;

    let out = merged(sa, sb, first);
    if sa.len() == 0 {
        sa.to_multiset_ensures();
        assert(sa.to_multiset().len() == 0);
        assert(out.to_multiset() =~= sa.to_multiset().add(sb.to_multiset()));
    } else if sb.len() == 0 {
        sb.to_multiset_ensures();
        assert(sb.to_multiset().len() == 0);
        assert(out.to_multiset() =~= sa.to_multiset().add(sb.to_multiset()));
    } else if first(sa[0], sb[0]) {
        let rest = merged(sa.skip(1), sb, first);
        lemma_merged_elements(sa.skip(1), sb, first);
        vstd::seq_lib::lemma_multiset_commutative(seq![sa[0]], rest);
        vstd::seq_lib::lemma_multiset_commutative(seq![sa[0]], sa.skip(1));
        assert(seq![sa[0]] + sa.skip(1) =~= sa);
        assert(out.to_multiset() =~= sa.to_multiset().add(sb.to_multiset()));
    } else {
        let rest = merged(sa, sb.skip(1), first);
        lemma_merged_elements(sa, sb.skip(1), first);
        vstd::seq_lib::lemma_multiset_commutative(seq![sb[0]], rest);
        vstd::seq_lib::lemma_multiset_commutative(seq![sb[0]], sb.skip(1));
        assert(seq![sb[0]] + sb.skip(1) =~= sb);
        assert(out.to_multiset() =~= sa.to_multiset().add(sb.to_multiset()));
    }
}

/// Every element of a merge stems from one of the inputs.
proof fn lemma_merged_stems<T>(sa: Seq<T>, sb: Seq<T>, first: spec_fn(T, T) -> bool, k: int)
    requires
        0 <= k < merged(sa, sb, first).len(),
    ensures
        sa.contains(merged(sa, sb, first)[k]) || sb.contains(merged(sa, sb, first)[k]),
    decreases sa.len() + sb.len(),
{
    if sa.len() == 0 {
        assert(sb[k] == merged(sa, sb, first)[k]);
    } else if sb.len() == 0 {
        assert(sa[k] == merged(sa, sb, first)[k]);
    } else if first(sa[0], sb[0]) {
        if k == 0 {
            assert(sa[0] == merged(sa, sb, first)[k]);
        } else {
            lemma_merged_stems(sa.skip(1), sb, first, k - 1);
            let x = merged(sa.skip(1), sb, first)[k - 1];
            if sa.skip(1).contains(x) {
                lemma_rest_is_part(sa, x);
            }
        }
    } else {
        if k == 0 {
            assert(sb[0] == merged(sa, sb, first)[k]);
        } else {
            lemma_merged_stems(sa, sb.skip(1), first, k - 1);
            let x = merged(sa, sb.skip(1), first)[k - 1];
            if sb.skip(1).contains(x) {
                lemma_rest_is_part(sb, x);
            }
        }
    }
}

/// An element of the rest of a sequence is an element of the sequence.
proof fn lemma_rest_is_part<T>(s: Seq<T>, x: T)
    requires
        s.len() > 0,
        s.skip(1).contains(x),
    ensures
        s.contains(x),
{
    let i = choose|i: int| 0 <= i < s.skip(1).len() && s.skip(1)[i] == x;
    assert(s[i + 1] == x);
}

/// The head of an ascending sequence goes before each of its elements.
proof fn lemma_head_goes_first<T>(s: Seq<T>, le: spec_fn(T, T) -> bool, x: T)
    requires
        total_preorder(le),
        ascending(s, le),
        s.contains(x),
    ensures
        le(s[0], x),
{
    let k = choose|k: int| 0 <= k < s.len() && s[k] == x;
    if k > 0 {
        assert(le(s[0], s[k]));
    } else {
        assert(le(s[0], s[0]) || le(s[0], s[0]));
    }
}

/// The rest of an ascending sequence is ascending.
proof fn lemma_rest_ascending<T>(s: Seq<T>, le: spec_fn(T, T) -> bool)
    requires
        ascending(s, le),
        s.len() > 0,
    ensures
        ascending(s.skip(1), le),
{
    let rest = s.skip(1);
    assert forall|i: int, j: int| 0 <= i < j < rest.len() implies le(
        #[trigger] rest[i],
        #[trigger] rest[j],
    ) by {
        assert(rest[i] == s[i + 1] && rest[j] == s[j + 1]);
    }
}

/// Merging two ascending sequences under a total preorder gives an
/// ascending sequence.
pub proof fn lemma_merged_ascending<T>(sa: Seq<T>, sb: Seq<T>, le: spec_fn(T, T) -> bool)
    requires
        total_preorder(le),
        ascending(sa, le),
        ascending(sb, le),
    ensures
        ascending(merged(sa, sb, le), le),
    decreases sa.len() + sb.len(),
{
    let out = merged(sa, sb, le);
    if sa.len() > 0 && sb.len() > 0 {
        let left_first = le(sa[0], sb[0]);
        let ra = if left_first {
            sa.skip(1)
        } else {
            sa
        };
        let rb = if left_first {
            sb
        } else {
            sb.skip(1)
        };
        let rest = merged(ra, rb, le);
        lemma_rest_ascending(sa, le);
        lemma_rest_ascending(sb, le);
        lemma_merged_ascending(ra, rb, le);
        assert forall|i: int, j: int| 0 <= i < j < out.len() implies le(
            #[trigger] out[i],
            #[trigger] out[j],
        ) by {
            if i > 0 {
                assert(out[i] == rest[i - 1] && out[j] == rest[j - 1]);
            } else {
                let x = rest[j - 1];
                assert(out[j] == x);
                lemma_merged_stems(ra, rb, le, j - 1);
                if ra.contains(x) {
                    if left_first {
                        lemma_rest_is_part(sa, x);
                    }
                    lemma_head_goes_first(sa, le, x);
                } else {
                    if !left_first {
                        lemma_rest_is_part(sb, x);
                    }
                    lemma_head_goes_first(sb, le, x);
                }
                assert(le(sa[0], sb[0]) || le(sb[0], sa[0]));
            }
        }
    }
}

} // verus!
