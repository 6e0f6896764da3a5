//! Collection of a known number of elements into a fixed-size array.

use crate::producer::Producer;
use vstd::prelude::*;

verus! {

/// `<[T; K]>::try_from(Vec<T>)` of the standard library, which is taken on
/// trust: it gives the vector's elements as an array, in the same order, when
/// the vector holds exactly `K` of them, and gives the vector back otherwise.
#[verifier::external_body]
fn vec_into_array<T, const K: usize>(v: Vec<T>) -> (r: Result<[T; K], Vec<T>>)
    ensures
        match r {
            Ok(a) => v@.len() == K && a@ == v@,
            Err(back) => v@.len() != K && back@ == v@,
        },
{
    <[T; K]>::try_from(v)
}

/// Pulls the next `K` elements of `p` into an array. When `p` holds fewer than
/// `K`, all of them are pulled and discarded, and the result is `None`.
pub fn next_array<P: Producer, const K: usize>(p: &mut P) -> (r: Option<[P::Item; K]>)
    requires
        old(p).wf(),
    ensures
        final(p).wf(),
        match r {
            Some(a) => {
                &&& old(p).remaining().len() >= K
                &&& a@ == old(p).remaining().take(K as int)
                &&& final(p).remaining() == old(p).remaining().skip(K as int)
            },
            None => old(p).remaining().len() < K && final(p).remaining().len() == 0,
        },
{
    let ghost all = p.remaining();
    let mut taken: Vec<P::Item> = Vec::new();
    let mut short = false;
    while taken.len() < K && !short
        invariant
            p.wf(),
            taken@.len() <= K,
            taken@.len() <= all.len(),
            !short ==> taken@ == all.take(taken@.len() as int),
            !short ==> p.remaining() == all.skip(taken@.len() as int),
            short ==> all.len() < K && p.remaining().len() == 0,
        decreases K - taken@.len() + (if short { 0int } else { 1int }),
    {
        match p.next() {
            Some(x) => {
                taken.push(x);
                assert(taken@ =~= all.take(taken@.len() as int));
                assert(p.remaining() =~= all.skip(taken@.len() as int));
            },
            None => {
                short = true;
            },
        }
    }
    if short {
        None
    } else {
        match vec_into_array(taken) {
            Ok(a) => Some(a),
            Err(_) => None,
        }
    }
}

/// Collects `p` into an array when it holds exactly `K` elements, and returns
/// `None` when it holds fewer or more.
pub fn collect_array<P: Producer, const K: usize>(p: P) -> (r: Option<[P::Item; K]>)
    requires
        p.wf(),
    ensures
        match r {
            Some(a) => a@ == p.remaining(),
            None => p.remaining().len() != K,
        },
{
    let mut p = p;
    let ghost all = p.remaining();
    match next_array::<P, K>(&mut p) {
        None => None,
        Some(a) => match p.next() {
            None => {
                assert(all.take(K as int) =~= all);
                Some(a)
            },
            Some(_) => None,
        },
    }
}

} // verus!
