//! Consumers that drain a producer into a buffer.

use crate::producer::{BackProducer, Producer, SizedProducer};
use vstd::prelude::*;

verus! {

/// Pulls `p` until it is exhausted and returns what it yielded, in order.
pub fn collect<P: Producer>(p: P) -> (out: Vec<P::Item>)
    requires
        p.wf(),
    ensures
        out@ == p.remaining(),
{
    let mut p = p;
    let ghost all = p.remaining();
    let mut out: Vec<P::Item> = Vec::new();
    loop
        invariant
            p.wf(),
            out@ + p.remaining() == all,
        ensures
            out@ == all,
        decreases p.remaining().len(),
    {
        let ghost pending = p.remaining();
        match p.next() {
            None => {
                assert(out@ + pending =~= out@);
                break ;
            },
            Some(x) => {
                out.push(x);
                assert(out@ + p.remaining() =~= all);
            },
        }
    }
    out
}

/// Overwrites the leading elements of `dest` with the elements of `src`, in
/// order, until either runs out, and returns how many were written.
pub fn set_from<T, P: Producer<Item = T>>(dest: &mut [T], src: P) -> (count: usize)
    requires
        src.wf(),
    ensures
        count == if src.remaining().len() <= old(dest)@.len() {
            src.remaining().len()
        } else {
            old(dest)@.len()
        },
        final(dest)@ == src.remaining().take(count as int) + old(dest)@.skip(count as int),
{
    let mut src = src;
    let ghost all = src.remaining();
    let mut count: usize = 0;
    assert(dest@ =~= all.take(0) + old(dest)@.skip(0));
    while count < dest.len()
        invariant
            src.wf(),
            count <= dest@.len(),
            dest@.len() == old(dest)@.len(),
            count <= all.len(),
            src.remaining() == all.skip(count as int),
            dest@ == all.take(count as int) + old(dest)@.skip(count as int),
        ensures
            count == if all.len() <= old(dest)@.len() {
                all.len()
            } else {
                old(dest)@.len()
            },
            dest@ == all.take(count as int) + old(dest)@.skip(count as int),
        decreases dest@.len() - count,
    {
        match src.next() {
            None => {
                break ;
            },
            Some(x) => {
                dest[count] = x;
                count = count + 1;
                assert(src.remaining() =~= all.skip(count as int));
                assert(dest@ =~= all.take(count as int) + old(dest)@.skip(count as int));
            },
        }
    }
    count
}

/// Pulls and discards the first `n` elements of `p`, or all of them when
/// there are fewer, and returns `p`.
pub fn dropping<P: Producer>(p: P, n: usize) -> (r: P)
    requires
        p.wf(),
    ensures
        r.wf(),
        r.remaining() == if n <= p.remaining().len() {
            p.remaining().skip(n as int)
        } else {
            Seq::empty()
        },
{
    let mut p = p;
    let ghost all = p.remaining();
    let mut left = n;
    assert(all.skip(0) =~= all);
    while left > 0
        invariant
            p.wf(),
            left <= n,
            p.remaining() == if n - left <= all.len() {
                all.skip(n - left)
            } else {
                Seq::empty()
            },
        decreases left,
    {
        let ghost before = p.remaining();
        match p.next() {
            None => {
                left = 0;
                proof {
                    if n <= all.len() {
                        assert(all.skip(n as int) =~= Seq::<P::Item>::empty());
                    }
                }
            },
            Some(_) => {
                left = left - 1;
                assert(before.skip(1) =~= all.skip(n - left));
            },
        }
    }
    p
}

/// Drops elements from the back of `p` until `keep` are left.
pub fn truncate_back<P: BackProducer + SizedProducer>(p: &mut P, keep: usize)
    requires
        old(p).wf(),
        keep <= old(p).remaining().len(),
    ensures
        final(p).wf(),
        final(p).remaining() == old(p).remaining().take(keep as int),
{
    let mut n = p.len();
    assert(p.remaining().take(n as int) =~= p.remaining());
    while n > keep
        invariant
            p.wf(),
            keep <= n <= old(p).remaining().len(),
            p.remaining() == old(p).remaining().take(n as int),
        decreases n,
    {
        let _ = p.next_back();
        n = n - 1;
        assert(p.remaining() =~= old(p).remaining().take(n as int));
    }
}

/// Pulls `p` from the back until it is exhausted and returns what it
/// yielded, in pull order: the pending elements, last to first.
pub fn collect_back<P: BackProducer>(p: P) -> (out: Vec<P::Item>)
    requires
        p.wf(),
    ensures
        out@ == p.remaining().reverse(),
{
    let mut p = p;
    let ghost all = p.remaining();
    let mut out: Vec<P::Item> = Vec::new();
    loop
        invariant
            p.wf(),
            p.remaining().len() + out@.len() == all.len(),
            p.remaining() == all.take(p.remaining().len() as int),
            out@ == all.skip(p.remaining().len() as int).reverse(),
        ensures
            out@ == all.reverse(),
        decreases p.remaining().len(),
    {
        match p.next_back() {
            None => {
                assert(all.skip(0) =~= all);
                break ;
            },
            Some(x) => {
                out.push(x);
                assert(p.remaining() =~= all.take(p.remaining().len() as int));
                assert(out@ =~= all.skip(p.remaining().len() as int).reverse());
            },
        }
    }
    out
}

} // verus!
