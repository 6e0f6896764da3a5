//! A producer onto which values can be pushed back.

use crate::producer::Producer;
use vstd::prelude::*;

verus! {

/// A producer with a stack of values that were put back; they are handed out
/// again, last put back first, before the inner producer is pulled.
pub struct PutBack<P: Producer> {
    inner: P,
    stack: Vec<P::Item>,
}

impl<P: Producer> Producer for PutBack<P> {
    type Item = P::Item;

    closed spec fn wf(&self) -> bool {
        self.inner.wf()
    }

    closed spec fn remaining(&self) -> Seq<P::Item> {
        self.stack@.reverse() + self.inner.remaining()
    }

    /// The source is pulled only when nothing that was put back is left.
    fn next(&mut self) -> (r: Option<P::Item>)
        ensures
            old(self).put_back_values().len() > 0 ==> {
                &&& final(self).source() == old(self).source()
                &&& final(self).put_back_values() == old(self).put_back_values().drop_last()
            },
            old(self).put_back_values().len() == 0 ==> final(self).put_back_values().len() == 0,
    {
        match self.stack.pop() {
            Some(x) => {
                assert(self.remaining() =~= old(self).remaining().skip(1));
                Some(x)
            },
            None => {
                let r = self.inner.next();
                assert(old(self).remaining() =~= old(self).inner.remaining());
                assert(self.remaining() =~= self.inner.remaining());
                r
            },
        }
    }
}

impl<P: Producer> PutBack<P> {
    /// The producer that is pulled once nothing that was put back is left.
    pub closed spec fn source(&self) -> P {
        self.inner
    }

    /// The values that were put back and not pulled again yet, in the order
    /// in which they were put back.
    pub closed spec fn put_back_values(&self) -> Seq<P::Item> {
        self.stack@
    }

    /// What is pending are the values that were put back, last first, and
    /// then what is pending in the source.
    pub proof fn lemma_put_back_values_come_first(self)
        ensures
            self.remaining() == self.put_back_values().reverse() + self.source().remaining(),
    {
    }

    /// Puts `x` in front of everything that is pending. The source is not
    /// touched.
    pub fn put_back(&mut self, x: P::Item)
        requires
            old(self).wf(),
        ensures
            final(self).wf(),
            final(self).remaining() == seq![x] + old(self).remaining(),
            final(self).source() == old(self).source(),
            final(self).put_back_values() == old(self).put_back_values().push(x),
    {
        self.stack.push(x);
        assert(self.remaining() =~= seq![x] + old(self).remaining());
    }
}

/// Wraps `p` so that values can be put back onto it.
pub fn put_back<P: Producer>(p: P) -> (r: PutBack<P>)
    requires
        p.wf(),
    ensures
        r.wf(),
        r.remaining() == p.remaining(),
        r.source() == p,
        r.put_back_values().len() == 0,
{
    let r = PutBack { inner: p, stack: Vec::new() };
    assert(r.remaining() =~= p.remaining());
    r
}

} // verus!
