//! Extraction of the single element of a sequence, with the sequence handed
//! back untouched when it has some other number of elements.

use crate::producer::Producer;
use std::collections::VecDeque;
use vstd::prelude::*;

verus! {

/// The failure of a singleton extraction: a producer that replays the
/// elements that were pulled while counting and then continues with the rest
/// of the source, so that nothing the source held is lost.
pub struct ExactlyOneError<P: Producer> {
    observed: VecDeque<P::Item>,
    rest: P,
}

impl<P: Producer> Producer for ExactlyOneError<P> {
    type Item = P::Item;

    closed spec fn wf(&self) -> bool {
        self.rest.wf()
    }

    closed spec fn remaining(&self) -> Seq<P::Item> {
        self.observed@ + self.rest.remaining()
    }

    fn next(&mut self) -> (r: Option<P::Item>) {
        match self.observed.pop_front() {
            Some(x) => {
                assert(self.remaining() =~= old(self).remaining().skip(1));
                Some(x)
            },
            None => {
                let r = self.rest.next();
                assert(old(self).remaining() =~= old(self).rest.remaining());
                assert(self.remaining() =~= self.rest.remaining());
                r
            },
        }
    }
}

/// Returns the only element of `p`. When `p` holds no element, or two or more,
/// the error replays everything `p` held.
pub fn exactly_one<P: Producer>(p: P) -> (r: Result<P::Item, ExactlyOneError<P>>)
    requires
        p.wf(),
    ensures
        match r {
            Ok(x) => p.remaining().len() == 1 && p.remaining()[0] == x,
            Err(e) => p.remaining().len() != 1 && e.wf() && e.remaining() == p.remaining(),
        },
{
    let mut p = p;
    let ghost all = p.remaining();
    let mut observed: VecDeque<P::Item> = VecDeque::new();
    match p.next() {
        None => {
            assert(observed@ + p.remaining() =~= all);
            Err(ExactlyOneError { observed, rest: p })
        },
        Some(first) => match p.next() {
            None => Ok(first),
            Some(second) => {
                observed.push_back(first);
                observed.push_back(second);
                assert(observed@ + p.remaining() =~= all);
                Err(ExactlyOneError { observed, rest: p })
            },
        },
    }
}

/// Returns the only element of `p`, or `None` when `p` holds no element.
/// When `p` holds two or more, the error replays everything `p` held.
pub fn at_most_one<P: Producer>(p: P) -> (r: Result<Option<P::Item>, ExactlyOneError<P>>)
    requires
        p.wf(),
    ensures
        match r {
            Ok(None) => p.remaining().len() == 0,
            Ok(Some(x)) => p.remaining().len() == 1 && p.remaining()[0] == x,
            Err(e) => p.remaining().len() >= 2 && e.wf() && e.remaining() == p.remaining(),
        },
{
    let mut p = p;
    let ghost all = p.remaining();
    match p.next() {
        None => Ok(None),
        Some(first) => match p.next() {
            None => Ok(Some(first)),
            Some(second) => {
                let mut observed: VecDeque<P::Item> = VecDeque::new();
                observed.push_back(first);
                observed.push_back(second);
                assert(observed@ + p.remaining() =~= all);
                Err(ExactlyOneError { observed, rest: p })
            },
        },
    }
}

} // verus!
