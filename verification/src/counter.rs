use vstd::prelude::*;

verus! {

/// Whether `it` follows the iterator laws that vstd states for `next`.
pub open spec fn obeys_iter_laws<I: Iterator>(it: I) -> bool {
    <I as vstd::std_specs::iter::IteratorSpec>::obeys_prophetic_iter_laws(&it)
}

/// Wraps an iterator and counts how many items it has handed out.
pub struct IteratorCounter<I: Iterator> {
    iter: I,
    count: usize,
}

impl<I: Iterator> IteratorCounter<I> {
    /// The wrapped iterator.
    pub closed spec fn inner(&self) -> I {
        self.iter
    }

    /// How many items have been handed out so far.
    pub closed spec fn count(&self) -> nat {
        self.count as nat
    }

    /// Starts counting at zero.
    pub fn new(iter: I) -> (res: Self)
        ensures
            res.inner() == iter,
            res.count() == 0,
    {
        IteratorCounter { iter, count: 0 }
    }

    /// The number of items handed out so far.
    pub fn steps_taken(&self) -> (res: usize)
        ensures
            res == self.count(),
    {
        self.count
    }

    /// Takes the next item of the wrapped iterator and counts it if there is one.
    pub fn next(&mut self) -> (res: Option<I::Item>)
        requires
            old(self).count() < usize::MAX || (obeys_iter_laws(old(self).inner())
                && <I as vstd::std_specs::iter::IteratorSpec>::remaining(&old(self).inner()).len() == 0),
        ensures
            final(self).count() == old(self).count() + (if res is Some { 1int } else { 0int }),
            obeys_iter_laws(old(self).inner()) ==> {
                &&& obeys_iter_laws(final(self).inner())
                &&& if <I as vstd::std_specs::iter::IteratorSpec>::remaining(&old(self).inner()).len() > 0 {
                    &&& res == Some(<I as vstd::std_specs::iter::IteratorSpec>::remaining(&old(self).inner())[0])
                    &&& <I as vstd::std_specs::iter::IteratorSpec>::remaining(&final(self).inner()) == <I as vstd::std_specs::iter::IteratorSpec>::remaining(&old(self).inner()).drop_first()
                } else {
                    &&& res is None
                    &&& <I as vstd::std_specs::iter::IteratorSpec>::remaining(&final(self).inner()) == <I as vstd::std_specs::iter::IteratorSpec>::remaining(&old(self).inner())
                }
            },
    {
        let r = self.iter.next();
        if r.is_some() {
            self.count = self.count + 1;
        }
        r
    }
}

} // verus!
