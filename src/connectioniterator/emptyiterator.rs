use vstd::prelude::*;

use crate::connectioniterator::nesting::Nesting;
use crate::connectioniterator::{ConnectionIterator, ProvidingConnectionIterator};

verus! {

/// An iterator with no items that hands its nesting on unchanged.
#[derive(Debug, Clone)]
pub struct EmptyIterator<N> {
    nesting: Nesting<N>,
}

impl<N> EmptyIterator<N> {
    /// An empty iterator over `nesting`.
    pub fn new_dyn(nesting: Nesting<N>) -> (r: Self)
        ensures
            r.nesting_of() == nesting,
            r.finished_log() == nesting.log(),
            r.finished_marks() == nesting.marks(),
    {
        EmptyIterator { nesting }
    }

    /// Hands out nothing.
    pub fn next<T>(&mut self) -> (r: Option<T>)
        ensures
            r is None,
            *final(self) == *old(self),
    {
        None
    }
}

impl<N: Copy> EmptyIterator<N> {
    /// An independent copy.
    pub fn duplicate(&self) -> (r: Self)
        ensures
            r.finished_log() == self.finished_log(),
            r.finished_marks() == self.finished_marks(),
    {
        EmptyIterator { nesting: self.nesting.duplicate() }
    }
}

impl<N> ConnectionIterator<N> for EmptyIterator<N> {
    closed spec fn nesting_of(&self) -> Nesting<N> {
        self.nesting
    }

    fn current_nesting(&self) -> (r: &Nesting<N>) {
        &self.nesting
    }
}

impl<N> ProvidingConnectionIterator<N> for EmptyIterator<N> {
    closed spec fn finished_log(&self) -> Seq<N> {
        self.nesting.log()
    }

    closed spec fn finished_marks(&self) -> Seq<usize> {
        self.nesting.marks()
    }

    fn finish(self) -> (r: Nesting<N>) {
        self.nesting
    }
}

} // verus!
