pub mod chainclone;

pub mod emptyiterator;
pub mod nesting;

use vstd::prelude::*;

use crate::connectioniterator::nesting::Nesting;

verus! {

/// An iterator that records, in a `Nesting`, the producers of the items it hands out.
pub trait ConnectionIterator<N>: Sized {
    /// The nesting as it stands after the latest item, or the initial one before any item.
    spec fn nesting_of(&self) -> Nesting<N>;

    fn current_nesting(&self) -> (r: &Nesting<N>)
        ensures
            *r == self.nesting_of(),
    ;
}

/// A connection iterator that, once done, hands its nesting on to whatever comes next.
pub trait ProvidingConnectionIterator<N>: ConnectionIterator<N> {
    /// The producer log of the nesting that `finish` hands on.
    spec fn finished_log(&self) -> Seq<N>;

    /// The cursor stack of the nesting that `finish` hands on.
    spec fn finished_marks(&self) -> Seq<usize>;

    /// Ends the iteration and returns the resulting nesting.
    fn finish(self) -> (r: Nesting<N>)
        ensures
            r.log() == self.finished_log(),
            r.marks() == self.finished_marks(),
    ;
}

/// Copies the items of `v`.
pub fn copy_items<T: Copy>(v: &Vec<T>) -> (r: Vec<T>)
    ensures
        r@ == v@,
{
    let mut r: Vec<T> = Vec::new();
    let mut i: usize = 0;
    while i < v.len()
        invariant
            i <= v@.len(),
            r@ == v@.subrange(0, i as int),
        decreases v@.len() - i,
    {
        r.push(v[i]);
        i += 1;
        assert(r@ =~= v@.subrange(0, i as int));
    }
    assert(v@.subrange(0, v@.len() as int) =~= v@);
    r
}

/// An iterator over the items of a vector, produced under one producer token.
#[derive(Debug, Clone)]
pub struct VecIterator<T, N> {
    v: Vec<T>,
    pos: usize,
    nesting: Nesting<N>,
}

impl<T: Copy, N> VecIterator<T, N> {
    /// The items not yet handed out.
    pub closed spec fn remaining(&self) -> Seq<T> {
        self.v@.subrange(self.pos as int, self.v@.len() as int)
    }

    pub closed spec fn wf(&self) -> bool {
        self.pos <= self.v@.len()
    }

    /// Hands out the next item.
    pub fn next(&mut self) -> (r: Option<T>)
        requires
            old(self).wf(),
        ensures
            final(self).wf(),
            old(self).remaining().len() == 0 ==> r is None && final(self).remaining().len() == 0,
            old(self).remaining().len() > 0 ==> r == Some(old(self).remaining()[0])
                && final(self).remaining() == old(self).remaining().drop_first(),
            final(self).nesting_of() == old(self).nesting_of(),
            final(self).finished_log() == old(self).finished_log(),
            final(self).finished_marks() == old(self).finished_marks(),
    {
        if self.pos < self.v.len() {
            let x = self.v[self.pos];
            self.pos = self.pos + 1;
            assert(self.remaining() =~= old(self).remaining().drop_first());
            Some(x)
        } else {
            None
        }
    }
}

impl<T: Copy, N: Copy> VecIterator<T, N> {
    /// An independent copy that goes on from the same point.
    pub fn duplicate(&self) -> (r: Self)
        requires
            self.wf(),
        ensures
            r.wf(),
            r.remaining() == self.remaining(),
            r.finished_log() == self.finished_log(),
            r.finished_marks() == self.finished_marks(),
    {
        VecIterator { v: copy_items(&self.v), pos: self.pos, nesting: self.nesting.duplicate() }
    }
}

impl<T, N> ConnectionIterator<N> for VecIterator<T, N> {
    closed spec fn nesting_of(&self) -> Nesting<N> {
        self.nesting
    }

    fn current_nesting(&self) -> (r: &Nesting<N>) {
        &self.nesting
    }
}

/// The producer log `log` without its last token, if it has one.
pub open spec fn drop_producer<N>(log: Seq<N>) -> Seq<N> {
    if log.len() > 0 {
        log.drop_last()
    } else {
        log
    }
}

impl<T, N> ProvidingConnectionIterator<N> for VecIterator<T, N> {
    closed spec fn finished_log(&self) -> Seq<N> {
        drop_producer(self.nesting.log())
    }

    closed spec fn finished_marks(&self) -> Seq<usize> {
        self.nesting.marks()
    }

    fn finish(self) -> (r: Nesting<N>) {
        let mut nesting = self.nesting;
        nesting.stop_producer();
        nesting
    }
}

/// Starts producing `v` under the token `iface`, on top of `nesting`.
pub fn iterator_new<T: Copy, N>(nesting: Nesting<N>, iface: N, v: Vec<T>) -> (r: VecIterator<T, N>)
    ensures
        r.wf(),
        r.remaining() == v@,
        r.nesting_of().log() == nesting.log().push(iface),
        r.nesting_of().marks() == nesting.marks(),
        r.finished_log() == nesting.log(),
        r.finished_marks() == nesting.marks(),
{
    let ghost old_log = nesting.log();
    let mut nesting = nesting;
    nesting.start_producer(iface);
    let r = VecIterator { v, pos: 0, nesting };
    assert(r.remaining() =~= v@);
    assert(r.nesting.log().drop_last() =~= old_log);
    r
}

} // verus!
