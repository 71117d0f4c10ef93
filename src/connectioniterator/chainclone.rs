use vstd::prelude::*;

use crate::connectioniterator::emptyiterator::EmptyIterator;
use crate::connectioniterator::nesting::Nesting;
use crate::connectioniterator::{
    copy_items, iterator_new, ConnectionIterator, ProvidingConnectionIterator, VecIterator,
};

verus! {

/// A recipe for a sub-iterator: the producer token it works under and the items it yields.
#[derive(Debug, Clone)]
pub struct IteratorGiver<T, N> {
    pub iface: N,
    pub items: Vec<T>,
}

impl<T: Copy, N: Copy> IteratorGiver<T, N> {
    /// Starts the sub-iterator on top of `nesting`.
    pub fn give(&self, nesting: Nesting<N>) -> (r: VecIterator<T, N>)
        ensures
            r.finished_log() == nesting.log(),
            r.finished_marks() == nesting.marks(),
            r.wf(),
            r.remaining() == self.items@,
            r.nesting_of().log() == nesting.log().push(self.iface),
            r.nesting_of().marks() == nesting.marks(),
    {
        iterator_new(nesting, self.iface, copy_items(&self.items))
    }
}

/// Two lists of givers with the same items, giver by giver.
pub open spec fn same_items<T, N>(a: Seq<IteratorGiver<T, N>>, b: Seq<IteratorGiver<T, N>>) -> bool {
    a.len() == b.len() && forall|i: int| 0 <= i < a.len() ==> (#[trigger] a[i]).items@ == b[i].items@
}

/// Givers with the same items yield the same concatenation.
pub proof fn lemma_flatten_same_items<T, N>(a: Seq<IteratorGiver<T, N>>, b: Seq<IteratorGiver<T, N>>)
    requires
        same_items(a, b),
    ensures
        flatten(a) == flatten(b),
    decreases a.len(),
{
    if a.len() > 0 {
        assert(same_items(a.drop_last(), b.drop_last()));
        lemma_flatten_same_items(a.drop_last(), b.drop_last());
        assert(a.last().items@ == b.last().items@);
    }
}

/// The items of the givers `gs`, in order.
pub open spec fn flatten<T, N>(gs: Seq<IteratorGiver<T, N>>) -> Seq<T>
    decreases gs.len(),
{
    if gs.len() == 0 {
        Seq::empty()
    } else {
        flatten(gs.drop_last()) + gs.last().items@
    }
}

/// The sub-iterator that a chain is draining.
#[derive(Debug, Clone)]
pub enum SubIterator<T, N> {
    Empty(EmptyIterator<N>),
    Items(VecIterator<T, N>),
}

impl<T: Copy, N: Copy> SubIterator<T, N> {
    pub open spec fn remaining(&self) -> Seq<T> {
        match self {
            SubIterator::Empty(_) => Seq::empty(),
            SubIterator::Items(it) => it.remaining(),
        }
    }

    pub open spec fn wf(&self) -> bool {
        match self {
            SubIterator::Empty(_) => true,
            SubIterator::Items(it) => it.wf(),
        }
    }

    /// An independent copy that goes on from the same point.
    pub fn duplicate(&self) -> (r: Self)
        requires
            self.wf(),
        ensures
            r.wf(),
            r.remaining() == self.remaining(),
            match (self, r) {
                (SubIterator::Empty(a), SubIterator::Empty(b)) => b.finished_log() == a.finished_log()
                    && b.finished_marks() == a.finished_marks(),
                (SubIterator::Items(a), SubIterator::Items(b)) => b.finished_log() == a.finished_log()
                    && b.finished_marks() == a.finished_marks(),
                _ => false,
            },
    {
        match self {
            SubIterator::Empty(e) => SubIterator::Empty(e.duplicate()),
            SubIterator::Items(it) => SubIterator::Items(it.duplicate()),
        }
    }

    /// Ends the sub-iterator and returns the nesting it hands on.
    pub fn finish(self) -> (r: Nesting<N>)
        ensures
            r.marks() == match self {
                SubIterator::Empty(e) => e.finished_marks(),
                SubIterator::Items(it) => it.finished_marks(),
            },
            r.log() == match self {
                SubIterator::Empty(e) => e.finished_log(),
                SubIterator::Items(it) => it.finished_log(),
            },
    {
        match self {
            SubIterator::Empty(e) => e.finish(),
            SubIterator::Items(it) => it.finish(),
        }
    }
}

/// Concatenates the sub-iterators of a list of givers, starting each one only when the one
/// before it is exhausted and handing it the nesting that the one before it finished with.
#[derive(Debug)]
pub struct ChainClone<T, N> {
    backing_iters: Vec<IteratorGiver<T, N>>,
    current: SubIterator<T, N>,
    pos: usize,
}

impl<T: Copy, N: Copy> ChainClone<T, N> {
    /// The items that are still to come.
    pub closed spec fn remaining(&self) -> Seq<T> {
        self.current.remaining() + flatten(
            self.backing_iters@.subrange(self.pos as int, self.backing_iters@.len() as int),
        )
    }

    /// The producer log of the nesting that the next giver will receive (or that the chain
    /// hands on once it is done).
    pub closed spec fn pending_log(&self) -> Seq<N> {
        match self.current {
            SubIterator::Empty(e) => e.finished_log(),
            SubIterator::Items(it) => it.finished_log(),
        }
    }

    /// The cursor stack of that nesting.
    pub closed spec fn pending_marks(&self) -> Seq<usize> {
        match self.current {
            SubIterator::Empty(e) => e.finished_marks(),
            SubIterator::Items(it) => it.finished_marks(),
        }
    }

    pub closed spec fn wf(&self) -> bool {
        &&& self.pos <= self.backing_iters@.len()
        &&& self.current.wf()
    }

    /// A chain over `backing_iters`, under the producer token `iface`.
    pub fn new(nesting: Nesting<N>, iface: N, backing_iters: Vec<IteratorGiver<T, N>>) -> (r: Self)
        ensures
            r.wf(),
            r.remaining() == flatten(backing_iters@),
            r.pending_log() == nesting.log().push(iface),
            r.pending_marks() == nesting.marks(),
    {
        let mut nesting = nesting;
        nesting.start_producer(iface);
        let r = ChainClone { backing_iters, current: SubIterator::Empty(EmptyIterator::new_dyn(nesting)), pos: 0 };
        assert(r.backing_iters@.subrange(0, r.backing_iters@.len() as int) =~= r.backing_iters@);
        r
    }

    /// Hands out the next item, moving on to later givers as earlier ones run dry.
    pub fn next(&mut self) -> (r: Option<T>)
        requires
            old(self).wf(),
        ensures
            final(self).wf(),
            old(self).remaining().len() == 0 ==> r is None && final(self).remaining().len() == 0,
            old(self).remaining().len() > 0 ==> r == Some(old(self).remaining()[0])
                && final(self).remaining() == old(self).remaining().drop_first(),
            final(self).pending_log() == old(self).pending_log(),
            final(self).pending_marks() == old(self).pending_marks(),
    {
        loop
            invariant
                self.wf(),
                self.remaining() == old(self).remaining(),
                self.pending_log() == old(self).pending_log(),
                self.pending_marks() == old(self).pending_marks(),
                self.backing_iters == old(self).backing_iters,
            decreases self.backing_iters@.len() - self.pos, self.current.remaining().len(),
        {
            let ghost before = self.remaining();
            if let SubIterator::Items(it) = &mut self.current {
                if let Some(x) = it.next() {
                    assert(self.remaining() =~= before.drop_first());
                    return Some(x);
                }
            }
            if self.pos < self.backing_iters.len() {
                let ghost rest = self.backing_iters@.subrange(
                    self.pos as int,
                    self.backing_iters@.len() as int,
                );
                let mut cur = SubIterator::Empty(EmptyIterator::new_dyn(Nesting::new()));
                core::mem::swap(&mut self.current, &mut cur);
                let nesting = cur.finish();
                let it = self.backing_iters[self.pos].give(nesting);
                self.current = SubIterator::Items(it);
                self.pos = self.pos + 1;
                proof {
                    lemma_flatten_front(rest);
                    assert(rest.drop_first() =~= self.backing_iters@.subrange(
                        self.pos as int,
                        self.backing_iters@.len() as int,
                    ));
                }
            } else {
                assert(self.backing_iters@.subrange(self.pos as int, self.backing_iters@.len() as int)
                    =~= Seq::<IteratorGiver<T, N>>::empty());
                return None;
            }
        }
    }

    /// An independent copy of the chain at this point, to be drained on its own: it yields what
    /// this one still yields, and hands on the same nesting.
    pub fn checkpoint(&self) -> (r: Self)
        requires
            self.wf(),
        ensures
            r.wf(),
            r.remaining() == self.remaining(),
            r.pending_log() == self.pending_log(),
            r.pending_marks() == self.pending_marks(),
    {
        let mut givers: Vec<IteratorGiver<T, N>> = Vec::new();
        let mut i: usize = 0;
        while i < self.backing_iters.len()
            invariant
                i <= self.backing_iters@.len(),
                same_items(givers@, self.backing_iters@.subrange(0, i as int)),
            decreases self.backing_iters@.len() - i,
        {
            let g = &self.backing_iters[i];
            givers.push(IteratorGiver { iface: g.iface, items: copy_items(&g.items) });
            i += 1;
        }
        assert(self.backing_iters@.subrange(0, i as int) =~= self.backing_iters@);
        let r = ChainClone { backing_iters: givers, current: self.current.duplicate(), pos: self.pos };
        proof {
            let n = self.backing_iters@.len() as int;
            assert(same_items(
                r.backing_iters@.subrange(self.pos as int, n),
                self.backing_iters@.subrange(self.pos as int, n),
            ));
            lemma_flatten_same_items(
                r.backing_iters@.subrange(self.pos as int, n),
                self.backing_iters@.subrange(self.pos as int, n),
            );
        }
        r
    }

    /// Ends the chain and returns the nesting that its last sub-iterator handed on: the nesting it
    /// was started with, with its producer token on top.
    pub fn finish(self) -> (r: Nesting<N>)
        ensures
            r.log() == self.pending_log(),
            r.marks() == self.pending_marks(),
    {
        self.current.finish()
    }

    /// Drains the chain and returns everything it yields, in order.
    pub fn collect(&mut self) -> (r: Vec<T>)
        requires
            old(self).wf(),
        ensures
            r@ == old(self).remaining(),
            final(self).wf(),
            final(self).remaining().len() == 0,
            final(self).pending_log() == old(self).pending_log(),
            final(self).pending_marks() == old(self).pending_marks(),
    {
        let mut r: Vec<T> = Vec::new();
        loop
            invariant
                self.pending_log() == old(self).pending_log(),
                self.pending_marks() == old(self).pending_marks(),
                self.wf(),
                r@ + self.remaining() == old(self).remaining(),
            decreases self.remaining().len(),
        {
            let ghost before = self.remaining();
            match self.next() {
                Some(x) => {
                    r.push(x);
                    assert(r@ + self.remaining() =~= old(self).remaining()) by {
                        assert(before =~= seq![x] + before.drop_first());
                    }
                },
                None => {
                    assert(r@ + self.remaining() =~= r@);
                    return r;
                },
            }
        }
    }
}

/// Taking the first giver off a list takes its items off the front of the concatenation.
pub proof fn lemma_flatten_front<T, N>(gs: Seq<IteratorGiver<T, N>>)
    requires
        gs.len() > 0,
    ensures
        flatten(gs) == gs[0].items@ + flatten(gs.drop_first()),
    decreases gs.len(),
{
    if gs.len() == 1 {
        assert(gs.drop_last() =~= Seq::<IteratorGiver<T, N>>::empty());
        assert(gs.drop_first() =~= Seq::<IteratorGiver<T, N>>::empty());
        assert(flatten(gs) =~= gs[0].items@ + flatten(gs.drop_first()));
    } else {
        lemma_flatten_front(gs.drop_last());
        assert(gs.drop_last().drop_first() =~= gs.drop_first().drop_last());
        assert(gs.drop_last()[0] == gs[0]);
        assert(gs.drop_first().last() == gs.last());
        assert(flatten(gs) =~= gs[0].items@ + flatten(gs.drop_first()));
    }
}

/// Concatenating chains: the items of two lists of givers, one after the other, are the items of
/// the joined list.
pub proof fn lemma_flatten_append<T, N>(a: Seq<IteratorGiver<T, N>>, b: Seq<IteratorGiver<T, N>>)
    ensures
        flatten(a + b) == flatten(a) + flatten(b),
    decreases b.len(),
{
    if b.len() == 0 {
        assert(a + b =~= a);
        assert(flatten(a) + flatten(b) =~= flatten(a));
    } else {
        lemma_flatten_append(a, b.drop_last());
        assert((a + b).drop_last() =~= a + b.drop_last());
        assert(flatten(a + b) =~= flatten(a) + flatten(b));
    }
}

/// A giver with no items contributes nothing, wherever it stands in the list.
pub proof fn lemma_flatten_skips_empty<T, N>(
    a: Seq<IteratorGiver<T, N>>,
    g: IteratorGiver<T, N>,
    b: Seq<IteratorGiver<T, N>>,
)
    requires
        g.items@.len() == 0,
    ensures
        flatten(a + seq![g] + b) == flatten(a + b),
{
    lemma_flatten_append(a + seq![g], b);
    lemma_flatten_append(a, seq![g]);
    lemma_flatten_append(a, b);
    assert(seq![g].drop_last() =~= Seq::<IteratorGiver<T, N>>::empty());
    assert(flatten(seq![g].drop_last()) =~= Seq::<T>::empty());
    assert(flatten(seq![g]) =~= Seq::<T>::empty());
    assert(flatten(a) + flatten(seq![g]) =~= flatten(a));
}

} // verus!
