use vstd::prelude::*;

verus! {

/// A private copy of an iterator held elsewhere, made only when it is first read: until then the
/// shared source may still be unset. Each copy reads at its own pace.
#[derive(Debug, Clone)]
pub enum LazyIterClone<T> {
    Pending,
    Ready { items: Vec<T>, pos: usize },
}

impl<T: Copy> LazyIterClone<T> {
    /// The items not yet handed out, once the copy has been made.
    pub open spec fn remaining(&self) -> Seq<T> {
        match self {
            LazyIterClone::Pending => Seq::empty(),
            LazyIterClone::Ready { items, pos } => items@.subrange(*pos as int, items@.len() as int),
        }
    }

    pub open spec fn wf(&self) -> bool {
        match self {
            LazyIterClone::Pending => true,
            LazyIterClone::Ready { items, pos } => *pos <= items@.len(),
        }
    }

    /// A copy not made yet.
    pub fn new() -> (r: Self)
        ensures
            r is Pending,
    {
        LazyIterClone::Pending
    }

    /// Hands out the next item; on the first call, copies `source` first, which must be set by
    /// then.
    pub fn next(&mut self, source: &Option<Vec<T>>) -> (r: Option<T>)
        requires
            old(self).wf(),
            *old(self) is Pending ==> source is Some,
        ensures
            final(self).wf(),
            *final(self) is Ready,
            ({
                let rem = if *old(self) is Pending {
                    source->Some_0@
                } else {
                    old(self).remaining()
                };
                &&& rem.len() == 0 ==> r is None && final(self).remaining().len() == 0
                &&& rem.len() > 0 ==> r == Some(rem[0]) && final(self).remaining() == rem.drop_first()
            }),
    {
        if let LazyIterClone::Pending = self {
            let src = match source {
                Some(v) => v,
                None => {
                    proof {
                        assert(false);
                    }
                    return None;
                },
            };
            let items = crate::connectioniterator::copy_items(src);
            *self = LazyIterClone::Ready { items, pos: 0 };
            assert(self.remaining() =~= src@);
        }
        match self {
            LazyIterClone::Ready { items, pos } => {
                if *pos < items.len() {
                    let x = items[*pos];
                    *pos = *pos + 1;
                    assert(items@.subrange(*pos as int, items@.len() as int) =~= items@.subrange(
                        *pos - 1,
                        items@.len() as int,
                    ).drop_first());
                    Some(x)
                } else {
                    None
                }
            },
            LazyIterClone::Pending => None,
        }
    }
}

/// Applies `f` to every item of `it`, in order.
pub fn map<A: Copy, B, F: Fn(A) -> B>(it: &Vec<A>, f: F) -> (r: Vec<B>)
    requires
        forall|a: A| f.requires((a,)),
    ensures
        r@.len() == it@.len(),
        forall|i: int| 0 <= i < it@.len() ==> f.ensures((it@[i],), #[trigger] r@[i]),
{
    let mut r: Vec<B> = Vec::new();
    let mut i: usize = 0;
    while i < it.len()
        invariant
            forall|a: A| f.requires((a,)),
            i <= it@.len(),
            r@.len() == i,
            forall|j: int| 0 <= j < i ==> f.ensures((it@[j],), #[trigger] r@[j]),
        decreases it@.len() - i,
    {
        let b = f(it[i]);
        r.push(b);
        i += 1;
    }
    r
}

/// Drains the level stream `it`, applies `f` to every item in order, and finishes the stream:
/// returns the mapped items and the nesting that the stream hands on.
pub fn pmap<A: Copy, B, N: Copy, F: Fn(A) -> B>(
    it: crate::connectioniterator::chainclone::ChainClone<A, N>,
    f: F,
) -> (r: (Vec<B>, crate::connectioniterator::nesting::Nesting<N>))
    requires
        it.wf(),
        forall|a: A| f.requires((a,)),
    ensures
        r.0@.len() == it.remaining().len(),
        forall|i: int| 0 <= i < it.remaining().len() ==> f.ensures((it.remaining()[i],), #[trigger] r.0@[i]),
        r.1.log() == it.pending_log(),
        r.1.marks() == it.pending_marks(),
{
    let mut it = it;
    let items = it.collect();
    let mapped = map(&items, f);
    (mapped, it.finish())
}

} // verus!
