use vstd::prelude::*;
use vstd::slice::slice_subrange;

verus! {

/// The append-only log of producer tokens.
#[derive(Debug, Clone)]
pub struct NestingStack<N>(pub Vec<N>);

/// The first index of the log that a consumer scope sees.
#[derive(Debug, Clone, Copy)]
pub struct Cursor(pub usize);

impl<N> NestingStack<N> {
    /// The part of the log from `cursor` on; `None` where the cursor stands at or past the end.
    pub fn active(&self, cursor: Cursor) -> (r: Option<&[N]>)
        ensures
            cursor.0 < self.0@.len() ==> (r matches Some(s) && s@ == self.0@.subrange(
                cursor.0 as int,
                self.0@.len() as int,
            )),
            cursor.0 >= self.0@.len() ==> r is None,
    {
        if cursor.0 < self.0.len() {
            Some(slice_subrange(self.0.as_slice(), cursor.0, self.0.len()))
        } else {
            None
        }
    }
}

/// A log of producer tokens with a stack of cursors; the top cursor marks the part of the log
/// that the current consumer scope sees. There is always at least one cursor.
#[derive(Debug, Clone)]
pub struct Nesting<N> {
    all: NestingStack<N>,
    cursors: Vec<Cursor>,
}

impl<N> Nesting<N> {
    /// The producer log.
    pub closed spec fn log(&self) -> Seq<N> {
        self.all.0@
    }

    /// The cursor stack, bottom first.
    pub closed spec fn marks(&self) -> Seq<usize> {
        self.cursors@.map_values(|c: Cursor| c.0)
    }

    pub open spec fn wf(&self) -> bool {
        self.marks().len() > 0
    }

    /// An empty log with one cursor at its start.
    pub fn new() -> (r: Self)
        ensures
            r.log() == Seq::<N>::empty(),
            r.marks() == seq![0usize],
            r.wf(),
    {
        let r = Nesting { all: NestingStack(Vec::new()), cursors: vec![Cursor(0)] };
        assert(r.marks() =~= seq![0usize]);
        r
    }

    /// The part of the log that the top cursor sees; `None` where that part is empty.
    pub fn active(&self) -> (r: Option<&[N]>)
        requires
            self.wf(),
        ensures
            ({
                let c = self.marks().last() as int;
                &&& c < self.log().len() ==> (r matches Some(s) && s@ == self.log().subrange(
                    c,
                    self.log().len() as int,
                ))
                &&& c >= self.log().len() ==> r is None
            }),
    {
        let cursor = self.cursors[self.cursors.len() - 1];
        self.all.active(cursor)
    }

    /// Opens a consumer scope that sees only what is produced from now on.
    pub fn start_consumer(&mut self)
        ensures
            final(self).log() == old(self).log(),
            final(self).marks() == old(self).marks().push(old(self).log().len() as usize),
    {
        let c = Cursor(self.all.0.len());
        self.cursors.push(c);
        assert(self.marks() =~= old(self).marks().push(old(self).log().len() as usize));
    }

    /// Closes the innermost consumer scope; the outermost one is never closed.
    pub fn stop_consumer(&mut self)
        requires
            old(self).marks().len() > 1,
        ensures
            final(self).log() == old(self).log(),
            final(self).marks() == old(self).marks().drop_last(),
            final(self).wf(),
    {
        self.cursors.pop();
        assert(self.marks() =~= old(self).marks().drop_last());
    }

    /// Appends a producer token to the log.
    pub fn start_producer(&mut self, producer: N)
        ensures
            final(self).log() == old(self).log().push(producer),
            final(self).marks() == old(self).marks(),
    {
        self.all.0.push(producer);
    }

    /// Removes the last producer token from the log, if there is one.
    pub fn stop_producer(&mut self)
        ensures
            old(self).log().len() > 0 ==> final(self).log() == old(self).log().drop_last(),
            old(self).log().len() == 0 ==> final(self).log() == old(self).log(),
            final(self).marks() == old(self).marks(),
    {
        self.all.0.pop();
    }
}

impl<N> Default for Nesting<N> {
    fn default() -> (r: Self)
        ensures
            r.log() == Seq::<N>::empty(),
            r.marks() == seq![0usize],
    {
        Nesting::new()
    }
}

impl<N: Copy> Nesting<N> {
    /// An independent copy.
    pub fn duplicate(&self) -> (r: Self)
        ensures
            r.log() == self.log(),
            r.marks() == self.marks(),
    {
        let all = crate::connectioniterator::copy_items(&self.all.0);
        let cursors = crate::connectioniterator::copy_items(&self.cursors);
        let r = Nesting { all: NestingStack(all), cursors };
        assert(r.marks() =~= self.marks());
        r
    }
}

} // verus!
