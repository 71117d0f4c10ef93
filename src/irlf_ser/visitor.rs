use vstd::prelude::*;

use crate::irlf_ser::ir::{BinaryCtor, Connection, Ctor, CtorCall, LibCtor, Program, StructlikeCtor};
use crate::lf_types::{CtorId, InstId};

verus! {

/// A walk over a program. Each method may be overridden; by default the walk goes down into the
/// children and does nothing else. `inv` is what an implementor keeps true along the walk.
pub trait Visitor: Sized {
    spec fn inv(&self) -> bool;

    fn program(&mut self, p: &Program)
        requires
            old(self).inv(),
            p.wf(),
        ensures
            final(self).inv(),
    {
        self.children_program(p);
    }

    fn binary_ctor(&mut self, _id: CtorId, _ctor: &BinaryCtor)
        requires
            old(self).inv(),
        ensures
            final(self).inv(),
    {
    }

    fn structlike_ctor(&mut self, id: CtorId, sctor: &StructlikeCtor)
        requires
            old(self).inv(),
            sctor.wf(),
        ensures
            final(self).inv(),
    {
        self.children_structlike_ctor(id, sctor);
    }

    fn lib_ctor(&mut self, _id: CtorId, _ctor: &LibCtor)
        requires
            old(self).inv(),
        ensures
            final(self).inv(),
    {
    }

    fn main(&mut self, _id: CtorId)
        requires
            old(self).inv(),
        ensures
            final(self).inv(),
    {
    }

    fn instid_sym(&mut self, _id: InstId, _sym: &String)
        requires
            old(self).inv(),
        ensures
            final(self).inv(),
    {
    }

    fn ctorid_sym(&mut self, _ctorid: CtorId, _sym: &String)
        requires
            old(self).inv(),
        ensures
            final(self).inv(),
    {
    }

    fn inst(&mut self, _parent: &StructlikeCtor, _id: InstId, _inst: &CtorCall)
        requires
            old(self).inv(),
        ensures
            final(self).inv(),
    {
    }

    fn connection(&mut self, _parent: &StructlikeCtor, _connection: &Connection)
        requires
            old(self).inv(),
        ensures
            final(self).inv(),
    {
    }

    /// Visits the names, then the constructors in id order, then the main constructor.
    fn children_program(&mut self, p: &Program)
        requires
            old(self).inv(),
            p.wf(),
        ensures
            final(self).inv(),
    {
        let mut i: usize = 0;
        while i < p.ctorid2sym.len()
            invariant
                self.inv(),
                p.wf(),
            decreases p.ctorid2sym.entries_view().len() - i,
        {
            let (id, sym) = p.ctorid2sym.entry(i);
            self.ctorid_sym(CtorId(id), sym);
            i += 1;
        }
        let mut j: usize = 0;
        while j < p.ctors.len()
            invariant
                self.inv(),
                p.wf(),
            decreases p.ctors.entries_view().len() - j,
        {
            let (id, ctor) = p.ctors.entry(j);
            proof {
                assert(p.ctors.entries_view()[j as int].1.wf());
            }
            match ctor {
                Ctor::BinaryCtor(b) => self.binary_ctor(CtorId(id), b),
                Ctor::StructlikeCtor(s) => self.structlike_ctor(CtorId(id), s),
                Ctor::LibCtor(l) => self.lib_ctor(CtorId(id), l),
            }
            j += 1;
        }
        self.main(p.main);
    }

    /// Visits the instance names, the instances, then the connections of a composite.
    fn children_structlike_ctor(&mut self, _id: CtorId, ctor: &StructlikeCtor)
        requires
            old(self).inv(),
            ctor.wf(),
        ensures
            final(self).inv(),
    {
        let mut i: usize = 0;
        while i < ctor.inst2sym.len()
            invariant
                self.inv(),
                ctor.wf(),
            decreases ctor.inst2sym.entries_view().len() - i,
        {
            let (id, sym) = ctor.inst2sym.entry(i);
            self.instid_sym(InstId(id), sym);
            i += 1;
        }
        let mut j: usize = 0;
        while j < ctor.insts.len()
            invariant
                self.inv(),
                ctor.wf(),
            decreases ctor.insts.entries_view().len() - j,
        {
            let (id, call) = ctor.insts.entry(j);
            self.inst(ctor, InstId(id), call);
            j += 1;
        }
        let mut k: usize = 0;
        while k < ctor.connections.len()
            invariant
                self.inv(),
            decreases ctor.connections@.len() - k,
        {
            self.connection(ctor, &ctor.connections[k]);
            k += 1;
        }
    }
}

} // verus!
