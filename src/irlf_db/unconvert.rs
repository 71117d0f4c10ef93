use vstd::prelude::*;

use crate::irlf_db::ir::{Connection, Ctor, Id2Sym, Inst, InstRef, Program};
use crate::irlf_ser::idmap::IdMap;
use crate::lf_types::{Comm, CtorId, IfaceNode, InstId};

verus! {

impl Ctor {
    /// The id of the constructor.
    pub fn id(&self) -> (r: CtorId)
        ensures
            r == match self {
                Ctor::StructlikeCtor(s) => s.id,
                Ctor::BinaryCtor(b) => b.id,
                Ctor::LibCtor(l) => l.id,
            },
    {
        match self {
            Ctor::StructlikeCtor(s) => s.id,
            Ctor::BinaryCtor(b) => b.id,
            Ctor::LibCtor(l) => l.id,
        }
    }
}

/// The constructor call of an instance: the id of its constructor.
fn unconvert_inst(program: &Program, inst: &Inst) -> (r: crate::irlf_ser::ir::CtorCall)
    requires
        inst.ctor < program.ctors@.len(),
{
    crate::irlf_ser::ir::CtorCall { ctor: program.ctors[inst.ctor].id() }
}

/// The ids along a path.
fn unconvert_instref(iref: &InstRef) -> (r: crate::irlf_ser::ir::InstRef)
    ensures
        r.0@ == crate::irlf_db::ir::ids_of(iref.iref@),
{
    let mut ids: Vec<InstId> = Vec::new();
    let mut i: usize = 0;
    while i < iref.iref.len()
        invariant
            i <= iref.iref@.len(),
            ids@ == crate::irlf_db::ir::ids_of(iref.iref@).subrange(0, i as int),
        decreases iref.iref@.len() - i,
    {
        ids.push(iref.iref[i].id);
        i += 1;
        assert(ids@ =~= crate::irlf_db::ir::ids_of(iref.iref@).subrange(0, i as int));
    }
    assert(crate::irlf_db::ir::ids_of(iref.iref@).subrange(0, iref.iref@.len() as int)
        =~= crate::irlf_db::ir::ids_of(iref.iref@));
    crate::irlf_ser::ir::InstRef(ids)
}

/// A connection with its paths written as ids.
fn unconvert_connection(c: &Connection) -> (r: crate::irlf_ser::ir::Connection)
    ensures
        r.id == c.id,
        r.left.0@ == crate::irlf_db::ir::ids_of(c.left.iref@),
        r.right.0@ == crate::irlf_db::ir::ids_of(c.right.iref@),
{
    crate::irlf_ser::ir::Connection {
        id: c.id,
        left: unconvert_instref(&c.left),
        right: unconvert_instref(&c.right),
    }
}

/// A constructor with its references written as ids again; of the instance names, those of its
/// own instances.
fn unconvert_ctor(program: &Program, ctor: &Ctor, id2sym: &Id2Sym) -> (r: crate::irlf_ser::ir::Ctor)
    requires
        program.wf(),
        id2sym.inst2sym.wf(),
        match ctor {
            Ctor::StructlikeCtor(s) => s.refs_within(program.ctors@.len() as int),
            _ => true,
        },
    ensures
        r.wf(),
{
    match ctor {
        Ctor::StructlikeCtor(sctor) => {
            let mut inst2sym: IdMap<String> = IdMap::new();
            let mut insts: IdMap<crate::irlf_ser::ir::CtorCall> = IdMap::new();
            let mut i: usize = 0;
            while i < sctor.insts.len()
                invariant
                    program.wf(),
                    id2sym.inst2sym.wf(),
                    sctor.refs_within(program.ctors@.len() as int),
                    inst2sym.wf(),
                    insts.wf(),
                decreases sctor.insts@.len() - i,
            {
                let inst = &sctor.insts[i];
                if let Some(sym) = id2sym.inst2sym.get(inst.id.0) {
                    inst2sym.insert(inst.id.0, sym.clone());
                }
                insts.insert(inst.id.0, unconvert_inst(program, inst));
                i += 1;
            }
            let mut iface: Vec<IfaceNode<crate::irlf_ser::ir::InstRef>> = Vec::new();
            let mut j: usize = 0;
            while j < sctor.iface.len()
                decreases sctor.iface@.len() - j,
            {
                let node = &sctor.iface[j];
                let comm = match &node.1 {
                    Comm::Notify => Comm::Notify,
                    Comm::Data(r) => Comm::Data(unconvert_instref(r)),
                };
                iface.push(IfaceNode(node.0, comm));
                j += 1;
            }
            let mut connections: Vec<crate::irlf_ser::ir::Connection> = Vec::new();
            let mut k: usize = 0;
            while k < sctor.connections.len()
                decreases sctor.connections@.len() - k,
            {
                connections.push(unconvert_connection(&sctor.connections[k]));
                k += 1;
            }
            crate::irlf_ser::ir::Ctor::StructlikeCtor(
                crate::irlf_ser::ir::StructlikeCtor { inst2sym, insts, iface, connections },
            )
        },
        Ctor::BinaryCtor(b) => crate::irlf_ser::ir::Ctor::BinaryCtor(
            crate::irlf_ser::ir::BinaryCtor { path: b.path.clone() },
        ),
        Ctor::LibCtor(l) => crate::irlf_ser::ir::Ctor::LibCtor(
            crate::irlf_ser::ir::LibCtor { name: l.name.clone() },
        ),
    }
}

/// Every constructor of the program, under its id.
fn unconvert_ctors(program: &Program, id2sym: &Id2Sym) -> (r: IdMap<crate::irlf_ser::ir::Ctor>)
    requires
        program.wf(),
        id2sym.inst2sym.wf(),
    ensures
        r.wf(),
        forall|i: int| 0 <= i < r.entries_view().len() ==> (#[trigger] r.entries_view()[i]).1.wf(),
{
    let mut acc: IdMap<crate::irlf_ser::ir::Ctor> = IdMap::new();
    let mut i: usize = 0;
    while i < program.ctors.len()
        invariant
            program.wf(),
            id2sym.inst2sym.wf(),
            acc.wf(),
            forall|j: int| 0 <= j < acc.entries_view().len() ==> (#[trigger] acc.entries_view()[j]).1.wf(),
        decreases program.ctors@.len() - i,
    {
        let ctor = &program.ctors[i];
        let c = unconvert_ctor(program, ctor, id2sym);
        let ghost before = acc.view_map();
        let ghost prev = acc;
        let id = ctor.id();
        acc.insert(id.0, c);
        proof {
            assert forall|j: int|
                0 <= j < acc.entries_view().len() implies (#[trigger] acc.entries_view()[j]).1.wf() by {
                let k = acc.entries_view()[j].0;
                crate::irlf_ser::idmap::lemma_value_at(acc, j);
                if k != id.0 {
                    assert(before.contains_key(k));
                    let j0 = choose|j0: int|
                        0 <= j0 < prev.entries_view().len() && prev.entries_view()[j0].0 == k;
                    crate::irlf_ser::idmap::lemma_value_at(prev, j0);
                    assert(prev.entries_view()[j0].1.wf());
                }
            }
        }
        i += 1;
    }
    acc
}

/// The program with its references written as ids again, in the form it was read in.
pub fn unconvert(program: &Program, id2sym: &Id2Sym) -> (r: crate::irlf_ser::ir::Program)
    requires
        program.wf(),
        id2sym.inst2sym.wf(),
        id2sym.ctor2sym.wf(),
    ensures
        r.wf(),
{
    let mut ctorid2sym: IdMap<String> = IdMap::new();
    let mut i: usize = 0;
    while i < id2sym.ctor2sym.len()
        invariant
            id2sym.ctor2sym.wf(),
            ctorid2sym.wf(),
        decreases id2sym.ctor2sym.entries_view().len() - i,
    {
        let (k, v) = id2sym.ctor2sym.entry(i);
        ctorid2sym.insert(k, v.clone());
        i += 1;
    }
    crate::irlf_ser::ir::Program {
        ctorid2sym,
        ctors: unconvert_ctors(program, id2sym),
        main: program.ctors[program.main].id(),
    }
}

} // verus!
