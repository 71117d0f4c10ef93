use vstd::prelude::*;

use crate::irlf_db::ir::{
    iref_in_range, BinaryCtor, Connection, Ctor, Id2Sym, Inst, InstRef, LibCtor, Program,
    SourceProgram, StructlikeCtor,
};
use crate::irlf_ser::idmap::IdMap;
use crate::irlf_ser::visitor::Visitor;
use crate::lf_types::{Comm, CtorId, IfaceNode, InstId};

verus! {

/// Why a program read from text cannot be resolved.
#[derive(Debug, Clone, Copy, PartialEq, Eq, Structural)]
pub enum ConvertError {
    /// A constructor id that no constructor has.
    UnknownCtor(CtorId),
    /// An instance id that no composite declares.
    UnknownInst(InstId),
    /// An interface entry with an empty path.
    EmptyPath,
    /// A composite uses a constructor without a level model: an external binary, or a library
    /// primitive whose name is not known.
    NoLevelModel(CtorId),
}

/// Whether the constructor at index `c` has a level model.
fn has_level_model(p: &Program, c: usize) -> (r: bool)
    requires
        c < p.ctors@.len(),
    ensures
        r == p.has_level_model(c as int),
{
    match &p.ctors[c] {
        Ctor::StructlikeCtor(_) => true,
        Ctor::BinaryCtor(_) => false,
        Ctor::LibCtor(l) => !matches!(crate::get_rtor_impl::srtorimpl::lctor_of(&l.name), crate::get_rtor_impl::rtor::AnyIface::Opaque),
    }
}

/// Checks that every constructor a composite uses has a level model.
fn check_models(p: &Program) -> (r: Result<(), ConvertError>)
    requires
        p.refs_ok(),
    ensures
        r is Ok ==> p.models_ok(),
{
    let mut c: usize = 0;
    while c < p.ctors.len()
        invariant
            p.refs_ok(),
            c <= p.ctors@.len(),
            forall|c2: int|
                0 <= c2 < c ==> match #[trigger] p.ctors@[c2] {
                    Ctor::StructlikeCtor(s) => (forall|j: int|
                        0 <= j < s.insts@.len() ==> p.has_level_model(#[trigger] s.insts@[j].ctor as int))
                        && (forall|j: int|
                        0 <= j < s.iface@.len() ==> match #[trigger] s.iface@[j].1 {
                            Comm::Notify => true,
                            Comm::Data(r) => r.iref@.len() > 0 ==> p.has_level_model(
                                r.iref@[0].ctor as int,
                            ),
                        }),
                    _ => true,
                },
        decreases p.ctors@.len() - c,
    {
        if let Ctor::StructlikeCtor(s) = &p.ctors[c] {
            assert(s.refs_within(p.ctors@.len() as int));
            let mut j: usize = 0;
            while j < s.insts.len()
                invariant
                    p.refs_ok(),
                    s.refs_within(p.ctors@.len() as int),
                    j <= s.insts@.len(),
                    forall|j2: int| 0 <= j2 < j ==> p.has_level_model(#[trigger] s.insts@[j2].ctor as int),
                decreases s.insts@.len() - j,
            {
                let k = s.insts[j].ctor;
                if !has_level_model(p, k) {
                    return Err(ConvertError::NoLevelModel(p.ctors[k].id()));
                }
                j += 1;
            }
            let mut e: usize = 0;
            while e < s.iface.len()
                invariant
                    p.refs_ok(),
                    s.refs_within(p.ctors@.len() as int),
                    e <= s.iface@.len(),
                    forall|j2: int|
                        0 <= j2 < e ==> match #[trigger] s.iface@[j2].1 {
                            Comm::Notify => true,
                            Comm::Data(r) => r.iref@.len() > 0 ==> p.has_level_model(
                                r.iref@[0].ctor as int,
                            ),
                        },
                decreases s.iface@.len() - e,
            {
                if let Comm::Data(r) = &s.iface[e].1 {
                    if r.iref.len() > 0 {
                        let k = r.iref[0].ctor;
                        if !has_level_model(p, k) {
                            return Err(ConvertError::NoLevelModel(p.ctors[k].id()));
                        }
                    }
                }
                e += 1;
            }
        }
        c += 1;
    }
    Ok(())
}

/// The index of the constructor `id` in the table.
fn ctor_index(src: &crate::irlf_ser::ir::Program, id: CtorId) -> (r: Result<usize, ConvertError>)
    requires
        src.wf(),
    ensures
        r matches Ok(i) ==> i < src.ctors.entries_view().len(),
{
    match src.ctors.position(id.0) {
        Some(i) => Ok(i),
        None => Err(ConvertError::UnknownCtor(id)),
    }
}

/// The instance `id`, with the index of its constructor, from whichever composite declares it.
fn convert_ctorcall(src: &crate::irlf_ser::ir::Program, id: InstId) -> (r: Result<
    Inst,
    ConvertError,
>)
    requires
        src.wf(),
    ensures
        r matches Ok(inst) ==> inst.id == id && inst.ctor < src.ctors.entries_view().len(),
{
    let mut i: usize = 0;
    while i < src.ctors.len()
        invariant
            src.wf(),
        decreases src.ctors.entries_view().len() - i,
    {
        let (_, ctor) = src.ctors.entry(i);
        if let crate::irlf_ser::ir::Ctor::StructlikeCtor(s) = ctor {
            proof {
                assert(src.ctors.entries_view()[i as int].1.wf());
            }
            if let Some(call) = s.insts.get(id.0) {
                let c = ctor_index(src, call.ctor)?;
                return Ok(Inst { id, ctor: c });
            }
        }
        i += 1;
    }
    Err(ConvertError::UnknownInst(id))
}

/// Resolves every id of a path.
fn convert_instref(src: &crate::irlf_ser::ir::Program, iref: &crate::irlf_ser::ir::InstRef) -> (r:
    Result<InstRef, ConvertError>)
    requires
        src.wf(),
    ensures
        r matches Ok(v) ==> v.iref@.len() == iref.0@.len() && iref_in_range(
            v.iref@,
            src.ctors.entries_view().len() as int,
        ),
{
    let mut out: Vec<Inst> = Vec::new();
    let mut i: usize = 0;
    while i < iref.0.len()
        invariant
            src.wf(),
            i <= iref.0@.len(),
            out@.len() == i,
            iref_in_range(out@, src.ctors.entries_view().len() as int),
        decreases iref.0@.len() - i,
    {
        let inst = convert_ctorcall(src, iref.0[i])?;
        out.push(inst);
        i += 1;
    }
    Ok(InstRef { iref: out })
}

/// Resolves the interface entries of a composite.
fn convert_iface(src: &crate::irlf_ser::ir::Program, iface: &Vec<IfaceNode<crate::irlf_ser::ir::InstRef>>) -> (r:
    Result<Vec<IfaceNode<InstRef>>, ConvertError>)
    requires
        src.wf(),
    ensures
        r matches Ok(v) ==> forall|j: int|
            0 <= j < v@.len() ==> match #[trigger] v@[j].1 {
                Comm::Notify => true,
                Comm::Data(r) => r.iref@.len() > 0 && iref_in_range(
                    r.iref@,
                    src.ctors.entries_view().len() as int,
                ),
            },
{
    let mut out: Vec<IfaceNode<InstRef>> = Vec::new();
    let mut i: usize = 0;
    while i < iface.len()
        invariant
            src.wf(),
            i <= iface@.len(),
            forall|j: int|
                0 <= j < out@.len() ==> match #[trigger] out@[j].1 {
                    Comm::Notify => true,
                    Comm::Data(r) => r.iref@.len() > 0 && iref_in_range(
                        r.iref@,
                        src.ctors.entries_view().len() as int,
                    ),
                },
        decreases iface@.len() - i,
    {
        let node = &iface[i];
        let comm = match &node.1 {
            Comm::Notify => Comm::Notify,
            Comm::Data(r) => {
                if r.0.len() == 0 {
                    return Err(ConvertError::EmptyPath);
                }
                Comm::Data(convert_instref(src, r)?)
            },
        };
        out.push(IfaceNode(node.0, comm));
        i += 1;
    }
    Ok(out)
}

/// Resolves the connections of a composite.
fn convert_connections(src: &crate::irlf_ser::ir::Program, connections: &Vec<crate::irlf_ser::ir::Connection>) -> (r:
    Result<Vec<Connection>, ConvertError>)
    requires
        src.wf(),
    ensures
        r matches Ok(v) ==> forall|j: int|
            0 <= j < v@.len() ==> iref_in_range(
                #[trigger] v@[j].left.iref@,
                src.ctors.entries_view().len() as int,
            ) && iref_in_range(v@[j].right.iref@, src.ctors.entries_view().len() as int),
{
    let mut out: Vec<Connection> = Vec::new();
    let mut i: usize = 0;
    while i < connections.len()
        invariant
            src.wf(),
            i <= connections@.len(),
            forall|j: int|
                0 <= j < out@.len() ==> iref_in_range(
                    #[trigger] out@[j].left.iref@,
                    src.ctors.entries_view().len() as int,
                ) && iref_in_range(out@[j].right.iref@, src.ctors.entries_view().len() as int),
        decreases connections@.len() - i,
    {
        let c = &connections[i];
        let left = convert_instref(src, &c.left)?;
        let right = convert_instref(src, &c.right)?;
        out.push(Connection { id: c.id, left, right });
        i += 1;
    }
    Ok(out)
}

/// Resolves the instances of a composite.
fn convert_insts(src: &crate::irlf_ser::ir::Program, sctor: &crate::irlf_ser::ir::StructlikeCtor) -> (r:
    Result<Vec<Inst>, ConvertError>)
    requires
        src.wf(),
        sctor.wf(),
    ensures
        r matches Ok(v) ==> forall|j: int|
            0 <= j < v@.len() ==> #[trigger] v@[j].ctor < src.ctors.entries_view().len(),
{
    let mut out: Vec<Inst> = Vec::new();
    let mut i: usize = 0;
    while i < sctor.insts.len()
        invariant
            src.wf(),
            forall|j: int|
                0 <= j < out@.len() ==> #[trigger] out@[j].ctor < src.ctors.entries_view().len(),
        decreases sctor.insts.entries_view().len() - i,
    {
        let (id, call) = sctor.insts.entry(i);
        let c = ctor_index(src, call.ctor)?;
        out.push(Inst { id: InstId(id), ctor: c });
        i += 1;
    }
    Ok(out)
}

/// Resolves one constructor.
fn convert_ctor(src: &crate::irlf_ser::ir::Program, id: CtorId, ctor: &crate::irlf_ser::ir::Ctor) -> (r:
    Result<Ctor, ConvertError>)
    requires
        src.wf(),
        ctor.wf(),
    ensures
        r matches Ok(c) ==> match c {
            Ctor::StructlikeCtor(s) => s.refs_within(src.ctors.entries_view().len() as int),
            _ => true,
        },
{
    match ctor {
        crate::irlf_ser::ir::Ctor::StructlikeCtor(sctor) => {
            let insts = convert_insts(src, sctor)?;
            let iface = convert_iface(src, &sctor.iface)?;
            let connections = convert_connections(src, &sctor.connections)?;
            Ok(Ctor::StructlikeCtor(StructlikeCtor { id, insts, iface, connections }))
        },
        crate::irlf_ser::ir::Ctor::BinaryCtor(b) => Ok(
            Ctor::BinaryCtor(BinaryCtor { id, path: b.path.clone() }),
        ),
        crate::irlf_ser::ir::Ctor::LibCtor(l) => Ok(
            Ctor::LibCtor(LibCtor { id, name: l.name.clone() }),
        ),
    }
}

/// A walk that gathers the names of instances and constructors.
pub struct GetIds {
    pub inst2sym: IdMap<String>,
    pub ctor2sym: IdMap<String>,
}

impl Visitor for GetIds {
    open spec fn inv(&self) -> bool {
        self.inst2sym.wf() && self.ctor2sym.wf()
    }

    fn instid_sym(&mut self, id: InstId, sym: &String) {
        self.inst2sym.insert(id.0, sym.clone());
    }

    fn ctorid_sym(&mut self, ctorid: CtorId, sym: &String) {
        self.ctor2sym.insert(ctorid.0, sym.clone());
    }
}

impl GetIds {
    /// The names gathered.
    pub fn get(self) -> (r: Id2Sym)
        requires
            self.inv(),
        ensures
            r.inst2sym.wf() && r.ctor2sym.wf(),
    {
        Id2Sym { inst2sym: self.inst2sym, ctor2sym: self.ctor2sym }
    }
}

/// Resolves every reference of a program into an index of its constructor table, whose entries
/// come in the order of their ids; also gathers the symbolic names.
pub fn convert(source: &SourceProgram) -> (r: Result<(Program, Id2Sym), ConvertError>)
    requires
        source.source.wf(),
    ensures
        r matches Ok(p) ==> p.0.wf() && p.0.ctors@.len() == source.source.ctors.entries_view().len()
            && p.1.inst2sym.wf() && p.1.ctor2sym.wf(),
{
    let src = &source.source;
    let n = src.ctors.len();
    let mut ctors: Vec<Ctor> = Vec::new();
    let mut i: usize = 0;
    while i < n
        invariant
            src.wf(),
            n == src.ctors.entries_view().len(),
            i <= n,
            ctors@.len() == i,
            forall|c: int|
                0 <= c < ctors@.len() ==> match #[trigger] ctors@[c] {
                    Ctor::StructlikeCtor(s) => s.refs_within(n as int),
                    _ => true,
                },
        decreases n - i,
    {
        let (id, ctor) = src.ctors.entry(i);
        proof {
            assert(src.ctors.entries_view()[i as int].1.wf());
        }
        let c = convert_ctor(src, CtorId(id), ctor)?;
        ctors.push(c);
        i += 1;
    }
    let main = ctor_index(src, src.main)?;
    let program = Program { ctors, main };
    check_models(&program)?;
    let mut getids = GetIds { inst2sym: IdMap::new(), ctor2sym: IdMap::new() };
    getids.program(src);
    Ok((program, getids.get()))
}

} // verus!
