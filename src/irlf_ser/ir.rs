use vstd::prelude::*;

use crate::irlf_ser::idmap::IdMap;
use crate::lf_types::{CtorId, DebugOnlyId, IfaceNode, InstId};

verus! {

/// The constructor that an instance is made with.
#[derive(Debug, Clone, Copy, PartialEq, Eq)]
pub struct CtorCall {
    pub ctor: CtorId,
}

/// A dotted path of instance ids, outermost first.
#[derive(Debug, Clone, PartialEq, Eq)]
pub struct InstRef(pub Vec<InstId>);

/// A directed connection from `left` to `right`, with an id kept for diagnostics.
#[derive(Debug, Clone, PartialEq, Eq)]
pub struct Connection {
    pub id: DebugOnlyId,
    pub left: InstRef,
    pub right: InstRef,
}

/// A composite constructor: named instances, an interface, and connections among the instances.
#[derive(Debug, Clone, PartialEq, Eq)]
pub struct StructlikeCtor {
    pub inst2sym: IdMap<String>,
    pub insts: IdMap<CtorCall>,
    pub iface: Vec<IfaceNode<InstRef>>,
    pub connections: Vec<Connection>,
}

impl StructlikeCtor {
    pub open spec fn wf(&self) -> bool {
        self.inst2sym.wf() && self.insts.wf()
    }
}

/// A constructor implemented by an external binary at `path`.
#[derive(Debug, Clone, PartialEq, Eq)]
pub struct BinaryCtor {
    pub path: String,
}

/// A constructor from the library of primitives.
#[derive(Debug, Clone, PartialEq, Eq)]
pub struct LibCtor {
    pub name: String,
}

/// A constructor, of one of the three kinds.
#[derive(Debug, Clone, PartialEq, Eq)]
pub enum Ctor {
    StructlikeCtor(StructlikeCtor),
    BinaryCtor(BinaryCtor),
    LibCtor(LibCtor),
}

impl Ctor {
    pub open spec fn wf(&self) -> bool {
        match self {
            Ctor::StructlikeCtor(s) => s.wf(),
            _ => true,
        }
    }
}

/// A program: named constructors and the constructor of the main reactor.
#[derive(Debug, Clone, PartialEq, Eq)]
pub struct Program {
    pub ctorid2sym: IdMap<String>,
    pub ctors: IdMap<Ctor>,
    pub main: CtorId,
}

impl Program {
    pub open spec fn wf(&self) -> bool {
        &&& self.ctorid2sym.wf()
        &&& self.ctors.wf()
        &&& forall|i: int|
            0 <= i < self.ctors.entries_view().len() ==> (#[trigger] self.ctors.entries_view()[i]).1.wf()
    }
}

} // verus!
