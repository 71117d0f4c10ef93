use vstd::prelude::*;

use crate::irlf_ser::idmap::IdMap;
use crate::lf_types::{CtorId, DebugOnlyId, IfaceNode, InstId};

verus! {

/// An instance inside a composite: its id and the index of its constructor in the program.
#[derive(Debug, Clone, Copy, PartialEq, Eq)]
pub struct Inst {
    pub id: InstId,
    pub ctor: usize,
}

/// A path of instances, outermost first.
#[derive(Debug, Clone, PartialEq, Eq)]
pub struct InstRef {
    pub iref: Vec<Inst>,
}

/// The ids along a path.
pub open spec fn ids_of(iref: Seq<Inst>) -> Seq<InstId> {
    iref.map_values(|i: Inst| i.id)
}

/// A directed connection from `left` to `right`.
#[derive(Debug, Clone, PartialEq, Eq)]
pub struct Connection {
    pub id: DebugOnlyId,
    pub left: InstRef,
    pub right: InstRef,
}

/// A composite constructor with its instances, interface and connections resolved.
#[derive(Debug, Clone, PartialEq, Eq)]
pub struct StructlikeCtor {
    pub id: CtorId,
    pub insts: Vec<Inst>,
    pub iface: Vec<IfaceNode<InstRef>>,
    pub connections: Vec<Connection>,
}

/// A constructor implemented by an external binary.
#[derive(Debug, Clone, PartialEq, Eq)]
pub struct BinaryCtor {
    pub id: CtorId,
    pub path: String,
}

/// A constructor from the library of primitives, by name.
#[derive(Debug, Clone, PartialEq, Eq)]
pub struct LibCtor {
    pub id: CtorId,
    pub name: String,
}

/// A resolved constructor, of one of the three kinds.
#[derive(Debug, Clone, PartialEq, Eq)]
pub enum Ctor {
    StructlikeCtor(StructlikeCtor),
    BinaryCtor(BinaryCtor),
    LibCtor(LibCtor),
}

/// A program whose references are indices into its own constructor table.
#[derive(Debug, Clone, PartialEq, Eq)]
pub struct Program {
    pub ctors: Vec<Ctor>,
    pub main: usize,
}

/// A program as it was read, before its references are resolved.
#[derive(Debug)]
pub struct SourceProgram {
    pub source: crate::irlf_ser::ir::Program,
}

/// The symbolic names of instances and constructors, by id.
#[derive(Debug)]
pub struct Id2Sym {
    pub inst2sym: IdMap<String>,
    pub ctor2sym: IdMap<String>,
}

/// Every instance on the path refers to a constructor of a table of `n` entries.
pub open spec fn iref_in_range(iref: Seq<Inst>, n: int) -> bool {
    forall|j: int| 0 <= j < iref.len() ==> #[trigger] iref[j].ctor < n
}

impl StructlikeCtor {
    /// Every reference of the constructor stays inside a table of `n` entries, and every
    /// interface entry that carries a path carries a non-empty one.
    pub open spec fn refs_within(&self, n: int) -> bool {
        &&& forall|j: int| 0 <= j < self.insts@.len() ==> #[trigger] self.insts@[j].ctor < n
        &&& forall|j: int|
            0 <= j < self.iface@.len() ==> match #[trigger] self.iface@[j].1 {
                crate::lf_types::Comm::Notify => true,
                crate::lf_types::Comm::Data(r) => r.iref@.len() > 0 && iref_in_range(r.iref@, n),
            }
        &&& forall|j: int|
            0 <= j < self.connections@.len() ==> iref_in_range(
                #[trigger] self.connections@[j].left.iref@,
                n,
            ) && iref_in_range(self.connections@[j].right.iref@, n)
    }
}

impl Program {
    /// All references stay inside the constructor table.
    pub open spec fn refs_ok(&self) -> bool {
        &&& self.main < self.ctors@.len()
        &&& forall|c: int|
            0 <= c < self.ctors@.len() ==> match #[trigger] self.ctors@[c] {
                Ctor::StructlikeCtor(s) => s.refs_within(self.ctors@.len() as int),
                _ => true,
            }
    }

    /// The constructor at index `c` has a level model: it is a composite, or a library primitive
    /// whose name is known. An external binary has none.
    pub open spec fn has_level_model(&self, c: int) -> bool {
        match self.ctors@[c] {
            Ctor::StructlikeCtor(_) => true,
            Ctor::BinaryCtor(_) => false,
            Ctor::LibCtor(l) => !(crate::get_rtor_impl::rtor::lib_iface(l.name@) is Opaque),
        }
    }

    /// Every constructor that a composite instantiates, or names in its interface, has a level
    /// model.
    pub open spec fn models_ok(&self) -> bool {
        forall|c: int|
            0 <= c < self.ctors@.len() ==> match #[trigger] self.ctors@[c] {
                Ctor::StructlikeCtor(s) => (forall|j: int|
                    0 <= j < s.insts@.len() ==> self.has_level_model(#[trigger] s.insts@[j].ctor as int))
                    && (forall|j: int|
                    0 <= j < s.iface@.len() ==> match #[trigger] s.iface@[j].1 {
                        crate::lf_types::Comm::Notify => true,
                        crate::lf_types::Comm::Data(r) => r.iref@.len() > 0 ==> self.has_level_model(
                            r.iref@[0].ctor as int,
                        ),
                    }),
                _ => true,
            }
    }

    /// All references stay inside the constructor table, and every constructor that the level
    /// analysis reaches through a composite has a level model.
    pub open spec fn wf(&self) -> bool {
        self.refs_ok() && self.models_ok()
    }
}

} // verus!
