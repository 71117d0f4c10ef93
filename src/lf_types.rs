use vstd::prelude::*;

verus! {

/// One of the two faces of a reactor's contract.
#[derive(Debug, PartialEq, Eq, Hash, Clone, Copy, Structural)]
pub enum Side {
    Left,
    Right,
}

/// A query on one side of a reactor, or on both.
#[derive(Debug, PartialEq, Eq, Hash, Clone, Copy, Structural)]
pub enum SideMatch {
    One(Side),
    Both,
}

impl SideMatch {
    pub open spec fn spec_includes(self, side: Side) -> bool {
        match self {
            SideMatch::One(s) => s == side,
            SideMatch::Both => true,
        }
    }

    pub open spec fn spec_overlaps(self, other: SideMatch) -> bool {
        match self {
            SideMatch::One(s) => other.spec_includes(s),
            SideMatch::Both => true,
        }
    }

    /// Whether the filter admits `side`.
    pub fn includes(&self, side: Side) -> (r: bool)
        ensures
            r == self.spec_includes(side),
    {
        match self {
            SideMatch::One(s) => *s == side,
            SideMatch::Both => true,
        }
    }

    /// Whether the two filters admit a common side.
    pub fn overlaps(&self, other: SideMatch) -> (r: bool)
        ensures
            r == self.spec_overlaps(other),
    {
        match self {
            SideMatch::One(s) => other.includes(*s),
            SideMatch::Both => true,
        }
    }
}

/// Direction of a step in the reactor hierarchy.
pub enum Nesting {
    Up,
    Down,
}

/// A logical execution rank.
#[derive(Debug, PartialEq, Eq, Hash, Clone, Copy, PartialOrd, Ord, Structural)]
pub struct Level(pub u32);

impl Level {
    /// The sum of two levels; the caller keeps it within range.
    pub fn plus(self, other: Level) -> (r: Level)
        requires
            self.0 + other.0 <= u32::MAX,
        ensures
            r.0 == self.0 + other.0,
    {
        Level(self.0 + other.0)
    }
}

/// Whether the communication next to a point on a side was incoming or outgoing.
#[derive(Debug, PartialEq, Eq, Hash, Clone, Copy, Structural)]
pub enum FlowDirection {
    In,
    Out,
}

/// A position in a level stream: a bare level advancement, or an observation carrying a value.
#[derive(Debug, PartialEq, Eq, Hash, Clone, Copy, PartialOrd, Ord)]
pub enum Comm<T> {
    Notify,
    Data(T),
}

impl<A> Comm<A> {
    /// Applies `f` to the carried value, if there is one.
    pub fn map<B, F: Fn(&A) -> B>(&self, f: F) -> (r: Comm<B>)
        requires
            self is Data ==> f.requires((&self->Data_0,)),
        ensures
            self is Notify <==> r is Notify,
            self is Data ==> f.ensures((&self->Data_0,), r->Data_0),
    {
        match self {
            Comm::Notify => Comm::Notify,
            Comm::Data(x) => Comm::Data(f(x)),
        }
    }

    /// The carried value of a `Data` position.
    pub fn unwrap(self) -> (r: A)
        requires
            self is Data,
        ensures
            r == self->Data_0,
    {
        match self {
            Comm::Notify => { proof { assert(false); } unreached() },
            Comm::Data(x) => x,
        }
    }
}

/// One entry of an interface: the sides it faces and what it communicates.
#[derive(Debug, PartialEq, Eq, Hash, Clone)]
pub struct IfaceNode<T>(pub SideMatch, pub Comm<T>);

/// Identifies a constructor (a reactor definition).
#[derive(Debug, Hash, PartialEq, Eq, PartialOrd, Ord, Clone, Copy, Structural)]
pub struct CtorId(pub u64);

/// Identifies an instance inside a composite.
#[derive(Debug, Hash, PartialEq, Eq, PartialOrd, Ord, Clone, Copy, Structural)]
pub struct InstId(pub u64);

/// An identifier kept for diagnostics only.
#[derive(Debug, Hash, PartialEq, Eq, PartialOrd, Ord, Clone, Copy, Structural)]
pub struct DebugOnlyId(pub u64);

} // verus!
