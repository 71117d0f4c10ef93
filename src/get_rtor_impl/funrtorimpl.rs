use vstd::prelude::*;

use crate::connectioniterator::nesting::Nesting;
use crate::get_rtor_impl::rtor::{AnyIface, FunRtorIface, LevelIterator, RtorIface, RtorN, UnaryOp};
use crate::irlf_db::ir::Program;
use crate::lf_types::{InstId, Level, Side, SideMatch};

verus! {

impl FunRtorIface {
    /// The interface of a one-input reactor computing `op`.
    pub fn new(op: UnaryOp) -> (r: Self)
        ensures
            r.op == op,
    {
        FunRtorIface { op }
    }

    /// What the reactor outputs for the input `x`; `None` where that does not fit in 64 bits.
    pub fn apply(&self, x: u64) -> (r: Option<u64>)
        ensures
            self.op == UnaryOp::Add1 ==> r == (if x < u64::MAX { Some((x + 1) as u64) } else { None::<u64> }),
            self.op == UnaryOp::Mul2 ==> r == (if x <= u64::MAX / 2 { Some((2 * x) as u64) } else { None::<u64> }),
    {
        match self.op {
            UnaryOp::Add1 => x.checked_add(1),
            UnaryOp::Mul2 => x.checked_mul(2),
        }
    }
}

impl RtorIface for FunRtorIface {
    open spec fn as_any(&self) -> AnyIface {
        AnyIface::Fun(*self)
    }

    fn n_levels(&self, db: &Program, side: SideMatch) -> (r: Level) {
        AnyIface::Fun(*self).n_levels(db, side)
    }

    fn immut_provide(
        &self,
        db: &Program,
        part: &Vec<InstId>,
        side: Side,
        starting_level: Level,
        nesting: Nesting<RtorN>,
    ) -> (r: LevelIterator) {
        AnyIface::Fun(*self).immut_provide(db, part, side, starting_level, nesting)
    }

    fn immut_provide_unique(
        &self,
        db: &Program,
        part: &Vec<InstId>,
        side: Side,
        starting_level: Level,
    ) -> (r: Vec<Level>) {
        AnyIface::Fun(*self).immut_provide_unique(db, part, side, starting_level)
    }

    fn levels(&self, db: &Program) -> (r: Vec<Level>) {
        AnyIface::Fun(*self).levels(db)
    }
}

} // verus!
