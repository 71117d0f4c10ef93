use vstd::prelude::*;

use crate::connectioniterator::nesting::Nesting;
use crate::get_rtor_impl::rtor::{AnyIface, BiFunRtorIface, LevelIterator, RtorIface, RtorN, BinaryOp};
use crate::irlf_db::ir::Program;
use crate::lf_types::{InstId, Level, Side, SideMatch};

verus! {

impl BiFunRtorIface {
    /// The interface of a two-input merge reactor computing `op`.
    pub fn new(op: BinaryOp) -> (r: Self)
        ensures
            r.op == op,
    {
        BiFunRtorIface { op }
    }

    /// What the reactor outputs for the inputs `x` and `y`; `None` where that does not fit in 64
    /// bits.
    pub fn apply(&self, x: u64, y: u64) -> (r: Option<u64>)
        ensures
            self.op == BinaryOp::Sum ==> r == (if x + y <= u64::MAX { Some((x + y) as u64) } else { None::<u64> }),
            self.op == BinaryOp::Prod ==> r == (if x * y <= u64::MAX { Some((x * y) as u64) } else { None::<u64> }),
    {
        match self.op {
            BinaryOp::Sum => x.checked_add(y),
            BinaryOp::Prod => x.checked_mul(y),
        }
    }
}

impl RtorIface for BiFunRtorIface {
    open spec fn as_any(&self) -> AnyIface {
        AnyIface::BiFun(*self)
    }

    fn n_levels(&self, db: &Program, side: SideMatch) -> (r: Level) {
        AnyIface::BiFun(*self).n_levels(db, side)
    }

    fn immut_provide(
        &self,
        db: &Program,
        part: &Vec<InstId>,
        side: Side,
        starting_level: Level,
        nesting: Nesting<RtorN>,
    ) -> (r: LevelIterator) {
        AnyIface::BiFun(*self).immut_provide(db, part, side, starting_level, nesting)
    }

    fn immut_provide_unique(
        &self,
        db: &Program,
        part: &Vec<InstId>,
        side: Side,
        starting_level: Level,
    ) -> (r: Vec<Level>) {
        AnyIface::BiFun(*self).immut_provide_unique(db, part, side, starting_level)
    }

    fn levels(&self, db: &Program) -> (r: Vec<Level>) {
        AnyIface::BiFun(*self).levels(db)
    }
}

} // verus!
