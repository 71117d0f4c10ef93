use vstd::prelude::*;

use crate::connectioniterator::chainclone::ChainClone;
use crate::connectioniterator::nesting::Nesting;
use crate::irlf_db::ir::{ids_of, Ctor, InstRef, Program};
use crate::lf_types::{Comm, IfaceNode, InstId, Level, Side, SideMatch};

verus! {

/// The function of a one-input library reactor.
#[derive(Debug, Clone, Copy, PartialEq, Eq, Structural)]
pub enum UnaryOp {
    Add1,
    Mul2,
}

/// The function of a two-input library reactor.
#[derive(Debug, Clone, Copy, PartialEq, Eq, Structural)]
pub enum BinaryOp {
    Sum,
    Prod,
}

/// A one-input, one-output reactor: it forwards the level of its input unchanged.
#[derive(Debug, Clone, Copy, PartialEq, Eq, Structural)]
pub struct FunRtorIface {
    pub op: UnaryOp,
}

/// A two-input merge reactor: its output comes one level after its inputs.
#[derive(Debug, Clone, Copy, PartialEq, Eq, Structural)]
pub struct BiFunRtorIface {
    pub op: BinaryOp,
}

/// A composite reactor: the constructor at index `sctor` of the program.
#[derive(Debug, Clone, Copy, PartialEq, Eq, Structural)]
pub struct SrtorIface {
    pub sctor: usize,
}

/// The interface of any reactor kind. `Opaque` stands for a constructor without a level model (an
/// external binary, or a library name that is not known); it communicates nothing. A valid
/// program never uses such a constructor inside a composite, so the analysis of a composite never
/// meets one.
#[derive(Debug, Clone, Copy, PartialEq, Eq, Structural)]
pub enum AnyIface {
    Fun(FunRtorIface),
    BiFun(BiFunRtorIface),
    Srtor(SrtorIface),
    Opaque,
}

/// The producer token of level streams: the interface that produces them.
pub type RtorN = AnyIface;

/// `x`, or the largest level where `x` is larger.
pub open spec fn sat(x: int) -> u32 {
    if x > u32::MAX {
        u32::MAX
    } else if x < 0 {
        0
    } else {
        x as u32
    }
}

/// The interface of the library primitive called `name`.
pub open spec fn lib_iface(name: Seq<char>) -> AnyIface {
    if name == seq!['a', 'd', 'd', '1'] {
        AnyIface::Fun(FunRtorIface { op: UnaryOp::Add1 })
    } else if name == seq!['m', 'u', 'l', '2'] {
        AnyIface::Fun(FunRtorIface { op: UnaryOp::Mul2 })
    } else if name == seq!['s', 'u', 'm'] {
        AnyIface::BiFun(BiFunRtorIface { op: BinaryOp::Sum })
    } else if name == seq!['p', 'r', 'o', 'd'] {
        AnyIface::BiFun(BiFunRtorIface { op: BinaryOp::Prod })
    } else {
        AnyIface::Opaque
    }
}

/// The interface of the constructor at index `c`.
pub open spec fn iface_spec(db: Program, c: int) -> AnyIface {
    match db.ctors@[c] {
        Ctor::StructlikeCtor(_) => AnyIface::Srtor(SrtorIface { sctor: c as usize }),
        Ctor::BinaryCtor(_) => AnyIface::Opaque,
        Ctor::LibCtor(l) => lib_iface(l.name@),
    }
}

/// The interface entries of the constructor at index `c` (none unless it is a composite).
pub open spec fn entries_of(db: Program, c: int) -> Seq<IfaceNode<InstRef>> {
    match db.ctors@[c] {
        Ctor::StructlikeCtor(s) => s.iface@,
        _ => Seq::empty(),
    }
}

/// An interface may be asked about in `db`: a composite names a composite of `db`.
pub open spec fn valid(db: Program, i: AnyIface) -> bool {
    match i {
        AnyIface::Srtor(s) => s.sctor < db.ctors@.len() && db.ctors@[s.sctor as int] is StructlikeCtor,
        _ => true,
    }
}

/// The number of levels that `side` of `i` spans; composites nested deeper than `fuel` count
/// for nothing. A one-input reactor spans none. A merge spans one wherever its output is looked
/// at (its right side, or both sides), since its output comes one level after its inputs.
pub open spec fn n_levels_spec(db: Program, i: AnyIface, side: SideMatch, fuel: nat) -> nat
    decreases fuel, 0nat, 0int,
{
    match i {
        AnyIface::Fun(_) => 0,
        AnyIface::Opaque => 0,
        AnyIface::BiFun(_) => match side {
            SideMatch::One(Side::Left) => 0,
            _ => 1,
        },
        AnyIface::Srtor(s) => if fuel == 0 {
            0
        } else {
            let es = entries_of(db, s.sctor as int);
            level_before(db, es, side, (fuel - 1) as nat, es.len() as int)
        },
    }
}

/// The levels that the entry `e` of a composite takes up on `side`: one for a notification, the
/// span of the child for a child.
pub open spec fn entry_span(db: Program, e: IfaceNode<InstRef>, side: SideMatch, fuel: nat) -> nat
    decreases fuel, 1nat, 0int,
{
    if !side.spec_overlaps(e.0) {
        0
    } else {
        match e.1 {
            Comm::Notify => 1,
            Comm::Data(r) => if r.iref@.len() == 0 {
                0
            } else {
                n_levels_spec(db, iface_spec(db, r.iref@[0].ctor as int), side, fuel)
            },
        }
    }
}

/// The level, relative to the composite, at which its `k`-th entry starts on `side`.
pub open spec fn level_before(
    db: Program,
    es: Seq<IfaceNode<InstRef>>,
    side: SideMatch,
    fuel: nat,
    k: int,
) -> nat
    decreases fuel, 2nat, k,
{
    if k <= 0 || k > es.len() {
        0
    } else {
        level_before(db, es, side, fuel, k - 1) + entry_span(db, es[k - 1], side, fuel)
    }
}

/// Where a request for the part `path` of a composite goes through the entry with path `iref`:
/// the part of the child that is meant, or `None` where the two paths part ways.
pub open spec fn descend(iref: Seq<InstId>, path: Seq<InstId>) -> Option<Seq<InstId>> {
    if path.len() == 0 {
        Some(iref.drop_first())
    } else if iref.len() == 0 || iref[0] != path[0] {
        None
    } else {
        let t = iref.drop_first();
        let p = path.drop_first();
        if t.len() <= p.len() && p.subrange(0, t.len() as int) == t {
            Some(p)
        } else if p.len() <= t.len() && t.subrange(0, p.len() as int) == p {
            Some(t)
        } else {
            None
        }
    }
}

/// The level stream of an atomic reactor on `side`, starting at `start`.
pub open spec fn leaf_stream(i: AnyIface, side: Side, start: u32) -> Seq<Comm<Level>> {
    match i {
        AnyIface::Fun(_) => seq![Comm::Data(Level(start))],
        AnyIface::BiFun(_) => match side {
            Side::Left => seq![Comm::Data(Level(start)), Comm::Data(Level(start)), Comm::Notify],
            Side::Right => seq![Comm::Data(Level(sat(start + 1)))],
        },
        _ => Seq::empty(),
    }
}

/// The levels at which `side` of (the part `path` of) `i` communicates, starting at `start`.
pub open spec fn provide_spec(
    db: Program,
    i: AnyIface,
    side: Side,
    start: u32,
    path: Seq<InstId>,
    fuel: nat,
) -> Seq<Comm<Level>>
    decreases fuel, 0nat, 0int,
{
    match i {
        AnyIface::Srtor(s) => if fuel == 0 {
            Seq::empty()
        } else {
            let es = entries_of(db, s.sctor as int);
            provide_from(db, es, side, start, path, (fuel - 1) as nat, es.len() as int)
        },
        _ => leaf_stream(i, side, start),
    }
}

/// The streams of the first `k` entries of a composite, one after the other.
pub open spec fn provide_from(
    db: Program,
    es: Seq<IfaceNode<InstRef>>,
    side: Side,
    start: u32,
    path: Seq<InstId>,
    fuel: nat,
    k: int,
) -> Seq<Comm<Level>>
    decreases fuel, 2nat, k,
{
    if k <= 0 || k > es.len() {
        Seq::empty()
    } else {
        provide_from(db, es, side, start, path, fuel, k - 1) + entry_stream(
            db,
            es,
            side,
            start,
            path,
            fuel,
            k - 1,
        )
    }
}

/// The stream of the `j`-th entry of a composite.
pub open spec fn entry_stream(
    db: Program,
    es: Seq<IfaceNode<InstRef>>,
    side: Side,
    start: u32,
    path: Seq<InstId>,
    fuel: nat,
    j: int,
) -> Seq<Comm<Level>>
    decreases fuel, 1nat, 0int,
{
    if 0 <= j < es.len() && SideMatch::One(side).spec_overlaps(es[j].0) {
        match es[j].1 {
            Comm::Data(r) => if r.iref@.len() == 0 {
                Seq::empty()
            } else {
                match descend(ids_of(r.iref@), path) {
                    Some(rest) => provide_spec(
                        db,
                        iface_spec(db, r.iref@[0].ctor as int),
                        side,
                        sat(start + level_before(db, es, SideMatch::One(side), fuel, j)),
                        rest,
                        fuel,
                    ),
                    None => Seq::empty(),
                }
            },
            Comm::Notify => Seq::empty(),
        }
    } else {
        Seq::empty()
    }
}

/// One interface exposed on a side: the level at which it starts, the sides it faces, and the
/// interface (or a notification).
pub type SideEntry = (Level, SideMatch, Comm<AnyIface>);

/// `s` with every level moved up by `off`.
pub open spec fn shift(s: Seq<SideEntry>, off: nat) -> Seq<SideEntry> {
    s.map_values(|e: SideEntry| (Level(sat(e.0.0 + off)), e.1, e.2))
}

/// The atomic interfaces that the part `path` of `i` exposes on `filter`, each with the level at
/// which it starts: an atomic reactor exposes itself, a composite the interfaces of the children
/// its entries name, each moved up by the levels before that entry.
pub open spec fn side_spec(
    db: Program,
    i: AnyIface,
    filter: SideMatch,
    path: Seq<InstId>,
    fuel: nat,
) -> Seq<SideEntry>
    decreases fuel, 0nat, 0int,
{
    match i {
        AnyIface::Srtor(s) => if fuel == 0 {
            Seq::empty()
        } else {
            let es = entries_of(db, s.sctor as int);
            side_from(db, es, filter, path, (fuel - 1) as nat, es.len() as int)
        },
        _ => if path.len() == 0 {
            seq![(Level(0), SideMatch::Both, Comm::Data(i))]
        } else {
            Seq::empty()
        },
    }
}

/// The interfaces that the first `k` entries of a composite expose, one after the other.
pub open spec fn side_from(
    db: Program,
    es: Seq<IfaceNode<InstRef>>,
    filter: SideMatch,
    path: Seq<InstId>,
    fuel: nat,
    k: int,
) -> Seq<SideEntry>
    decreases fuel, 2nat, k,
{
    if k <= 0 || k > es.len() {
        Seq::empty()
    } else {
        side_from(db, es, filter, path, fuel, k - 1) + side_entry(db, es, filter, path, fuel, k - 1)
    }
}

/// The interfaces that the `j`-th entry of a composite exposes.
pub open spec fn side_entry(
    db: Program,
    es: Seq<IfaceNode<InstRef>>,
    filter: SideMatch,
    path: Seq<InstId>,
    fuel: nat,
    j: int,
) -> Seq<SideEntry>
    decreases fuel, 1nat, 0int,
{
    if 0 <= j < es.len() && filter.spec_overlaps(es[j].0) {
        match es[j].1 {
            Comm::Data(r) => if r.iref@.len() == 0 {
                Seq::empty()
            } else {
                match descend(ids_of(r.iref@), path) {
                    Some(rest) => shift(
                        side_spec(db, iface_spec(db, r.iref@[0].ctor as int), filter, rest, fuel),
                        level_before(db, es, filter, fuel, j),
                    ),
                    None => Seq::empty(),
                }
            },
            Comm::Notify => Seq::empty(),
        }
    } else {
        Seq::empty()
    }
}

/// A stream of levels, produced under interface tokens.
pub type LevelIterator = ChainClone<Comm<Level>, RtorN>;

/// How deep any query looks into nested composites: one level per constructor of the program,
/// which reaches every leaf of a program whose composites do not contain themselves.
pub open spec fn depth(db: Program) -> nat {
    db.ctors@.len() as nat
}

/// What any reactor kind offers to the level analysis, as a black box.
pub trait RtorIface {
    /// The interface as a value of the closed set of reactor kinds.
    spec fn as_any(&self) -> AnyIface;

    /// The number of levels that `side` of this reactor spans.
    fn n_levels(&self, db: &Program, side: SideMatch) -> (r: Level)
        requires
            db.wf(),
            valid(*db, self.as_any()),
        ensures
            r.0 == sat(n_levels_spec(*db, self.as_any(), side, depth(*db)) as int),
    ;

    /// The levels, in order, at which `side` of the part `part` of this reactor communicates,
    /// starting at `starting_level`.
    fn immut_provide(
        &self,
        db: &Program,
        part: &Vec<InstId>,
        side: Side,
        starting_level: Level,
        nesting: Nesting<RtorN>,
    ) -> (r: LevelIterator)
        requires
            db.wf(),
            valid(*db, self.as_any()),
        ensures
            r.wf(),
            r.remaining() == provide_spec(*db, self.as_any(), side, starting_level.0, part@, depth(*db)),
    ;

    /// The distinct levels that carry data in `immut_provide`, in no particular order.
    fn immut_provide_unique(
        &self,
        db: &Program,
        part: &Vec<InstId>,
        side: Side,
        starting_level: Level,
    ) -> (r: Vec<Level>)
        requires
            db.wf(),
            valid(*db, self.as_any()),
        ensures
            r@.no_duplicates(),
            forall|l: Level|
                r@.contains(l) <==> data_levels(
                    provide_spec(*db, self.as_any(), side, starting_level.0, part@, depth(*db)),
                ).contains(l),
    ;

    /// The distinct levels at which an instance of this reactor communicates on either side.
    fn levels(&self, db: &Program) -> (r: Vec<Level>)
        requires
            db.wf(),
            valid(*db, self.as_any()),
        ensures
            r@.no_duplicates(),
            forall|l: Level| r@.contains(l) <==> all_levels(*db, self.as_any()).contains(l),
    ;
}

/// The levels at which `i` communicates on either side, from level 0.
pub open spec fn all_levels(db: Program, i: AnyIface) -> Set<Level> {
    data_levels(provide_spec(db, i, Side::Left, 0, Seq::empty(), depth(db))).union(
        data_levels(provide_spec(db, i, Side::Right, 0, Seq::empty(), depth(db))),
    )
}

/// The levels that carry data in a stream.
pub open spec fn data_levels(s: Seq<Comm<Level>>) -> Set<Level> {
    Set::new(|l: Level| exists|i: int| 0 <= i < s.len() && s[i] == Comm::Data(l))
}

/// Every level that carries data in `s` lies between `lo` and `hi`.
pub open spec fn data_between(s: Seq<Comm<Level>>, lo: u32, hi: u32) -> bool {
    forall|i: int|
        0 <= i < s.len() && #[trigger] s[i] is Data ==> lo <= s[i]->Data_0.0 && s[i]->Data_0.0 <= hi
}

/// The levels that carry data in `s` never decrease along `s`.
pub open spec fn data_sorted(s: Seq<Comm<Level>>) -> bool {
    forall|a: int, b: int|
        0 <= a < b < s.len() && #[trigger] s[a] is Data && #[trigger] s[b] is Data ==> s[a]->Data_0.0
            <= s[b]->Data_0.0
}

/// A stream of `provide` stays within the span of its side, and its data levels never decrease.
pub proof fn lemma_provide_bounds(
    db: Program,
    i: AnyIface,
    side: Side,
    start: u32,
    path: Seq<InstId>,
    fuel: nat,
)
    requires
        db.wf(),
        valid(db, i),
    ensures
        data_sorted(provide_spec(db, i, side, start, path, fuel)),
        data_between(
            provide_spec(db, i, side, start, path, fuel),
            start,
            sat(start + n_levels_spec(db, i, SideMatch::One(side), fuel)),
        ),
    decreases fuel, 0nat, 0int,
{
    match i {
        AnyIface::Srtor(sr) => {
            if fuel > 0 {
                let es = entries_of(db, sr.sctor as int);
                lemma_provide_from_bounds(db, es, side, start, path, (fuel - 1) as nat, es.len() as int);
            }
        },
        _ => {},
    }
}

/// The streams of the first `k` entries of a composite stay below the level where entry `k`
/// starts, and their data levels never decrease.
pub proof fn lemma_provide_from_bounds(
    db: Program,
    es: Seq<IfaceNode<InstRef>>,
    side: Side,
    start: u32,
    path: Seq<InstId>,
    fuel: nat,
    k: int,
)
    requires
        db.wf(),
        exists|c: int|
            0 <= c < db.ctors@.len() && #[trigger] db.ctors@[c] is StructlikeCtor && es
                == entries_of(db, c),
        0 <= k <= es.len(),
    ensures
        data_sorted(provide_from(db, es, side, start, path, fuel, k)),
        data_between(
            provide_from(db, es, side, start, path, fuel, k),
            start,
            sat(start + level_before(db, es, SideMatch::One(side), fuel, k)),
        ),
    decreases fuel, 2nat, k,
{
    if k > 0 {
        let exact = SideMatch::One(side);
        lemma_provide_from_bounds(db, es, side, start, path, fuel, k - 1);
        let prev = provide_from(db, es, side, start, path, fuel, k - 1);
        let cur = entry_stream(db, es, side, start, path, fuel, k - 1);
        let lb = level_before(db, es, exact, fuel, k - 1);
        let here = sat(start + lb);
        let span = entry_span(db, es[k - 1], exact, fuel);
        assert(level_before(db, es, exact, fuel, k) == lb + span);
        let c = choose|c: int|
            0 <= c < db.ctors@.len() && #[trigger] db.ctors@[c] is StructlikeCtor && es
                == entries_of(db, c);
        let sc = db.ctors@[c]->StructlikeCtor_0;
        assert(sc.refs_within(db.ctors@.len() as int));
        assert(es == sc.iface@);
        if exact.spec_overlaps(es[k - 1].0) {
            match es[k - 1].1 {
                Comm::Data(r) => {
                    if r.iref@.len() > 0 {
                        match descend(ids_of(r.iref@), path) {
                            Some(rest) => {
                                let child = iface_spec(db, r.iref@[0].ctor as int);
                                lemma_provide_bounds(db, child, side, here, rest, fuel);
                                assert(sat(here + n_levels_spec(db, child, exact, fuel)) == sat(
                                    start + lb + span,
                                ));
                            },
                            None => {},
                        }
                    }
                },
                Comm::Notify => {},
            }
        }
        let whole = provide_from(db, es, side, start, path, fuel, k);
        assert(whole == prev + cur);
        let hi = sat(start + lb + span);
        assert(data_between(cur, here, hi));
        assert(data_sorted(whole)) by {
            assert forall|a: int, b: int|
                0 <= a < b < whole.len() && #[trigger] whole[a] is Data && #[trigger] whole[b] is Data
                    implies whole[a]->Data_0.0 <= whole[b]->Data_0.0 by {
                if b < prev.len() {
                    assert(whole[a] == prev[a] && whole[b] == prev[b]);
                } else if a >= prev.len() {
                    assert(whole[a] == cur[a - prev.len()] && whole[b] == cur[b - prev.len()]);
                } else {
                    assert(whole[a] == prev[a] && whole[b] == cur[b - prev.len()]);
                }
            }
        }
        assert(data_between(whole, start, hi)) by {
            assert forall|j: int| 0 <= j < whole.len() && #[trigger] whole[j] is Data implies start
                <= whole[j]->Data_0.0 && whole[j]->Data_0.0 <= hi by {
                if j < prev.len() {
                    assert(whole[j] == prev[j]);
                } else {
                    assert(whole[j] == cur[j - prev.len()]);
                }
            }
        }
    }
}

/// Within any stream that `provide` yields, the levels that carry data never decrease.
pub proof fn lemma_provide_monotonic(
    db: Program,
    i: AnyIface,
    side: Side,
    start: u32,
    path: Seq<InstId>,
)
    requires
        db.wf(),
        valid(db, i),
    ensures
        data_sorted(provide_spec(db, i, side, start, path, db.ctors@.len() as nat)),
{
    lemma_provide_bounds(db, i, side, start, path, db.ctors@.len() as nat);
}

} // verus!
