use vstd::prelude::*;

use crate::get_rtor_impl::levelmap::{
    adjust_spec, bound_holds, lookup, FixpointingStatus, LevelMap,
};
use crate::get_rtor_impl::rtor::{
    all_levels, depth, iface_spec, provide_spec, side_spec, valid, AnyIface, RtorIface,
};
use crate::lf_types::SideMatch;
use crate::get_rtor_impl::srtorimpl::{iface_of, provide_fuel};
use crate::irlf_db::ir::{ids_of, Connection, Ctor, Inst, Program, StructlikeCtor};
use crate::get_rtor_impl::rtor::SrtorIface;
use crate::lf_types::{Comm, FlowDirection, InstId, Level, Side};

verus! {

/// A callback of a providing session: invoked with a lower bound, it requires the levels of
/// session `target` from its intrinsic level `level` on to be at least that bound.
#[derive(Debug, Clone, Copy, PartialEq, Eq, Structural)]
pub struct Acceptor {
    pub target: usize,
    pub level: Level,
}

/// One invocation of an acceptor with an external lower bound.
#[derive(Debug, Clone, Copy, PartialEq, Eq, Structural)]
pub struct Invocation {
    pub acceptor: Acceptor,
    pub bound: u32,
}

/// A registered connection: on `side` of the part `part` of a session, the stream of acceptors of
/// the session downstream.
#[derive(Debug)]
pub struct ExternalConnection {
    pub part: Vec<InstId>,
    pub side: Side,
    pub inputs: Vec<Comm<Acceptor>>,
}

/// The levels that carry data in `s`, in order.
pub open spec fn data_seq(s: Seq<Comm<Level>>) -> Seq<u32>
    decreases s.len(),
{
    if s.len() == 0 {
        Seq::empty()
    } else {
        data_seq(s.drop_last()) + match s.last() {
            Comm::Data(l) => seq![l.0],
            Comm::Notify => Seq::empty(),
        }
    }
}

/// The intrinsic levels at which `side` of the part `part` of `i` invokes the acceptors handed to
/// it, one acceptor each, in order: on the right side, one per level that carries data there; on
/// the left side, none.
pub open spec fn accept_levels_spec(db: Program, i: AnyIface, side: Side, part: Seq<InstId>) -> Seq<
    u32,
> {
    match side {
        Side::Right => data_seq(provide_spec(db, i, Side::Right, 0, part, depth(db))),
        Side::Left => Seq::empty(),
    }
}

/// The levels that carry data in `s`, in order.
fn data_levels_in_order(s: &Vec<Comm<Level>>) -> (r: Vec<u32>)
    ensures
        r@ == data_seq(s@),
{
    let mut r: Vec<u32> = Vec::new();
    let mut i: usize = 0;
    while i < s.len()
        invariant
            i <= s@.len(),
            r@ == data_seq(s@.subrange(0, i as int)),
        decreases s@.len() - i,
    {
        assert(s@.subrange(0, i + 1).drop_last() == s@.subrange(0, i as int));
        if let Comm::Data(l) = s[i] {
            r.push(l.0);
        }
        i += 1;
        assert(r@ =~= data_seq(s@.subrange(0, i as int)));
    }
    assert(s@.subrange(0, s@.len() as int) == s@);
    r
}

/// The intrinsic levels at which `side` of the part `part` of `i` invokes its acceptors.
pub fn accept_levels(db: &Program, i: AnyIface, side: Side, part: &Vec<InstId>) -> (r: Vec<u32>)
    requires
        db.wf(),
        valid(*db, i),
    ensures
        r@ == accept_levels_spec(*db, i, side, part@),
{
    match side {
        Side::Right => {
            let s = provide_fuel(db, i, Side::Right, Level(0), part, db.ctors.len());
            data_levels_in_order(&s)
        },
        Side::Left => Vec::new(),
    }
}

/// The acceptors that the first `n` accepting levels `calls` reach in `inputs`, each with the
/// level it is invoked at: the `j`-th level goes to the `j`-th input; notifications are skipped.
pub open spec fn paired(calls: Seq<u32>, inputs: Seq<Comm<Acceptor>>, n: int) -> Seq<
    (Acceptor, Level),
>
    decreases n,
{
    if n <= 0 || n > calls.len() || n > inputs.len() {
        Seq::empty()
    } else {
        paired(calls, inputs, n - 1) + match inputs[n - 1] {
            Comm::Data(a) => seq![(a, Level(calls[n - 1]))],
            Comm::Notify => Seq::empty(),
        }
    }
}

impl AnyIface {
    /// The acceptors of `inputs` that `side` of the part `part` of this reactor invokes, each
    /// with the intrinsic level it invokes it at, in order.
    pub fn immut_accept(
        &self,
        db: &Program,
        part: &Vec<InstId>,
        side: Side,
        inputs: &Vec<Comm<Acceptor>>,
    ) -> (r: Vec<(Acceptor, Level)>)
        requires
            db.wf(),
            valid(*db, *self),
        ensures
            ({
                let calls = accept_levels_spec(*db, *self, side, part@);
                let n = if calls.len() < inputs@.len() {
                    calls.len()
                } else {
                    inputs@.len()
                };
                r@ == paired(calls, inputs@, n as int)
            }),
    {
        let calls = accept_levels(db, *self, side, part);
        let mut r: Vec<(Acceptor, Level)> = Vec::new();
        let mut j: usize = 0;
        while j < calls.len() && j < inputs.len()
            invariant
                j <= calls@.len(),
                j <= inputs@.len(),
                r@ == paired(calls@, inputs@, j as int),
            decreases calls@.len() - j,
        {
            if let Comm::Data(a) = inputs[j] {
                r.push((a, Level(calls[j])));
            }
            j += 1;
            assert(r@ =~= paired(calls@, inputs@, j as int));
        }
        r
    }
}

/// The analysis session of one instance: its interface, the map from its intrinsic levels to
/// external ones, and the connections registered on it.
#[derive(Debug)]
pub struct SrtorComptime {
    iface: AnyIface,
    levels_internal2external: LevelMap,
    external_connections: Vec<ExternalConnection>,
}

impl SrtorComptime {
    /// The interface of the instance.
    pub closed spec fn kind(&self) -> AnyIface {
        self.iface
    }

    pub closed spec fn map_of(&self) -> Seq<(u32, u32)> {
        self.levels_internal2external.view()
    }

    pub closed spec fn connections_of(&self) -> Seq<ExternalConnection> {
        self.external_connections@
    }

    pub open spec fn wf(&self, db: Program) -> bool {
        &&& crate::get_rtor_impl::levelmap::strictly_sorted(self.map_of())
        &&& valid(db, self.kind())
    }

    /// `inv` is what the `j`-th acceptor of the `c`-th registered connection is invoked with:
    /// the `j`-th level at which that connection accepts, sent through the map.
    pub open spec fn conn_invocation(&self, db: Program, c: int, j: int, inv: Invocation) -> bool {
        let conn = self.connections_of()[c];
        let calls = accept_levels_spec(db, self.kind(), conn.side, conn.part@);
        &&& 0 <= c < self.connections_of().len()
        &&& 0 <= j < conn.inputs@.len()
        &&& j < calls.len()
        &&& conn.inputs@[j] == Comm::Data(inv.acceptor)
        &&& lookup(self.map_of(), calls[j]) == Some(inv.bound)
    }

    /// `inv` is one of the invocations that this session makes in a pass.
    pub open spec fn is_invocation(&self, db: Program, inv: Invocation) -> bool {
        exists|c: int, j: int| #[trigger] self.conn_invocation(db, c, j, inv)
    }

    /// How many acceptors the `c`-th registered connection pairs with accepting levels.
    pub open spec fn conn_len(&self, db: Program, c: int) -> int {
        let conn = self.connections_of()[c];
        let n = accept_levels_spec(db, self.kind(), conn.side, conn.part@).len();
        if n < conn.inputs@.len() {
            n as int
        } else {
            conn.inputs@.len() as int
        }
    }

    /// The invocations that the first `n` acceptors of the `c`-th connection receive, in order.
    pub open spec fn conn_invs(&self, db: Program, c: int, n: int) -> Seq<Invocation>
        decreases n,
    {
        if n <= 0 {
            Seq::empty()
        } else {
            let conn = self.connections_of()[c];
            let calls = accept_levels_spec(db, self.kind(), conn.side, conn.part@);
            let j = n - 1;
            self.conn_invs(db, c, n - 1) + if j < calls.len() && j < conn.inputs@.len()
                && conn.inputs@[j] is Data && lookup(self.map_of(), calls[j]) is Some {
                seq![
                    Invocation {
                        acceptor: conn.inputs@[j]->Data_0,
                        bound: lookup(self.map_of(), calls[j])->Some_0,
                    },
                ]
            } else {
                Seq::empty()
            }
        }
    }

    /// The invocations of the first `c` connections, in order.
    pub open spec fn invs_upto(&self, db: Program, c: int) -> Seq<Invocation>
        decreases c,
    {
        if c <= 0 {
            Seq::empty()
        } else {
            self.invs_upto(db, c - 1) + self.conn_invs(db, c - 1, self.conn_len(db, c - 1))
        }
    }

    /// The invocations that this session makes in a pass, in the order it makes them.
    pub open spec fn invocation_seq(&self, db: Program) -> Seq<Invocation> {
        self.invs_upto(db, self.connections_of().len() as int)
    }

    /// A session for an instance with interface `iface`, whose levels start out equal to its
    /// intrinsic ones (and level 0, so that a bound that arrives first has a floor to raise).
    pub fn new(iface: AnyIface, db: &Program) -> (r: Self)
        requires
            db.wf(),
            valid(*db, iface),
        ensures
            r.wf(*db),
            r.kind() == iface,
            r.connections_of().len() == 0,
            forall|q: u32|
                lookup(r.map_of(), q) == (if q == 0 || all_levels(*db, iface).contains(Level(q)) {
                    Some(q)
                } else {
                    None::<u32>
                }),
    {
        let levels = iface.levels(db);
        assert forall|q: u32| levels@.contains(Level(q)) == all_levels(*db, iface).contains(Level(q)) by {}
        SrtorComptime {
            iface,
            levels_internal2external: LevelMap::identity(&levels),
            external_connections: Vec::new(),
        }
    }

    /// The external level of the intrinsic level `k`, if the session has it.
    pub fn external(&self, k: Level) -> (r: Option<Level>)
        requires
            crate::get_rtor_impl::levelmap::strictly_sorted(self.map_of()),
        ensures
            r matches Some(l) ==> lookup(self.map_of(), k.0) == Some(l.0),
            r is None ==> lookup(self.map_of(), k.0) is None,
    {
        match self.levels_internal2external.get(k.0) {
            Some(l) => Some(Level(l)),
            None => None,
        }
    }

    /// The external levels of the levels at which this instance communicates.
    pub fn levels(&self, db: &Program) -> (r: Vec<Level>)
        requires
            self.wf(*db),
            db.wf(),
        ensures
            forall|l: Level|
                r@.contains(l) <==> exists|k: Level|
                    #![trigger all_levels(*db, self.kind()).contains(k)]
                    all_levels(*db, self.kind()).contains(k) && lookup(self.map_of(), k.0) == Some(l.0),
    {
        let intrinsic = self.iface.levels(db);
        let mut out: Vec<Level> = Vec::new();
        let mut i: usize = 0;
        while i < intrinsic.len()
            invariant
                crate::get_rtor_impl::levelmap::strictly_sorted(self.map_of()),
                i <= intrinsic@.len(),
                forall|l: Level|
                    out@.contains(l) <==> exists|j: int|
                        0 <= j < i && lookup(self.map_of(), (#[trigger] intrinsic@[j]).0) == Some(l.0),
            decreases intrinsic@.len() - i,
        {
            let ghost before = out@;
            if let Some(l) = self.external(intrinsic[i]) {
                out.push(l);
            }
            proof {
                assert forall|l: Level|
                    out@.contains(l) <==> exists|j: int|
                        0 <= j < i + 1 && lookup(self.map_of(), (#[trigger] intrinsic@[j]).0) == Some(l.0) by {
                    if out@.contains(l) && !before.contains(l) {
                        let k = choose|k: int| 0 <= k < out@.len() && out@[k] == l;
                        assert(k == before.len());
                        assert(lookup(self.map_of(), intrinsic@[i as int].0) == Some(l.0));
                    }
                    if before.contains(l) {
                        let k = choose|k: int| 0 <= k < before.len() && before[k] == l;
                        assert(out@[k] == l);
                    }
                    if lookup(self.map_of(), intrinsic@[i as int].0) == Some(l.0) {
                        assert(out@[out@.len() - 1] == l);
                    }
                    if exists|j: int| 0 <= j < i && lookup(self.map_of(), (#[trigger] intrinsic@[j]).0) == Some(l.0) {
                        assert(before.contains(l));
                    }
                }
            }
            i += 1;
        }
        proof {
            assert forall|l: Level|
                out@.contains(l) <==> exists|k: Level|
                    #![trigger all_levels(*db, self.kind()).contains(k)]
                    all_levels(*db, self.kind()).contains(k) && lookup(self.map_of(), k.0) == Some(l.0) by {
                if out@.contains(l) {
                    let j = choose|j: int|
                        0 <= j < intrinsic@.len() && lookup(self.map_of(), (#[trigger] intrinsic@[j]).0) == Some(l.0);
                    assert(intrinsic@.contains(intrinsic@[j]));
                    assert(all_levels(*db, self.kind()).contains(intrinsic@[j]));
                }
                if exists|k: Level|
                    #![trigger all_levels(*db, self.kind()).contains(k)]
                    all_levels(*db, self.kind()).contains(k) && lookup(self.map_of(), k.0) == Some(l.0) {
                    let k = choose|k: Level|
                        #![trigger all_levels(*db, self.kind()).contains(k)]
                        all_levels(*db, self.kind()).contains(k) && lookup(self.map_of(), k.0) == Some(l.0);
                    assert(intrinsic@.contains(k));
                    let j = choose|j: int| 0 <= j < intrinsic@.len() && intrinsic@[j] == k;
                    assert(lookup(self.map_of(), intrinsic@[j].0) == Some(l.0));
                }
            }
        }
        out
    }

    /// The stream of acceptors of `side` of the part `part` of this session, which is the session
    /// `me` among its siblings: one acceptor per level of `immut_provide`, notifications kept.
    pub fn provide(&self, db: &Program, me: usize, part: &Vec<InstId>, side: Side) -> (r: Vec<
        Comm<Acceptor>,
    >)
        requires
            self.wf(*db),
            db.wf(),
        ensures
            r@.len() == provide_spec(*db, self.kind(), side, 0, part@, depth(*db)).len(),
            forall|j: int|
                0 <= j < r@.len() ==> (#[trigger] r@[j] == match provide_spec(
                    *db,
                    self.kind(),
                    side,
                    0,
                    part@,
                    depth(*db),
                )[j] {
                    Comm::Data(l) => Comm::Data(Acceptor { target: me, level: l }),
                    Comm::Notify => Comm::Notify,
                }),
    {
        let s = provide_fuel(db, self.iface, side, Level(0), part, db.ctors.len());
        let mut r: Vec<Comm<Acceptor>> = Vec::new();
        let mut i: usize = 0;
        while i < s.len()
            invariant
                i <= s@.len(),
                r@.len() == i,
                forall|j: int|
                    0 <= j < i ==> (#[trigger] r@[j] == match s@[j] {
                        Comm::Data(l) => Comm::Data(Acceptor { target: me, level: l }),
                        Comm::Notify => Comm::Notify,
                    }),
            decreases s@.len() - i,
        {
            let c = match s[i] {
                Comm::Data(l) => Comm::Data(Acceptor { target: me, level: l }),
                Comm::Notify => Comm::Notify,
            };
            r.push(c);
            i += 1;
        }
        r
    }

    /// Registers the stream of acceptors `inputs` of a downstream session on `side` of the part
    /// `part` of this session.
    pub fn accept(&mut self, part: Vec<InstId>, side: Side, inputs: Vec<Comm<Acceptor>>)
        ensures
            final(self).kind() == old(self).kind(),
            final(self).map_of() == old(self).map_of(),
            final(self).connections_of() == old(self).connections_of().push(
                ExternalConnection { part, side, inputs },
            ),
    {
        self.external_connections.push(ExternalConnection { part, side, inputs });
    }

    /// Requires the levels of `side` of the part `part` to be at least `lower_bound`, or one more
    /// where the communication before them was outgoing, from the level at which the first
    /// interface that `side_exact` lists there starts. A one-input reactor takes bounds on its
    /// left side only. Does nothing where the side lists no interface or the bound is past the
    /// largest level.
    pub fn lower_bound(
        &mut self,
        db: &Program,
        part: &Vec<InstId>,
        side: Side,
        lower_bound: Level,
        last_direction: FlowDirection,
    )
        requires
            old(self).wf(*db),
            db.wf(),
        ensures
            final(self).wf(*db),
            final(self).kind() == old(self).kind(),
            final(self).connections_of() == old(self).connections_of(),
            ({
                let firsts = side_spec(*db, old(self).kind(), SideMatch::One(side), part@, depth(*db));
                let bound = if last_direction == FlowDirection::In {
                    lower_bound.0 as int
                } else {
                    lower_bound.0 + 1
                };
                let ignored = old(self).kind() is Fun && side == Side::Right;
                if !ignored && firsts.len() > 0 && bound + old(self).map_of().len() <= u32::MAX {
                    final(self).map_of() == adjust_spec(old(self).map_of(), bound, firsts[0].0.0)
                } else {
                    final(self).map_of() == old(self).map_of()
                }
            }),
    {
        if let AnyIface::Fun(_) = self.iface {
            if side == Side::Right {
                return;
            }
        }
        let firsts = self.iface.side(db, SideMatch::One(side), part);
        if firsts.len() == 0 {
            return;
        }
        let bound: u64 = if last_direction == FlowDirection::In {
            lower_bound.0 as u64
        } else {
            lower_bound.0 as u64 + 1
        };
        let n = self.levels_internal2external.len();
        if n as u64 > u32::MAX as u64 || bound > u32::MAX as u64 - n as u64 {
            return;
        }
        self.levels_internal2external.adjust(Level(bound as u32), firsts[0].0);
    }

    /// The invocations that this session makes in a pass.
    pub fn invocations(&self, db: &Program) -> (r: Vec<Invocation>)
        requires
            self.wf(*db),
            db.wf(),
        ensures
            forall|inv: Invocation| r@.contains(inv) <==> self.is_invocation(*db, inv),
            r@ == self.invocation_seq(*db),
    {
        let mut r: Vec<Invocation> = Vec::new();
        let mut c: usize = 0;
        while c < self.external_connections.len()
            invariant
                self.wf(*db),
                db.wf(),
                c <= self.connections_of().len(),
                r@ == self.invs_upto(*db, c as int),
                forall|inv: Invocation|
                    r@.contains(inv) <==> exists|c2: int, j: int|
                        c2 < c && #[trigger] self.conn_invocation(*db, c2, j, inv),
            decreases self.connections_of().len() - c,
        {
            let ghost base = r@;
            let conn = &self.external_connections[c];
            let calls = accept_levels(db, self.iface, conn.side, &conn.part);
            let mut j: usize = 0;
            while j < calls.len() && j < conn.inputs.len()
                invariant
                    self.wf(*db),
                    c < self.connections_of().len(),
                    *conn == self.connections_of()[c as int],
                    calls@ == accept_levels_spec(*db, self.kind(), conn.side, conn.part@),
                    j <= calls@.len(),
                    j <= conn.inputs@.len(),
                    base == self.invs_upto(*db, c as int),
                    r@ == base + self.conn_invs(*db, c as int, j as int),
                    forall|inv: Invocation|
                        r@.contains(inv) <==> (exists|c2: int, j2: int|
                            c2 < c && #[trigger] self.conn_invocation(*db, c2, j2, inv)) || (exists|
                            j2: int,
                        | j2 < j && #[trigger] self.conn_invocation(*db, c as int, j2, inv)),
                decreases calls@.len() - j,
            {
                let ghost before = r@;
                if let Comm::Data(acceptor) = conn.inputs[j] {
                    if let Some(bound) = self.levels_internal2external.get(calls[j]) {
                        r.push(Invocation { acceptor, bound });
                    }
                }
                assert(r@ =~= base + self.conn_invs(*db, c as int, j + 1));
                proof {
                    assert forall|inv: Invocation|
                        r@.contains(inv) <==> (before.contains(inv) || self.conn_invocation(
                            *db,
                            c as int,
                            j as int,
                            inv,
                        )) by {
                        if r@.contains(inv) && !before.contains(inv) {
                            let k = choose|k: int| 0 <= k < r@.len() && r@[k] == inv;
                            assert(k == before.len());
                        }
                        if self.conn_invocation(*db, c as int, j as int, inv) {
                            assert(r@[before.len() as int] == inv);
                        }
                        if before.contains(inv) {
                            let k = choose|k: int| 0 <= k < before.len() && before[k] == inv;
                            assert(r@[k] == inv);
                        }
                    }
                    assert forall|inv: Invocation|
                        r@.contains(inv) <==> (exists|c2: int, j2: int|
                            c2 < c && #[trigger] self.conn_invocation(*db, c2, j2, inv)) || (exists|
                            j2: int,
                        | j2 < j + 1 && #[trigger] self.conn_invocation(*db, c as int, j2, inv)) by {
                        if exists|j2: int|
                            j2 < j + 1 && #[trigger] self.conn_invocation(*db, c as int, j2, inv) {
                            let j2 = choose|j2: int|
                                j2 < j + 1 && #[trigger] self.conn_invocation(*db, c as int, j2, inv);
                            if j2 < j {
                                assert(before.contains(inv));
                            }
                        }
                        if exists|c2: int, j2: int|
                            c2 < c && #[trigger] self.conn_invocation(*db, c2, j2, inv) {
                            assert(before.contains(inv));
                        }
                        if r@.contains(inv) {
                            if before.contains(inv) {
                                if exists|j2: int|
                                    j2 < j && #[trigger] self.conn_invocation(*db, c as int, j2, inv) {
                                    let j2 = choose|j2: int|
                                        j2 < j && #[trigger] self.conn_invocation(*db, c as int, j2, inv);
                                    assert(j2 < j + 1 && self.conn_invocation(*db, c as int, j2, inv));
                                }
                            } else {
                                assert(self.conn_invocation(*db, c as int, j as int, inv));
                            }
                        }
                    }
                }
                j += 1;
            }
            proof {
                assert(j == self.conn_len(*db, c as int));
                assert(r@ =~= self.invs_upto(*db, c + 1));
                assert forall|inv: Invocation|
                    r@.contains(inv) <==> exists|c2: int, j2: int|
                        c2 < c + 1 && #[trigger] self.conn_invocation(*db, c2, j2, inv) by {
                    if exists|c2: int, j2: int|
                        c2 < c + 1 && #[trigger] self.conn_invocation(*db, c2, j2, inv) {
                        let (c2, j2) = choose|c2: int, j2: int|
                            c2 < c + 1 && #[trigger] self.conn_invocation(*db, c2, j2, inv);
                        if c2 == c {
                            assert(j2 < j);
                        }
                    }
                }
            }
            c += 1;
        }
        proof {
            assert forall|inv: Invocation| r@.contains(inv) <==> self.is_invocation(*db, inv) by {
                if self.is_invocation(*db, inv) {
                    let (c2, j2) = choose|c2: int, j2: int| #[trigger] self.conn_invocation(*db, c2, j2, inv);
                    assert(c2 < c);
                }
            }
        }
        r
    }
}

/// The bound that `inv` carries is in force in `children`. A bound for a session that does not
/// exist, or one past the largest level, is never applied and counts as in force.
pub open spec fn holds(children: Seq<SrtorComptime>, inv: Invocation) -> bool {
    let t = inv.acceptor.target as int;
    t >= children.len() || inv.bound + children[t].map_of().len() > u32::MAX || bound_holds(
        children[t].map_of(),
        inv.bound as int,
        inv.acceptor.level.0,
    )
}

pub open spec fn sessions_wf(db: Program, children: Seq<SrtorComptime>) -> bool {
    forall|i: int| 0 <= i < children.len() ==> (#[trigger] children[i]).wf(db)
}

/// The sessions have the same interfaces and connections.
pub open spec fn same_shape(a: Seq<SrtorComptime>, b: Seq<SrtorComptime>) -> bool {
    &&& a.len() == b.len()
    &&& forall|i: int|
        0 <= i < a.len() ==> (#[trigger] a[i]).kind() == b[i].kind() && a[i].connections_of()
            == b[i].connections_of()
}

/// The sessions are in the same state.
pub open spec fn same_sessions(a: Seq<SrtorComptime>, b: Seq<SrtorComptime>) -> bool {
    &&& same_shape(a, b)
    &&& forall|i: int| 0 <= i < a.len() ==> (#[trigger] a[i]).map_of() == b[i].map_of()
}

/// Sessions in the same state make the same invocations.
pub proof fn lemma_same_invocations(db: Program, a: SrtorComptime, b: SrtorComptime, inv: Invocation)
    requires
        a.kind() == b.kind(),
        a.map_of() == b.map_of(),
        a.connections_of() == b.connections_of(),
    ensures
        a.is_invocation(db, inv) == b.is_invocation(db, inv),
{
    if a.is_invocation(db, inv) {
        let (c, j) = choose|c: int, j: int| #[trigger] a.conn_invocation(db, c, j, inv);
        assert(b.conn_invocation(db, c, j, inv));
    }
    if b.is_invocation(db, inv) {
        let (c, j) = choose|c: int, j: int| #[trigger] b.conn_invocation(db, c, j, inv);
        assert(a.conn_invocation(db, c, j, inv));
    }
}

/// Why the level analysis of a composite gave up.
#[derive(Debug, Clone, Copy, PartialEq, Eq, Structural)]
pub enum FixpointError {
    /// The levels still changed after the allowed number of passes (a connection loop raises
    /// them without end).
    NoConvergence,
}

/// The maps of the sessions.
pub open spec fn maps_of(children: Seq<SrtorComptime>) -> Seq<Seq<(u32, u32)>> {
    children.map_values(|s: SrtorComptime| s.map_of())
}

/// The maps once the acceptor of `inv` has been invoked: its session's map gets the bound from
/// its level on, unless the session does not exist or the bound is past the largest level.
pub open spec fn apply_map(ms: Seq<Seq<(u32, u32)>>, inv: Invocation) -> Seq<Seq<(u32, u32)>> {
    let t = inv.acceptor.target as int;
    if t < ms.len() && inv.bound + ms[t].len() <= u32::MAX {
        ms.update(t, adjust_spec(ms[t], inv.bound as int, inv.acceptor.level.0))
    } else {
        ms
    }
}

/// The maps once the acceptors of `invs` have been invoked in turn.
pub open spec fn apply_all(ms: Seq<Seq<(u32, u32)>>, invs: Seq<Invocation>) -> Seq<Seq<(u32, u32)>>
    decreases invs.len(),
{
    if invs.len() == 0 {
        ms
    } else {
        apply_map(apply_all(ms, invs.drop_last()), invs.last())
    }
}

/// Every bound that any session's acceptors carry is in force: a pass would change nothing.
pub open spec fn all_hold(db: Program, children: Seq<SrtorComptime>) -> bool {
    forall|a: int, inv: Invocation|
        0 <= a < children.len() && #[trigger] children[a].is_invocation(db, inv) ==> holds(children, inv)
}

/// A bound that holds in a map still holds once values are raised under the same keys.
pub proof fn lemma_bound_holds_raised(s: Seq<(u32, u32)>, t: Seq<(u32, u32)>, lb: int, k: u32)
    requires
        crate::get_rtor_impl::levelmap::strictly_sorted(s),
        s.len() == t.len(),
        forall|j: int| 0 <= j < s.len() ==> #[trigger] t[j].0 == s[j].0 && t[j].1 >= s[j].1,
        bound_holds(s, lb, k),
    ensures
        bound_holds(t, lb, k),
{
    crate::get_rtor_impl::levelmap::lemma_start_exists(s, k);
    let p = crate::get_rtor_impl::levelmap::start_of(s, k);
    assert forall|j: int| 0 <= j < p implies #[trigger] t[j].0 < k by {
        assert(s[j].0 < k);
    }
    if p < s.len() {
        assert(t[p].0 == s[p].0);
    }
    assert(crate::get_rtor_impl::levelmap::is_start(t, k, p));
    crate::get_rtor_impl::levelmap::lemma_start_of(t, k, p);
}

/// Invoking one acceptor keeps in force every bound that was in force.
pub proof fn lemma_holds_after_apply(
    before: Seq<SrtorComptime>,
    after: Seq<SrtorComptime>,
    applied: Invocation,
    other: Invocation,
)
    requires
        after.len() == before.len(),
        maps_of(after) == apply_map(maps_of(before), applied),
        forall|i: int|
            0 <= i < before.len() ==> crate::get_rtor_impl::levelmap::strictly_sorted(
                (#[trigger] before[i]).map_of(),
            ),
        holds(before, other),
    ensures
        holds(after, other),
{
    let t = other.acceptor.target as int;
    if t < before.len() {
        assert(maps_of(after)[t] == after[t].map_of());
        assert(maps_of(before)[t] == before[t].map_of());
        let ta = applied.acceptor.target as int;
        if ta == t && applied.bound + before[t].map_of().len() <= u32::MAX {
            crate::get_rtor_impl::levelmap::lemma_adjust_monotone(
                before[t].map_of(),
                applied.bound as int,
                applied.acceptor.level.0,
            );
            if other.bound + before[t].map_of().len() <= u32::MAX {
                lemma_bound_holds_raised(
                    before[t].map_of(),
                    after[t].map_of(),
                    other.bound as int,
                    other.acceptor.level.0,
                );
            }
        }
    }
}

/// Sessions in the same state agree on which bounds are in force.
pub proof fn lemma_all_hold_same(db: Program, a: Seq<SrtorComptime>, b: Seq<SrtorComptime>)
    requires
        same_sessions(a, b),
    ensures
        all_hold(db, a) == all_hold(db, b),
{
    assert forall|i: int, inv: Invocation|
        0 <= i < a.len() implies #[trigger] a[i].is_invocation(db, inv) == b[i].is_invocation(db, inv) by {
        lemma_same_invocations(db, a[i], b[i], inv);
    }
    assert forall|inv: Invocation| holds(a, inv) == holds(b, inv) by {}
    if all_hold(db, a) {
        assert forall|i: int, inv: Invocation|
            0 <= i < b.len() && #[trigger] b[i].is_invocation(db, inv) implies holds(b, inv) by {
            assert(a[i].is_invocation(db, inv));
        }
    }
    if all_hold(db, b) {
        assert forall|i: int, inv: Invocation|
            0 <= i < a.len() && #[trigger] a[i].is_invocation(db, inv) implies holds(a, inv) by {
            assert(b[i].is_invocation(db, inv));
        }
    }
}

impl SrtorComptime {
    /// Invokes one acceptor: requires the levels of its session from its intrinsic level on to be
    /// at least the bound.
    pub fn apply(children: &mut Vec<SrtorComptime>, inv: Invocation, db: &Program) -> (r:
        FixpointingStatus)
        requires
            sessions_wf(*db, old(children)@),
        ensures
            sessions_wf(*db, final(children)@),
            same_shape(final(children)@, old(children)@),
            maps_of(final(children)@) == apply_map(maps_of(old(children)@), inv),
            holds(final(children)@, inv),
            r == FixpointingStatus::Unchanged <==> holds(old(children)@, inv),
            r == FixpointingStatus::Unchanged ==> same_sessions(final(children)@, old(children)@),
    {
        let t = inv.acceptor.target;
        if t >= children.len() {
            assert(maps_of(children@) =~= apply_map(maps_of(old(children)@), inv));
            return FixpointingStatus::Unchanged;
        }
        let n = children[t].levels_internal2external.len();
        if n as u64 > u32::MAX as u64 || inv.bound as u64 > u32::MAX as u64 - n as u64 {
            assert(maps_of(children@) =~= apply_map(maps_of(old(children)@), inv));
            return FixpointingStatus::Unchanged;
        }
        let ghost old_children = children@;
        let mut s = children.remove(t);
        let r = s.levels_internal2external.adjust(Level(inv.bound), inv.acceptor.level);
        proof {
            crate::get_rtor_impl::levelmap::lemma_adjust_monotone(
                old_children[t as int].map_of(),
                inv.bound as int,
                inv.acceptor.level.0,
            );
            crate::get_rtor_impl::levelmap::lemma_adjust_establishes(
                old_children[t as int].map_of(),
                inv.bound as int,
                inv.acceptor.level.0,
            );
        }
        children.insert(t, s);
        proof {
            assert(children@ =~= old_children.update(t as int, s));
            assert(maps_of(children@) =~= apply_map(maps_of(old_children), inv));
        }
        r
    }

    /// Makes one pass of session `a`: invokes each of its acceptors, in order, with the external
    /// level at which it is reached. Reports `Changed` exactly where some bound was not yet in
    /// force; afterwards every one is.
    pub fn iterate_levels(children: &mut Vec<SrtorComptime>, a: usize, db: &Program) -> (r:
        FixpointingStatus)
        requires
            db.wf(),
            sessions_wf(*db, old(children)@),
            a < old(children)@.len(),
        ensures
            sessions_wf(*db, final(children)@),
            same_shape(final(children)@, old(children)@),
            maps_of(final(children)@) == apply_all(
                maps_of(old(children)@),
                old(children)@[a as int].invocation_seq(*db),
            ),
            forall|inv: Invocation|
                old(children)@[a as int].is_invocation(*db, inv) ==> holds(final(children)@, inv),
            r == FixpointingStatus::Unchanged <==> forall|inv: Invocation|
                old(children)@[a as int].is_invocation(*db, inv) ==> holds(old(children)@, inv),
            r == FixpointingStatus::Unchanged ==> same_sessions(final(children)@, old(children)@),
    {
        let invs = children[a].invocations(db);
        let ghost start = children@;
        let mut changed = FixpointingStatus::Unchanged;
        let mut i: usize = 0;
        assert(maps_of(children@) == apply_all(maps_of(start), invs@.subrange(0, 0)));
        while i < invs.len()
            invariant
                db.wf(),
                sessions_wf(*db, children@),
                same_shape(children@, start),
                start == old(children)@,
                i <= invs@.len(),
                invs@ == start[a as int].invocation_seq(*db),
                forall|inv: Invocation| invs@.contains(inv) <==> start[a as int].is_invocation(*db, inv),
                maps_of(children@) == apply_all(maps_of(start), invs@.subrange(0, i as int)),
                forall|k: int| 0 <= k < i ==> holds(children@, #[trigger] invs@[k]),
                changed == FixpointingStatus::Unchanged ==> same_sessions(children@, start),
                changed == FixpointingStatus::Changed ==> exists|k: int|
                    0 <= k < i && !holds(start, #[trigger] invs@[k]),
            decreases invs@.len() - i,
        {
            let ghost before = children@;
            let r = SrtorComptime::apply(children, invs[i], db);
            proof {
                assert forall|k: int| 0 <= k < i + 1 implies holds(children@, #[trigger] invs@[k]) by {
                    if k < i {
                        lemma_holds_after_apply(before, children@, invs@[i as int], invs@[k]);
                    }
                }
                assert(invs@.subrange(0, i + 1).drop_last() =~= invs@.subrange(0, i as int));
                if r == FixpointingStatus::Changed && changed == FixpointingStatus::Unchanged {
                    assert(!holds(start, invs@[i as int]));
                }
            }
            changed = changed.or(r);
            i += 1;
        }
        proof {
            assert(invs@.subrange(0, invs@.len() as int) =~= invs@);
            assert forall|inv: Invocation|
                old(children)@[a as int].is_invocation(*db, inv) implies holds(children@, inv) by {
                assert(invs@.contains(inv));
                let k = choose|k: int| 0 <= k < invs@.len() && invs@[k] == inv;
            }
            if changed == FixpointingStatus::Unchanged {
                assert forall|inv: Invocation|
                    old(children)@[a as int].is_invocation(*db, inv) implies holds(old(children)@, inv) by {
                    assert(invs@.contains(inv));
                }
            } else {
                let k = choose|k: int| 0 <= k < invs@.len() && !holds(start, #[trigger] invs@[k]);
                assert(start[a as int].is_invocation(*db, invs@[k]));
            }
        }
        changed
    }

    /// Runs passes over all sessions until one pass changes nothing, at most `max_rounds` of them.
    /// Succeeds at once, changing nothing, where every bound is already in force; on success,
    /// every bound that any session's acceptors carry is in force, so a further pass would change
    /// nothing. Fails only where the passes kept changing levels.
    pub fn fixpoint(children: &mut Vec<SrtorComptime>, db: &Program, max_rounds: usize) -> (r:
        Result<(), FixpointError>)
        requires
            db.wf(),
            sessions_wf(*db, old(children)@),
        ensures
            sessions_wf(*db, final(children)@),
            same_shape(final(children)@, old(children)@),
            r is Ok ==> all_hold(*db, final(children)@),
            max_rounds > 0 && all_hold(*db, old(children)@) ==> r is Ok && same_sessions(
                final(children)@,
                old(children)@,
            ),
            r is Err ==> max_rounds == 0 || !all_hold(*db, old(children)@),
    {
        let mut round: usize = 0;
        assert(same_sessions(children@, old(children)@));
        while round < max_rounds
            invariant
                db.wf(),
                sessions_wf(*db, children@),
                same_shape(children@, old(children)@),
                all_hold(*db, old(children)@) ==> round == 0 && same_sessions(
                    children@,
                    old(children)@,
                ),
            decreases max_rounds - round,
        {
            let ghost start = children@;
            proof {
                if all_hold(*db, old(children)@) {
                    lemma_all_hold_same(*db, start, old(children)@);
                }
            }
            let mut changed = FixpointingStatus::Unchanged;
            let mut a: usize = 0;
            assert(same_sessions(children@, start));
            while a < children.len()
                invariant
                    db.wf(),
                    sessions_wf(*db, children@),
                    same_shape(children@, old(children)@),
                    same_shape(children@, start),
                    a <= children@.len(),
                    changed == FixpointingStatus::Unchanged ==> same_sessions(children@, start)
                        && forall|a2: int, inv: Invocation|
                        0 <= a2 < a && #[trigger] start[a2].is_invocation(*db, inv) ==> holds(
                            children@,
                            inv,
                        ),
                    all_hold(*db, start) ==> changed == FixpointingStatus::Unchanged,
                decreases children@.len() - a,
            {
                let ghost before = children@;
                proof {
                    if all_hold(*db, start) {
                        assert forall|inv: Invocation|
                            before[a as int].is_invocation(*db, inv) implies holds(before, inv) by {
                            lemma_same_invocations(*db, start[a as int], before[a as int], inv);
                            assert(start[a as int].is_invocation(*db, inv));
                        }
                    }
                }
                let r = SrtorComptime::iterate_levels(children, a, db);
                proof {
                    if changed == FixpointingStatus::Unchanged && r == FixpointingStatus::Unchanged {
                        assert forall|a2: int, inv: Invocation|
                            0 <= a2 < a + 1 && #[trigger] start[a2].is_invocation(*db, inv) implies holds(
                            children@,
                            inv,
                        ) by {
                            if a2 < a {
                                assert(holds(before, inv));
                            } else {
                                lemma_same_invocations(*db, start[a2], before[a2], inv);
                            }
                        }
                    }
                }
                changed = changed.or(r);
                a += 1;
            }
            if changed == FixpointingStatus::Unchanged {
                proof {
                    assert forall|a2: int, inv: Invocation|
                        0 <= a2 < children@.len() && #[trigger] children@[a2].is_invocation(
                            *db,
                            inv,
                        ) implies holds(children@, inv) by {
                        lemma_same_invocations(*db, start[a2], children@[a2], inv);
                    }
                }
                return Ok(());
            }
            round += 1;
        }
        Err(FixpointError::NoConvergence)
    }
}

/// `i` is the first index of `insts` whose id is `id`.
pub open spec fn first_id_at(insts: Seq<Inst>, id: InstId, i: int) -> bool {
    &&& 0 <= i < insts.len()
    &&& insts[i].id == id
    &&& forall|j: int| 0 <= j < i ==> #[trigger] insts[j].id != id
}

/// The first index of `insts` whose id is `id`, if any.
pub open spec fn index_of_id(insts: Seq<Inst>, id: InstId) -> Option<int> {
    if exists|i: int| first_id_at(insts, id, i) {
        Some(choose|i: int| first_id_at(insts, id, i))
    } else {
        None
    }
}

/// The stream `s` of `provide` turned into acceptors of session `p`.
pub open spec fn acceptors_of(s: Seq<Comm<Level>>, p: usize) -> Seq<Comm<Acceptor>> {
    s.map_values(
        |c: Comm<Level>|
            match c {
                Comm::Data(l) => Comm::Data(Acceptor { target: p, level: l }),
                Comm::Notify => Comm::Notify,
            },
    )
}

/// A registered connection, as its part, side and acceptor stream.
pub open spec fn registration_view(e: ExternalConnection) -> (Seq<InstId>, Side, Seq<Comm<Acceptor>>) {
    (e.part@, e.side, e.inputs@)
}

/// The connections registered on a session, as parts, sides and acceptor streams.
pub open spec fn conns_view(s: SrtorComptime) -> Seq<(Seq<InstId>, Side, Seq<Comm<Acceptor>>)> {
    s.connections_of().map_values(|e: ExternalConnection| registration_view(e))
}

/// The interfaces of the sessions.
pub open spec fn kinds_of(children: Seq<SrtorComptime>) -> Seq<AnyIface> {
    children.map_values(|s: SrtorComptime| s.kind())
}

/// What the connection `c` registers, and on which session: on the session of the first
/// instance of its left end, for the rest of that end on the right side, the acceptors of the
/// left side of the rest of its right end, made by the session of the right end's first
/// instance. `None` where an end is empty or names no session.
pub open spec fn reg_of(db: Program, insts: Seq<Inst>, kinds: Seq<AnyIface>, c: Connection) -> Option<
    (int, (Seq<InstId>, Side, Seq<Comm<Acceptor>>)),
> {
    let l = c.left.iref@;
    let r = c.right.iref@;
    if l.len() > 0 && r.len() > 0 {
        match (index_of_id(insts, r[0].id), index_of_id(insts, l[0].id)) {
            (Some(p), Some(q)) => if p < kinds.len() && q < kinds.len() {
                Some(
                    (
                        q,
                        (
                            ids_of(l).drop_first(),
                            Side::Right,
                            acceptors_of(
                                provide_spec(
                                    db,
                                    kinds[p],
                                    Side::Left,
                                    0,
                                    ids_of(r).drop_first(),
                                    depth(db),
                                ),
                                p as usize,
                            ),
                        ),
                    ),
                )
            } else {
                None
            },
            _ => None,
        }
    } else {
        None
    }
}

/// What the first `n` connections register on session `q`, in order.
pub open spec fn regs(
    db: Program,
    insts: Seq<Inst>,
    kinds: Seq<AnyIface>,
    conns: Seq<Connection>,
    q: int,
    n: int,
) -> Seq<(Seq<InstId>, Side, Seq<Comm<Acceptor>>)>
    decreases n,
{
    if n <= 0 {
        Seq::empty()
    } else {
        regs(db, insts, kinds, conns, q, n - 1) + match reg_of(db, insts, kinds, conns[n - 1]) {
            Some((q2, e)) => if q2 == q {
                seq![e]
            } else {
                Seq::empty()
            },
            None => Seq::empty(),
        }
    }
}

/// The index of the instance `id` among `insts`.
fn inst_index(insts: &Vec<Inst>, id: InstId) -> (r: Option<usize>)
    ensures
        r matches Some(i) ==> index_of_id(insts@, id) == Some(i as int),
        r is None ==> index_of_id(insts@, id) is None,
{
    let mut i: usize = 0;
    while i < insts.len()
        invariant
            i <= insts@.len(),
            forall|j: int| 0 <= j < i ==> #[trigger] insts@[j].id != id,
        decreases insts@.len() - i,
    {
        if insts[i].id == id {
            proof {
                assert(first_id_at(insts@, id, i as int));
                let k = choose|k: int| first_id_at(insts@, id, k);
                if k < i {
                    assert(insts@[k].id != id);
                } else if k > i {
                    assert(insts@[i as int].id != id);
                }
            }
            return Some(i);
        }
        i += 1;
    }
    proof {
        if exists|k: int| first_id_at(insts@, id, k) {
            let k = choose|k: int| first_id_at(insts@, id, k);
            assert(insts@[k].id != id);
        }
    }
    None
}

/// The ids of a path after its first instance.
fn tail_ids(iref: &Vec<Inst>) -> (r: Vec<InstId>)
    requires
        iref@.len() > 0,
    ensures
        r@ == ids_of(iref@).drop_first(),
{
    let mut r: Vec<InstId> = Vec::new();
    let mut i: usize = 1;
    while i < iref.len()
        invariant
            1 <= i <= iref@.len(),
            r@ == ids_of(iref@).subrange(1, i as int),
        decreases iref@.len() - i,
    {
        r.push(iref[i].id);
        i += 1;
        assert(r@ =~= ids_of(iref@).subrange(1, i as int));
    }
    assert(ids_of(iref@).subrange(1, iref@.len() as int) =~= ids_of(iref@).drop_first());
    r
}

/// Registers every connection of the composite `sctor`, in order, among the sessions of its
/// instances (`children`, in the order of `sctor.insts`): the acceptors of the left side of the
/// right end go to the right side of the left end. Nothing else changes.
pub fn connect(children: &mut Vec<SrtorComptime>, db: &Program, sctor: &StructlikeCtor)
    requires
        db.wf(),
        sessions_wf(*db, old(children)@),
    ensures
        sessions_wf(*db, final(children)@),
        final(children)@.len() == old(children)@.len(),
        forall|q: int|
            0 <= q < old(children)@.len() ==> (#[trigger] final(children)@[q]).kind() == old(
                children,
            )@[q].kind() && final(children)@[q].map_of() == old(children)@[q].map_of() && conns_view(
                final(children)@[q],
            ) == conns_view(old(children)@[q]) + regs(
                *db,
                sctor.insts@,
                kinds_of(old(children)@),
                sctor.connections@,
                q,
                sctor.connections@.len() as int,
            ),
{
    let ghost kinds = kinds_of(children@);
    let mut k: usize = 0;
    while k < sctor.connections.len()
        invariant
            db.wf(),
            sessions_wf(*db, children@),
            children@.len() == old(children)@.len(),
            kinds == kinds_of(old(children)@),
            k <= sctor.connections@.len(),
            forall|q: int|
                0 <= q < old(children)@.len() ==> (#[trigger] children@[q]).kind() == old(
                    children,
                )@[q].kind() && children@[q].map_of() == old(children)@[q].map_of() && conns_view(
                    children@[q],
                ) == conns_view(old(children)@[q]) + regs(
                    *db,
                    sctor.insts@,
                    kinds,
                    sctor.connections@,
                    q,
                    k as int,
                ),
        decreases sctor.connections@.len() - k,
    {
        let ghost before = children@;
        let c = &sctor.connections[k];
        let mut done = false;
        if c.left.iref.len() > 0 && c.right.iref.len() > 0 {
            let p = inst_index(&sctor.insts, c.right.iref[0].id);
            let q = inst_index(&sctor.insts, c.left.iref[0].id);
            if let (Some(p), Some(q)) = (p, q) {
                if p < children.len() && q < children.len() {
                    let provided = children[p].provide(db, p, &tail_ids(&c.right.iref), Side::Left);
                    let part = tail_ids(&c.left.iref);
                    proof {
                        assert(children@[p as int].kind() == kinds[p as int]);
                        assert(provided@ =~= acceptors_of(
                            provide_spec(
                                *db,
                                kinds[p as int],
                                Side::Left,
                                0,
                                ids_of(c.right.iref@).drop_first(),
                                depth(*db),
                            ),
                            p,
                        ));
                    }
                    let ghost e = (part@, Side::Right, provided@);
                    let ghost old_children = children@;
                    let mut s = children.remove(q);
                    s.accept(part, Side::Right, provided);
                    children.insert(q, s);
                    proof {
                        assert(children@ =~= old_children.update(q as int, s));
                        assert(reg_of(*db, sctor.insts@, kinds, *c) == Some((q as int, e)));
                        assert forall|q2: int|
                            0 <= q2 < old(children)@.len() implies (#[trigger] children@[q2]).kind()
                            == old(children)@[q2].kind() && children@[q2].map_of() == old(
                                children,
                            )@[q2].map_of() && conns_view(children@[q2]) == conns_view(
                                old(children)@[q2],
                            ) + regs(*db, sctor.insts@, kinds, sctor.connections@, q2, k + 1) by {
                            if q2 == q {
                                assert(conns_view(children@[q2]) =~= conns_view(before[q2]).push(e));
                                assert(conns_view(children@[q2]) =~= conns_view(old(children)@[q2])
                                    + regs(*db, sctor.insts@, kinds, sctor.connections@, q2, k + 1));
                            } else {
                                assert(conns_view(children@[q2]) =~= conns_view(old(children)@[q2])
                                    + regs(*db, sctor.insts@, kinds, sctor.connections@, q2, k + 1));
                            }
                        }
                    }
                    done = true;
                }
            }
        }
        proof {
            if !done {
                assert(reg_of(*db, sctor.insts@, kinds, *c) is None);
                assert forall|q2: int|
                    0 <= q2 < old(children)@.len() implies conns_view(#[trigger] children@[q2])
                    == conns_view(old(children)@[q2]) + regs(
                        *db,
                        sctor.insts@,
                        kinds,
                        sctor.connections@,
                        q2,
                        k + 1,
                    ) by {
                    assert(regs(*db, sctor.insts@, kinds, sctor.connections@, q2, k + 1) =~= regs(
                        *db,
                        sctor.insts@,
                        kinds,
                        sctor.connections@,
                        q2,
                        k as int,
                    ));
                }
            }
        }
        k += 1;
    }
}

impl SrtorIface {
    /// Analyses the levels of this composite: one session per instance, in the order of its
    /// instances, each seeded by `SrtorComptime::new`; its connections registered by `connect`;
    /// then passes until nothing changes (at most `max_rounds`). On success, every bound that
    /// any session's acceptors carry is in force in the sessions returned.
    pub fn realize(&self, db: &Program, max_rounds: usize) -> (r: Result<
        Vec<SrtorComptime>,
        FixpointError,
    >)
        requires
            db.wf(),
            valid(*db, AnyIface::Srtor(*self)),
        ensures
            r matches Ok(children) ==> {
                let sctor = db.ctors@[self.sctor as int]->StructlikeCtor_0;
                &&& sessions_wf(*db, children@)
                &&& all_hold(*db, children@)
                &&& children@.len() == sctor.insts@.len()
                &&& forall|i: int|
                    0 <= i < children@.len() ==> (#[trigger] children@[i]).kind() == iface_spec(
                        *db,
                        sctor.insts@[i].ctor as int,
                    ) && conns_view(children@[i]) == regs(
                        *db,
                        sctor.insts@,
                        kinds_of(children@),
                        sctor.connections@,
                        i,
                        sctor.connections@.len() as int,
                    )
            },
    {
        let sctor = match &db.ctors[self.sctor] {
            Ctor::StructlikeCtor(s) => s,
            _ => {
                proof {
                    assert(false);
                }
                return Ok(Vec::new());
            },
        };
        assert(sctor.refs_within(db.ctors@.len() as int));
        let mut children: Vec<SrtorComptime> = Vec::new();
        let mut i: usize = 0;
        while i < sctor.insts.len()
            invariant
                db.wf(),
                sctor.refs_within(db.ctors@.len() as int),
                sessions_wf(*db, children@),
                i <= sctor.insts@.len(),
                children@.len() == i,
                forall|j: int|
                    0 <= j < i ==> (#[trigger] children@[j]).kind() == iface_spec(
                        *db,
                        sctor.insts@[j].ctor as int,
                    ) && children@[j].connections_of().len() == 0,
            decreases sctor.insts@.len() - i,
        {
            let iface = iface_of(db, sctor.insts[i].ctor);
            children.push(SrtorComptime::new(iface, db));
            i += 1;
        }
        let ghost fresh = children@;
        connect(&mut children, db, sctor);
        let ghost connected = children@;
        proof {
            assert(kinds_of(connected) =~= kinds_of(fresh));
            assert forall|q: int| 0 <= q < fresh.len() implies conns_view(#[trigger] fresh[q])
                =~= Seq::<(Seq<InstId>, Side, Seq<Comm<Acceptor>>)>::empty() by {}
        }
        match SrtorComptime::fixpoint(&mut children, db, max_rounds) {
            Ok(()) => {
                proof {
                    assert(kinds_of(children@) =~= kinds_of(connected));
                    assert forall|q: int| 0 <= q < children@.len() implies conns_view(
                        #[trigger] children@[q],
                    ) == conns_view(connected[q]) by {
                        assert(children@[q].connections_of() == connected[q].connections_of());
                    }
                }
                Ok(children)
            },
            Err(e) => Err(e),
        }
    }
}

} // verus!
