use vstd::prelude::*;

use crate::connectioniterator::chainclone::{flatten, ChainClone, IteratorGiver};
use crate::connectioniterator::nesting::Nesting;
use crate::get_rtor_impl::rtor::{
    data_levels, depth, descend, entries_of, entry_span, entry_stream, iface_spec, leaf_stream,
    level_before, lib_iface, n_levels_spec, provide_from, provide_spec, sat, shift, side_entry,
    side_from, side_spec, valid, AnyIface, BiFunRtorIface, BinaryOp, FunRtorIface, LevelIterator,
    RtorIface, RtorN, SideEntry, SrtorIface, UnaryOp,
};
use crate::irlf_db::ir::{ids_of, Ctor, Inst, Program};
use crate::lf_types::{Comm, InstId, Level, Side, SideMatch};

verus! {

/// Saturating the sum of a saturated value and another saturates the whole sum.
pub proof fn lemma_sat_add(a: int, b: int)
    requires
        a >= 0,
        b >= 0,
    ensures
        sat(sat(a) + sat(b)) == sat(a + b),
        sat(sat(a) + b) == sat(a + b),
{
}

/// Whether `s` spells out `w`.
fn str_is(s: &str, w: &Vec<char>) -> (r: bool)
    ensures
        r == (s@ == w@),
{
    let n = s.unicode_len();
    if n != w.len() {
        return false;
    }
    let mut i: usize = 0;
    while i < n
        invariant
            n == s@.len(),
            n == w@.len(),
            i <= n,
            forall|j: int| 0 <= j < i ==> #[trigger] s@[j] == w@[j],
        decreases n - i,
    {
        if s.get_char(i) != w[i] {
            return false;
        }
        i += 1;
    }
    assert(s@ =~= w@);
    true
}

/// The interface of the library primitive called `name`.
pub fn lctor_of(name: &String) -> (r: AnyIface)
    ensures
        r == lib_iface(name@),
{
    let s = name.as_str();
    if str_is(s, &vec!['a', 'd', 'd', '1']) {
        AnyIface::Fun(FunRtorIface { op: UnaryOp::Add1 })
    } else if str_is(s, &vec!['m', 'u', 'l', '2']) {
        AnyIface::Fun(FunRtorIface { op: UnaryOp::Mul2 })
    } else if str_is(s, &vec!['s', 'u', 'm']) {
        AnyIface::BiFun(BiFunRtorIface { op: BinaryOp::Sum })
    } else if str_is(s, &vec!['p', 'r', 'o', 'd']) {
        AnyIface::BiFun(BiFunRtorIface { op: BinaryOp::Prod })
    } else {
        AnyIface::Opaque
    }
}

/// The interface of the constructor at index `c` of `db`.
pub fn iface_of(db: &Program, c: usize) -> (r: AnyIface)
    requires
        c < db.ctors@.len(),
    ensures
        r == iface_spec(*db, c as int),
        valid(*db, r),
        db.has_level_model(c as int) <==> !(r is Opaque),
{
    match &db.ctors[c] {
        Ctor::StructlikeCtor(_) => AnyIface::Srtor(SrtorIface { sctor: c }),
        Ctor::BinaryCtor(_) => AnyIface::Opaque,
        Ctor::LibCtor(l) => lctor_of(&l.name),
    }
}

/// The ids along the path `iref`.
fn ids_of_exec(iref: &Vec<Inst>) -> (r: Vec<InstId>)
    ensures
        r@ == ids_of(iref@),
{
    let mut r: Vec<InstId> = Vec::new();
    let mut i: usize = 0;
    while i < iref.len()
        invariant
            i <= iref@.len(),
            r@ == ids_of(iref@).subrange(0, i as int),
        decreases iref@.len() - i,
    {
        r.push(iref[i].id);
        i += 1;
        assert(r@ =~= ids_of(iref@).subrange(0, i as int));
    }
    assert(ids_of(iref@).subrange(0, iref@.len() as int) =~= ids_of(iref@));
    r
}

/// Whether `a` opens `b`.
fn is_prefix(a: &[InstId], b: &[InstId]) -> (r: bool)
    ensures
        r == (a@.len() <= b@.len() && b@.subrange(0, a@.len() as int) == a@),
{
    if a.len() > b.len() {
        return false;
    }
    let mut i: usize = 0;
    while i < a.len()
        invariant
            a@.len() <= b@.len(),
            i <= a@.len(),
            forall|j: int| 0 <= j < i ==> #[trigger] a@[j] == b@[j],
        decreases a@.len() - i,
    {
        if a[i] != b[i] {
            assert(b@.subrange(0, a@.len() as int)[i as int] != a@[i as int]);
            return false;
        }
        i += 1;
    }
    assert(b@.subrange(0, a@.len() as int) =~= a@);
    true
}

/// The sequence `v` without its first element.
fn rest_or_empty(v: &Vec<InstId>) -> (r: Vec<InstId>)
    ensures
        v@.len() > 0 ==> r@ == v@.drop_first(),
        v@.len() == 0 ==> r@.len() == 0,
{
    let mut r: Vec<InstId> = Vec::new();
    let mut i: usize = 1;
    while i < v.len()
        invariant
            1 <= i,
            v@.len() > 0 ==> i <= v@.len(),
            v@.len() > 0 ==> r@ == v@.subrange(1, i as int),
            v@.len() == 0 ==> r@.len() == 0,
        decreases v@.len() - i,
    {
        r.push(v[i]);
        i += 1;
        assert(r@ =~= v@.subrange(1, i as int));
    }
    proof {
        if v@.len() > 0 {
            assert(v@.subrange(1, v@.len() as int) =~= v@.drop_first());
        }
    }
    r
}

/// Where a request for the part `path` goes through an entry with path `iref`.
fn sequence_max(iref: &Vec<Inst>, path: &Vec<InstId>) -> (r: Option<Vec<InstId>>)
    requires
        iref@.len() > 0,
    ensures
        r is Some == descend(ids_of(iref@), path@) is Some,
        r matches Some(v) ==> v@ == descend(ids_of(iref@), path@)->Some_0,
{
    let ids = ids_of_exec(iref);
    if path.len() == 0 {
        return Some(rest_or_empty(&ids));
    }
    if ids.len() == 0 || ids[0] != path[0] {
        return None;
    }
    let t = rest_or_empty(&ids);
    let p = rest_or_empty(path);
    if is_prefix(t.as_slice(), p.as_slice()) {
        Some(p)
    } else if is_prefix(p.as_slice(), t.as_slice()) {
        Some(t)
    } else {
        None
    }
}

/// The number of levels that `side` of `i` spans, looking `fuel` composites deep.
pub(crate) fn n_levels_fuel(db: &Program, i: AnyIface, side: SideMatch, fuel: usize) -> (r: u32)
    requires
        db.wf(),
        valid(*db, i),
    ensures
        r == sat(n_levels_spec(*db, i, side, fuel as nat) as int),
    decreases fuel,
{
    match i {
        AnyIface::Fun(_) => 0,
        AnyIface::Opaque => 0,
        AnyIface::BiFun(_) => match side {
            SideMatch::One(Side::Left) => 0,
            _ => 1,
        },
        AnyIface::Srtor(s) => {
            if fuel == 0 {
                return 0;
            }
            let sc = match &db.ctors[s.sctor] {
                Ctor::StructlikeCtor(sc) => sc,
                _ => {
                    proof {
                        assert(false);
                    }
                    return 0;
                },
            };
            let ghost es = entries_of(*db, s.sctor as int);
            assert(sc.refs_within(db.ctors@.len() as int));
            let mut acc: u32 = 0;
            let mut k: usize = 0;
            while k < sc.iface.len()
                invariant
                    db.wf(),
                    es == sc.iface@,
                    sc.refs_within(db.ctors@.len() as int),
                    fuel > 0,
                    k <= es.len(),
                    acc == sat(level_before(*db, es, side, (fuel - 1) as nat, k as int) as int),
                decreases es.len() - k,
            {
                let e = &sc.iface[k];
                let span: u32 = if !side.overlaps(e.0) {
                    0
                } else {
                    match &e.1 {
                        Comm::Notify => 1,
                        Comm::Data(r) => {
                            if r.iref.len() == 0 {
                                0
                            } else {
                                let child = iface_of(db, r.iref[0].ctor);
                                n_levels_fuel(db, child, side, fuel - 1)
                            }
                        },
                    }
                };
                proof {
                    lemma_sat_add(
                        level_before(*db, es, side, (fuel - 1) as nat, k as int) as int,
                        entry_span(*db, es[k as int], side, (fuel - 1) as nat) as int,
                    );
                }
                acc = acc.saturating_add(span);
                k += 1;
            }
            acc
        },
    }
}

/// The level stream of an atomic reactor on `side`, starting at `start`.
fn leaf_stream_exec(i: AnyIface, side: Side, start: Level) -> (r: Vec<Comm<Level>>)
    ensures
        r@ == leaf_stream(i, side, start.0),
{
    match i {
        AnyIface::Fun(_) => {
            let r = vec![Comm::Data(start)];
            assert(r@ =~= leaf_stream(i, side, start.0));
            r
        },
        AnyIface::BiFun(_) => match side {
            Side::Left => {
                let r = vec![Comm::Data(start), Comm::Data(start), Comm::Notify];
                assert(r@ =~= leaf_stream(i, side, start.0));
                r
            },
            Side::Right => {
                let r = vec![Comm::Data(Level(start.0.saturating_add(1)))];
                assert(r@ =~= leaf_stream(i, side, start.0));
                r
            },
        },
        _ => {
            let r: Vec<Comm<Level>> = Vec::new();
            assert(r@ =~= leaf_stream(i, side, start.0));
            r
        },
    }
}

/// The levels at which `side` of the part `path` of `i` communicates, starting at `start`,
/// looking `fuel` composites deep.
pub(crate) fn provide_fuel(
    db: &Program,
    i: AnyIface,
    side: Side,
    start: Level,
    path: &Vec<InstId>,
    fuel: usize,
) -> (r: Vec<Comm<Level>>)
    requires
        db.wf(),
        valid(*db, i),
    ensures
        r@ == provide_spec(*db, i, side, start.0, path@, fuel as nat),
    decreases fuel,
{
    match i {
        AnyIface::Srtor(s) => {
            if fuel == 0 {
                return Vec::new();
            }
            let sc = match &db.ctors[s.sctor] {
                Ctor::StructlikeCtor(sc) => sc,
                _ => {
                    proof {
                        assert(false);
                    }
                    return Vec::new();
                },
            };
            let ghost es = entries_of(*db, s.sctor as int);
            let ghost f = (fuel - 1) as nat;
            assert(sc.refs_within(db.ctors@.len() as int));
            let exact = SideMatch::One(side);
            let mut acc: u32 = 0;
            let mut out: Vec<Comm<Level>> = Vec::new();
            let mut k: usize = 0;
            while k < sc.iface.len()
                invariant
                    db.wf(),
                    es == sc.iface@,
                    sc.refs_within(db.ctors@.len() as int),
                    fuel > 0,
                    f == fuel - 1,
                    exact == SideMatch::One(side),
                    k <= es.len(),
                    acc == sat(level_before(*db, es, exact, f, k as int) as int),
                    out@ == provide_from(*db, es, side, start.0, path@, f, k as int),
                decreases es.len() - k,
            {
                let ghost before = out@;
                let e = &sc.iface[k];
                let mut span: u32 = 0;
                if exact.overlaps(e.0) {
                    match &e.1 {
                        Comm::Notify => {
                            span = 1;
                        },
                        Comm::Data(r) => {
                            if r.iref.len() > 0 {
                                let child = iface_of(db, r.iref[0].ctor);
                                span = n_levels_fuel(db, child, exact, fuel - 1);
                                match sequence_max(&r.iref, path) {
                                    Some(rest) => {
                                        let here = Level(start.0.saturating_add(acc));
                                        proof {
                                            lemma_sat_add(
                                                start.0 as int,
                                                level_before(*db, es, exact, f, k as int) as int,
                                            );
                                        }
                                        let mut sub = provide_fuel(db, child, side, here, &rest, fuel - 1);
                                        out.append(&mut sub);
                                    },
                                    None => {},
                                }
                            }
                        },
                    }
                }
                proof {
                    lemma_sat_add(
                        level_before(*db, es, exact, f, k as int) as int,
                        entry_span(*db, es[k as int], exact, f) as int,
                    );
                    assert(out@ =~= before + entry_stream(*db, es, side, start.0, path@, f, k as int));
                }
                acc = acc.saturating_add(span);
                k += 1;
            }
            out
        },
        _ => leaf_stream_exec(i, side, start),
    }
}

/// One sub-iterator per entry of the composite `s` that yields levels on `side` of the part
/// `path`, each produced under the child's interface; chained, they yield `provide_spec`.
fn provide_givers(
    db: &Program,
    s: SrtorIface,
    side: Side,
    start: Level,
    path: &Vec<InstId>,
) -> (r: Vec<IteratorGiver<Comm<Level>, RtorN>>)
    requires
        db.wf(),
        valid(*db, AnyIface::Srtor(s)),
        db.ctors@.len() > 0,
    ensures
        flatten(r@) == provide_spec(*db, AnyIface::Srtor(s), side, start.0, path@, depth(*db)),
{
    let fuel = db.ctors.len();
    let sc = match &db.ctors[s.sctor] {
        Ctor::StructlikeCtor(sc) => sc,
        _ => {
            proof {
                assert(false);
            }
            return Vec::new();
        },
    };
    let ghost es = entries_of(*db, s.sctor as int);
    let ghost f = (fuel - 1) as nat;
    assert(sc.refs_within(db.ctors@.len() as int));
    let exact = SideMatch::One(side);
    let mut acc: u32 = 0;
    let mut givers: Vec<IteratorGiver<Comm<Level>, RtorN>> = Vec::new();
    let mut k: usize = 0;
    while k < sc.iface.len()
        invariant
            db.wf(),
            es == sc.iface@,
            sc.refs_within(db.ctors@.len() as int),
            fuel == db.ctors@.len(),
            fuel > 0,
            f == fuel - 1,
            exact == SideMatch::One(side),
            k <= es.len(),
            acc == sat(level_before(*db, es, exact, f, k as int) as int),
            flatten(givers@) == provide_from(*db, es, side, start.0, path@, f, k as int),
        decreases es.len() - k,
    {
        let ghost prev = givers@;
        let ghost before = flatten(givers@);
        let e = &sc.iface[k];
        let mut span: u32 = 0;
        if exact.overlaps(e.0) {
            match &e.1 {
                Comm::Notify => {
                    span = 1;
                },
                Comm::Data(r) => {
                    if r.iref.len() > 0 {
                        let child = iface_of(db, r.iref[0].ctor);
                        span = n_levels_fuel(db, child, exact, fuel - 1);
                        match sequence_max(&r.iref, path) {
                            Some(rest) => {
                                let here = Level(start.0.saturating_add(acc));
                                proof {
                                    lemma_sat_add(
                                        start.0 as int,
                                        level_before(*db, es, exact, f, k as int) as int,
                                    );
                                }
                                let items = provide_fuel(db, child, side, here, &rest, fuel - 1);
                                givers.push(IteratorGiver { iface: child, items });
                                assert(givers@.drop_last() =~= prev);
                            },
                            None => {},
                        }
                    }
                },
            }
        }
        proof {
            lemma_sat_add(
                level_before(*db, es, exact, f, k as int) as int,
                entry_span(*db, es[k as int], exact, f) as int,
            );
            assert(flatten(givers@) =~= before + entry_stream(*db, es, side, start.0, path@, f, k as int));
        }
        acc = acc.saturating_add(span);
        k += 1;
    }
    givers
}

/// `s` with every level moved up by `off`.
fn shift_exec(s: Vec<SideEntry>, off: u32) -> (r: Vec<SideEntry>)
    ensures
        r@ == shift(s@, off as nat),
{
    let mut r: Vec<SideEntry> = Vec::new();
    let mut i: usize = 0;
    while i < s.len()
        invariant
            i <= s@.len(),
            r@ == shift(s@, off as nat).subrange(0, i as int),
        decreases s@.len() - i,
    {
        let e = s[i];
        r.push((Level(e.0.0.saturating_add(off)), e.1, e.2));
        i += 1;
        assert(r@ =~= shift(s@, off as nat).subrange(0, i as int));
    }
    assert(shift(s@, off as nat).subrange(0, s@.len() as int) =~= shift(s@, off as nat));
    r
}

/// The atomic interfaces that the part `path` of `i` exposes on `filter`, looking `fuel`
/// composites deep.
pub(crate) fn side_fuel(
    db: &Program,
    i: AnyIface,
    filter: SideMatch,
    path: &Vec<InstId>,
    fuel: usize,
) -> (r: Vec<SideEntry>)
    requires
        db.wf(),
        valid(*db, i),
    ensures
        r@ == side_spec(*db, i, filter, path@, fuel as nat),
    decreases fuel,
{
    match i {
        AnyIface::Srtor(s) => {
            if fuel == 0 {
                return Vec::new();
            }
            let sc = match &db.ctors[s.sctor] {
                Ctor::StructlikeCtor(sc) => sc,
                _ => {
                    proof {
                        assert(false);
                    }
                    return Vec::new();
                },
            };
            let ghost es = entries_of(*db, s.sctor as int);
            let ghost f = (fuel - 1) as nat;
            assert(sc.refs_within(db.ctors@.len() as int));
            let mut acc: u32 = 0;
            let mut out: Vec<SideEntry> = Vec::new();
            let mut k: usize = 0;
            while k < sc.iface.len()
                invariant
                    db.wf(),
                    es == sc.iface@,
                    sc.refs_within(db.ctors@.len() as int),
                    fuel > 0,
                    f == fuel - 1,
                    k <= es.len(),
                    acc == sat(level_before(*db, es, filter, f, k as int) as int),
                    out@ == side_from(*db, es, filter, path@, f, k as int),
                decreases es.len() - k,
            {
                let ghost before = out@;
                let e = &sc.iface[k];
                let mut span: u32 = 0;
                if filter.overlaps(e.0) {
                    match &e.1 {
                        Comm::Notify => {
                            span = 1;
                        },
                        Comm::Data(r) => {
                            if r.iref.len() > 0 {
                                let child = iface_of(db, r.iref[0].ctor);
                                span = n_levels_fuel(db, child, filter, fuel - 1);
                                match sequence_max(&r.iref, path) {
                                    Some(rest) => {
                                        let sub = side_fuel(db, child, filter, &rest, fuel - 1);
                                        let shifted = shift_exec(sub, acc);
                                        proof {
                                            let lb = level_before(*db, es, filter, f, k as int);
                                            assert(shift(side_spec(*db, child, filter, rest@, f), acc as nat)
                                                =~= shift(side_spec(*db, child, filter, rest@, f), lb)) by {
                                                assert forall|q: int|
                                                    0 <= q < side_spec(*db, child, filter, rest@, f).len() implies
                                                    #[trigger] shift(side_spec(*db, child, filter, rest@, f), acc as nat)[q]
                                                    == shift(side_spec(*db, child, filter, rest@, f), lb)[q] by {
                                                    let e0 = side_spec(*db, child, filter, rest@, f)[q];
                                                    lemma_sat_add(lb as int, 0);
                                                    assert(sat(e0.0.0 + acc) == sat(e0.0.0 + lb)) by {
                                                        lemma_sat_add(lb as int, e0.0.0 as int);
                                                    }
                                                }
                                            }
                                        }
                                        let mut shifted = shifted;
                                        out.append(&mut shifted);
                                    },
                                    None => {},
                                }
                            }
                        },
                    }
                }
                proof {
                    lemma_sat_add(
                        level_before(*db, es, filter, f, k as int) as int,
                        entry_span(*db, es[k as int], filter, f) as int,
                    );
                    assert(out@ =~= before + side_entry(*db, es, filter, path@, f, k as int));
                }
                acc = acc.saturating_add(span);
                k += 1;
            }
            out
        },
        _ => {
            if path.len() == 0 {
                let r = vec![(Level(0), SideMatch::Both, Comm::Data(i))];
                assert(r@ =~= side_spec(*db, i, filter, path@, fuel as nat));
                r
            } else {
                let r: Vec<SideEntry> = Vec::new();
                assert(r@ =~= side_spec(*db, i, filter, path@, fuel as nat));
                r
            }
        },
    }
}

impl AnyIface {
    /// The atomic interfaces that the part `part` of this reactor exposes on `side`, each with
    /// the level at which it starts.
    pub fn side(&self, db: &Program, side: SideMatch, part: &Vec<InstId>) -> (r: Vec<SideEntry>)
        requires
            db.wf(),
            valid(*db, *self),
        ensures
            r@ == side_spec(*db, *self, side, part@, depth(*db)),
    {
        side_fuel(db, *self, side, part, db.ctors.len())
    }

    /// The atomic interfaces that the part `part` exposes on exactly `side`, with their levels.
    pub fn side_exact(&self, db: &Program, side: Side, part: &Vec<InstId>) -> (r: Vec<
        (Level, Comm<AnyIface>),
    >)
        requires
            db.wf(),
            valid(*db, *self),
        ensures
            r@.len() == side_spec(*db, *self, SideMatch::One(side), part@, depth(*db)).len(),
            forall|j: int|
                0 <= j < r@.len() ==> #[trigger] r@[j] == (
                    side_spec(*db, *self, SideMatch::One(side), part@, depth(*db))[j].0,
                    side_spec(*db, *self, SideMatch::One(side), part@, depth(*db))[j].2,
                ),
    {
        let all = self.side(db, SideMatch::One(side), part);
        let mut r: Vec<(Level, Comm<AnyIface>)> = Vec::new();
        let mut i: usize = 0;
        while i < all.len()
            invariant
                i <= all@.len(),
                r@.len() == i,
                forall|j: int| 0 <= j < i ==> #[trigger] r@[j] == (all@[j].0, all@[j].2),
            decreases all@.len() - i,
        {
            let e = all[i];
            r.push((e.0, e.2));
            i += 1;
        }
        r
    }
}

/// Whether `l` is among `v`.
fn contains_level(v: &Vec<Level>, l: Level) -> (r: bool)
    ensures
        r == v@.contains(l),
{
    let mut i: usize = 0;
    while i < v.len()
        invariant
            i <= v@.len(),
            forall|j: int| 0 <= j < i ==> #[trigger] v@[j] != l,
        decreases v@.len() - i,
    {
        if v[i] == l {
            return true;
        }
        i += 1;
    }
    false
}

/// Adds to `out` the data levels of `s` that it does not hold yet.
fn push_distinct_data(out: &mut Vec<Level>, s: &Vec<Comm<Level>>)
    requires
        old(out)@.no_duplicates(),
    ensures
        final(out)@.no_duplicates(),
        forall|l: Level|
            final(out)@.contains(l) <==> (old(out)@.contains(l) || data_levels(s@).contains(l)),
{
    let mut i: usize = 0;
    while i < s.len()
        invariant
            i <= s@.len(),
            out@.no_duplicates(),
            forall|l: Level|
                out@.contains(l) <==> (old(out)@.contains(l) || exists|j: int|
                    0 <= j < i && s@[j] == Comm::Data(l)),
        decreases s@.len() - i,
    {
        let ghost prev = out@;
        match s[i] {
            Comm::Data(l0) => {
                if !contains_level(out, l0) {
                    out.push(l0);
                    proof {
                        assert forall|l: Level| out@.contains(l) <==> (prev.contains(l) || l == l0) by {
                            if out@.contains(l) && !prev.contains(l) {
                                let k = choose|k: int| 0 <= k < out@.len() && out@[k] == l;
                                assert(k == prev.len());
                            }
                            if l == l0 {
                                assert(out@[prev.len() as int] == l0);
                            }
                            if prev.contains(l) {
                                let k = choose|k: int| 0 <= k < prev.len() && prev[k] == l;
                                assert(out@[k] == l);
                            }
                        }
                        assert(out@.no_duplicates()) by {
                            assert forall|a: int, b: int|
                                0 <= a < out@.len() && 0 <= b < out@.len() && a != b implies out@[a]
                                != out@[b] by {
                                if a == prev.len() {
                                    assert(out@[b] == prev[b]);
                                    if out@[a] == out@[b] {
                                        assert(prev.contains(l0));
                                    }
                                } else if b == prev.len() {
                                    assert(out@[a] == prev[a]);
                                    if out@[a] == out@[b] {
                                        assert(prev.contains(l0));
                                    }
                                }
                            }
                        }
                    }
                }
            },
            Comm::Notify => {},
        }
        proof {
            assert forall|l: Level|
                out@.contains(l) <==> (old(out)@.contains(l) || exists|j: int|
                    0 <= j < i + 1 && s@[j] == Comm::Data(l)) by {
                if s@[i as int] == Comm::Data(l) {
                    assert(out@.contains(l));
                }
                if exists|j: int| 0 <= j < i + 1 && s@[j] == Comm::Data(l) {
                    let j = choose|j: int| 0 <= j < i + 1 && s@[j] == Comm::Data(l);
                    if j < i {
                        assert(prev.contains(l));
                    }
                }
                if out@.contains(l) && !prev.contains(l) {
                    assert(s@[i as int] == Comm::Data(l));
                }
            }
        }
        i += 1;
    }
    assert forall|l: Level| data_levels(s@).contains(l) <==> exists|j: int|
        0 <= j < s@.len() && s@[j] == Comm::Data(l) by {}
}

impl RtorIface for AnyIface {
    open spec fn as_any(&self) -> AnyIface {
        *self
    }

    fn n_levels(&self, db: &Program, side: SideMatch) -> (r: Level) {
        Level(n_levels_fuel(db, *self, side, db.ctors.len()))
    }

    fn immut_provide(
        &self,
        db: &Program,
        part: &Vec<InstId>,
        side: Side,
        starting_level: Level,
        nesting: Nesting<RtorN>,
    ) -> (r: LevelIterator) {
        if let AnyIface::Srtor(s) = *self {
            if db.ctors.len() > 0 {
                let givers = provide_givers(db, s, side, starting_level, part);
                return ChainClone::new(nesting, *self, givers);
            }
        }
        let items = provide_fuel(db, *self, side, starting_level, part, db.ctors.len());
        let ghost s = items@;
        let giver = IteratorGiver { iface: *self, items };
        let givers = vec![giver];
        proof {
            assert(givers@.drop_last() =~= Seq::<IteratorGiver<Comm<Level>, RtorN>>::empty());
            assert(flatten(givers@.drop_last()) =~= Seq::<Comm<Level>>::empty());
            assert(flatten(givers@) =~= s);
        }
        ChainClone::new(nesting, *self, givers)
    }

    fn immut_provide_unique(
        &self,
        db: &Program,
        part: &Vec<InstId>,
        side: Side,
        starting_level: Level,
    ) -> (r: Vec<Level>) {
        let s = provide_fuel(db, *self, side, starting_level, part, db.ctors.len());
        let mut out: Vec<Level> = Vec::new();
        push_distinct_data(&mut out, &s);
        out
    }

    fn levels(&self, db: &Program) -> (r: Vec<Level>) {
        let empty: Vec<InstId> = Vec::new();
        let left = provide_fuel(db, *self, Side::Left, Level(0), &empty, db.ctors.len());
        let right = provide_fuel(db, *self, Side::Right, Level(0), &empty, db.ctors.len());
        let mut out: Vec<Level> = Vec::new();
        push_distinct_data(&mut out, &left);
        push_distinct_data(&mut out, &right);
        out
    }
}


impl RtorIface for SrtorIface {
    open spec fn as_any(&self) -> AnyIface {
        AnyIface::Srtor(*self)
    }

    fn n_levels(&self, db: &Program, side: SideMatch) -> (r: Level) {
        AnyIface::Srtor(*self).n_levels(db, side)
    }

    fn immut_provide(
        &self,
        db: &Program,
        part: &Vec<InstId>,
        side: Side,
        starting_level: Level,
        nesting: Nesting<RtorN>,
    ) -> (r: LevelIterator) {
        AnyIface::Srtor(*self).immut_provide(db, part, side, starting_level, nesting)
    }

    fn immut_provide_unique(
        &self,
        db: &Program,
        part: &Vec<InstId>,
        side: Side,
        starting_level: Level,
    ) -> (r: Vec<Level>) {
        AnyIface::Srtor(*self).immut_provide_unique(db, part, side, starting_level)
    }

    fn levels(&self, db: &Program) -> (r: Vec<Level>) {
        AnyIface::Srtor(*self).levels(db)
    }
}

} // verus!
