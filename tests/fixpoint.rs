use irlf::get_rtor_impl::comptime::SrtorComptime;
use irlf::get_rtor_impl::rtor::{BiFunRtorIface, BinaryOp};
use irlf::get_rtor_impl::rtor::{FunRtorIface, UnaryOp};
use irlf::irlf_db::FromTextError;
use irlf::irlf_db::convert::ConvertError;
use irlf::lf_types::CtorId;
use irlf::lf_types::{FlowDirection, Side};
use irlf::get_rtor_impl::comptime::FixpointError;
use irlf::get_rtor_impl::levelmap::{FixpointingStatus, LevelMap};
use irlf::get_rtor_impl::rtor::AnyIface;
use irlf::get_rtor_impl::srtorimpl::iface_of;
use irlf::irlf_db::from_text;
use irlf::lf_types::Level;

const MERGING: &str = "add1 0 add1
sum 1 sum
---
---
rtor0 2
  madd1_0 100 = 0
  madd1_2 101 = 0
  ---
  L 100 R 100
  L 101 R 101
  ---
rtor1 3
  sctor0 102 = 2
  msum 103 = 1
  ---
  L 102
  L -
  R 103
  ---
  200 102 103
---
3
";

const TWO_SUMS: &str = "sum 0x1 sum
---
---
top 0x2
  s1 10 = 0x1
  s2 11 = 0x1
  ---
  L 10
  R 11
  ---
  1 10 11
---
0x2
";

const FEEDBACK: &str = "sum 0x1 sum
---
---
top 0x2
  s1 10 = 0x1
  s2 11 = 0x1
  ---
  L 10
  R 11
  ---
  1 10 11
  2 11 10
---
0x2
";

fn sorted(mut v: Vec<Level>) -> Vec<Level> {
    v.sort();
    v
}

#[test]
fn merging_converges_without_raising() {
    let (db, _) = from_text(MERGING).unwrap();
    let AnyIface::Srtor(top) = iface_of(&db, db.main) else { panic!() };
    let children = top.realize(&db, 10).unwrap();
    assert_eq!(children.len(), 2);
    assert_eq!(sorted(children[0].levels(&db)), vec![Level(0)]);
    assert_eq!(sorted(children[1].levels(&db)), vec![Level(0), Level(1)]);
}

#[test]
fn chained_merges_raise_the_downstream_levels() {
    let (db, _) = from_text(TWO_SUMS).unwrap();
    let AnyIface::Srtor(top) = iface_of(&db, db.main) else { panic!() };
    let children = top.realize(&db, 10).unwrap();
    assert_eq!(sorted(children[0].levels(&db)), vec![Level(0), Level(1)]);
    assert_eq!(sorted(children[1].levels(&db)), vec![Level(1), Level(2)]);
}

#[test]
fn feedback_loop_does_not_converge() {
    let (db, _) = from_text(FEEDBACK).unwrap();
    let AnyIface::Srtor(top) = iface_of(&db, db.main) else { panic!() };
    assert_eq!(top.realize(&db, 10).unwrap_err(), FixpointError::NoConvergence);
}

#[test]
fn adjust_raises_and_propagates() {
    let mut m = LevelMap::identity(&vec![Level(1), Level(2)]);
    assert_eq!(m.adjust(Level(5), Level(1)), FixpointingStatus::Changed);
    assert_eq!(m.get(0), Some(0));
    assert_eq!(m.get(1), Some(5));
    assert_eq!(m.get(2), Some(6));
    assert_eq!(m.get(3), None);
}

#[test]
fn adjust_twice_is_adjust_once() {
    let mut m = LevelMap::identity(&vec![Level(1), Level(2)]);
    assert_eq!(m.adjust(Level(4), Level(0)), FixpointingStatus::Changed);
    let once = (m.get(0), m.get(1), m.get(2));
    assert_eq!(m.adjust(Level(4), Level(0)), FixpointingStatus::Unchanged);
    assert_eq!((m.get(0), m.get(1), m.get(2)), once);
    assert_eq!(once, (Some(4), Some(5), Some(6)));
}

#[test]
fn adjust_never_lowers() {
    let mut m = LevelMap::identity(&vec![Level(1), Level(7)]);
    assert_eq!(m.adjust(Level(3), Level(0)), FixpointingStatus::Changed);
    assert_eq!((m.get(0), m.get(1), m.get(7)), (Some(3), Some(4), Some(7)));
    assert_eq!(m.adjust(Level(1), Level(0)), FixpointingStatus::Unchanged);
    assert_eq!((m.get(0), m.get(1), m.get(7)), (Some(3), Some(4), Some(7)));
}

#[test]
fn lower_bound_on_a_merge_starts_at_its_first_level() {
    let (db, _) = from_text(MERGING).unwrap();
    let sum = AnyIface::BiFun(BiFunRtorIface { op: BinaryOp::Sum });
    let mut s = SrtorComptime::new(sum, &db);
    s.lower_bound(&db, &vec![], Side::Right, Level(5), FlowDirection::In);
    assert_eq!(sorted(s.levels(&db)), vec![Level(5), Level(6)]);
    let mut t = SrtorComptime::new(sum, &db);
    t.lower_bound(&db, &vec![], Side::Left, Level(5), FlowDirection::Out);
    assert_eq!(sorted(t.levels(&db)), vec![Level(6), Level(7)]);
}

#[test]
fn lower_bound_on_the_right_of_a_one_input_reactor_is_ignored() {
    let (db, _) = from_text(MERGING).unwrap();
    let add1 = AnyIface::Fun(FunRtorIface { op: UnaryOp::Add1 });
    let mut s = SrtorComptime::new(add1, &db);
    s.lower_bound(&db, &vec![], Side::Right, Level(5), FlowDirection::In);
    assert_eq!(s.levels(&db), vec![Level(0)]);
    s.lower_bound(&db, &vec![], Side::Left, Level(5), FlowDirection::In);
    assert_eq!(s.levels(&db), vec![Level(5)]);
}

#[test]
fn a_composite_may_not_use_a_binary() {
    let text = "---\nb 0x1 /bin/x\n---\nr 0x2\n  x 5 = 0x1\n  ---\n  ---\n---\n0x2\n";
    match from_text(text) {
        Err(FromTextError::Convert(ConvertError::NoLevelModel(id))) => assert_eq!(id, CtorId(1)),
        _ => panic!("expected a missing level model"),
    }
}

#[test]
fn an_analysis_pass_after_convergence_changes_nothing() {
    let (db, _) = from_text(TWO_SUMS).unwrap();
    let AnyIface::Srtor(top) = iface_of(&db, db.main) else { panic!() };
    let mut children = top.realize(&db, 10).unwrap();
    for a in 0..children.len() {
        assert_eq!(SrtorComptime::iterate_levels(&mut children, a, &db), FixpointingStatus::Unchanged);
    }
}
