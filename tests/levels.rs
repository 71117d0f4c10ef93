use irlf::connectioniterator::nesting::Nesting;
use irlf::get_rtor_impl::rtor::{AnyIface, RtorIface};
use irlf::get_rtor_impl::srtorimpl::iface_of;
use irlf::irlf_db::from_text;
use irlf::lf_types::{Comm, Level, Side};

const BASIC_NO_MERGING: &str = "mul2 0x0 mul2
add1 0x1 add1
---
---
rtor0 0x2
  myadd1 100 = 0x1
  mymul2 101 = 0x0
  ---
  L 100
  R 100
  L 101
  R 101
  ---
rtor1 0x3
  mysctor0 102 = 0x2
  mysctor1 103 = 0x2
  ---
  L 102
  R 103
  ---
  200 102 103
---
0x3
";

const MERGING: &str = "add1 0 add1
sum 1 sum
---
---
rtor0 2
  madd1_0 100 = 0
  madd1_2 101 = 0
  ---
  L 100 R 100
  L 101 R 101
  ---
rtor1 3
  sctor0 102 = 2
  msum 103 = 1
  ---
  L 102
  L -
  R 103
  ---
  200 102 103
---
3
";

fn sorted(mut v: Vec<Level>) -> Vec<Level> {
    v.sort();
    v
}

fn shallow(text: &str) -> (Vec<Level>, Vec<Comm<Level>>, Vec<Comm<Level>>, Vec<Level>, Vec<Level>) {
    let (db, _id2sym) = from_text(text).unwrap();
    let iface: AnyIface = iface_of(&db, db.main);
    let levels = sorted(iface.levels(&db));
    let left = iface.immut_provide(&db, &vec![], Side::Left, Level(0), Nesting::new()).collect();
    let right = iface.immut_provide(&db, &vec![], Side::Right, Level(0), Nesting::new()).collect();
    let unique_left = sorted(iface.immut_provide_unique(&db, &vec![], Side::Left, Level(0)));
    let unique_right = sorted(iface.immut_provide_unique(&db, &vec![], Side::Right, Level(0)));
    (levels, left, right, unique_left, unique_right)
}

#[test]
fn test0() {
    let (levels, left, right, unique_left, unique_right) = shallow(BASIC_NO_MERGING);
    assert_eq!(levels, vec![Level(0)]);
    assert_eq!(left, vec![Comm::Data(Level(0)), Comm::Data(Level(0))]);
    assert_eq!(right, vec![Comm::Data(Level(0)), Comm::Data(Level(0))]);
    assert_eq!(unique_left, vec![Level(0)]);
    assert_eq!(unique_right, vec![Level(0)]);
}

#[test]
fn test1() {
    let (levels, left, right, unique_left, unique_right) = shallow(MERGING);
    assert_eq!(levels, vec![Level(0), Level(1)]);
    assert_eq!(left, vec![Comm::Data(Level(0)), Comm::Data(Level(0))]);
    assert_eq!(right, vec![Comm::Data(Level(1))]);
    assert_eq!(unique_left, vec![Level(0)]);
    assert_eq!(unique_right, vec![Level(1)]);
}

#[test]
fn merge_spans_one_level() {
    let (db, _) = from_text(MERGING).unwrap();
    let iface = iface_of(&db, db.main);
    assert_eq!(iface.n_levels(&db, irlf::lf_types::SideMatch::One(Side::Left)), Level(1));
    assert_eq!(iface.n_levels(&db, irlf::lf_types::SideMatch::One(Side::Right)), Level(1));
    let started = iface.immut_provide(&db, &vec![], Side::Right, Level(5), Nesting::new()).collect();
    assert_eq!(started, vec![Comm::Data(Level(6))]);
}

#[test]
fn provide_follows_a_path() {
    let (db, _) = from_text(BASIC_NO_MERGING).unwrap();
    let iface = iface_of(&db, db.main);
    let part = vec![irlf::lf_types::InstId(102)];
    let left = iface.immut_provide(&db, &part, Side::Left, Level(0), Nesting::new()).collect();
    assert_eq!(left, vec![Comm::Data(Level(0)), Comm::Data(Level(0))]);
    let other = vec![irlf::lf_types::InstId(103)];
    let none = iface.immut_provide(&db, &other, Side::Left, Level(0), Nesting::new()).collect();
    assert_eq!(none, vec![]);
}
