use irlf::get_rtor_impl::comptime::Acceptor;
use irlf::get_rtor_impl::lazyclone::LazyIterClone;
use irlf::get_rtor_impl::rtor::{AnyIface, BiFunRtorIface, BinaryOp, FunRtorIface, UnaryOp};
use irlf::get_rtor_impl::srtorimpl::iface_of;
use irlf::irlf_db::from_text;
use irlf::irlf_db::unconvert::unconvert;
use irlf::irlf_ser::unpretty::unpretty;
use irlf::irlf_ser_val::{ids_unique, ValidationError};
use irlf::lf_types::{Comm, Level, Side, SideMatch};

const PROGRAM: &str = "c 0x7 add1
---
a 0x1 /this/is/a/path
b 0x2 /this/is/another/path
---
rtor0 0x3
  foo 89 = 0x4
  ---
  L 89
  ---
  90 89 89
rtor1 0x4
  baz 87 = 0x3
  bar 88 = 0x4
  ---
  L 87 R 88
  ---
  91 88 87
  92 87 87
---
0x3
";

const MERGING: &str = "add1 0 add1
sum 1 sum
---
---
rtor0 2
  madd1_0 100 = 0
  madd1_2 101 = 0
  ---
  L 100 R 100
  L 101 R 101
  ---
rtor1 3
  sctor0 102 = 2
  msum 103 = 1
  ---
  L 102
  L -
  R 103
  ---
  200 102 103
---
3
";

#[test]
fn test_convert() {
    let (program, id2sym) = from_text(PROGRAM).unwrap();
    let round_tripped = unconvert(&program, &id2sym);
    assert_eq!(PROGRAM, round_tripped.pretty());
}

#[test]
fn unique_ids_pass() {
    let p = unpretty(PROGRAM).unwrap();
    assert!(ids_unique(&p).is_ok());
}

#[test]
fn instance_id_equal_to_a_ctor_id_is_rejected() {
    let p = unpretty("c 0x7 add1\n---\n---\nr 0x1\n  x 7 = 0x7\n  ---\n  ---\n---\n0x1\n").unwrap();
    assert_eq!(ids_unique(&p), Err(ValidationError::DuplicateId));
    assert_eq!(ValidationError::DuplicateId.message(), "IDs cannot be used twice.");
}

#[test]
fn unknown_instance_is_a_conversion_error() {
    assert!(from_text("c 0x7 add1\n---\n---\nr 0x1\n  x 5 = 0x7\n  ---\n  L 6\n  ---\n---\n0x1\n").is_err());
}

#[test]
fn side_lists_leaves_with_their_levels() {
    let (db, _) = from_text(MERGING).unwrap();
    let iface = iface_of(&db, db.main);
    let sum = AnyIface::BiFun(BiFunRtorIface { op: BinaryOp::Sum });
    let add1 = AnyIface::Fun(FunRtorIface { op: UnaryOp::Add1 });
    assert_eq!(iface.side_exact(&db, Side::Right, &vec![]), vec![(Level(0), Comm::Data(sum))]);
    assert_eq!(
        iface.side(&db, SideMatch::One(Side::Left), &vec![]),
        vec![
            (Level(0), SideMatch::Both, Comm::Data(add1)),
            (Level(0), SideMatch::Both, Comm::Data(add1)),
        ]
    );
}

#[test]
fn accept_pairs_levels_with_acceptors() {
    let (db, _) = from_text(MERGING).unwrap();
    let iface = iface_of(&db, db.main);
    let a = Acceptor { target: 5, level: Level(2) };
    let got = iface.immut_accept(&db, &vec![], Side::Right, &vec![Comm::Data(a), Comm::Notify]);
    assert_eq!(got, vec![(a, Level(1))]);
    assert_eq!(iface.immut_accept(&db, &vec![], Side::Left, &vec![Comm::Data(a)]), vec![]);
}

#[test]
fn lazy_clone_copies_on_first_read() {
    let mut lazy = LazyIterClone::new();
    assert_eq!(lazy.next(&Some(vec![1u8, 2])), Some(1));
    assert_eq!(lazy.next(&None), Some(2));
    assert_eq!(lazy.next(&Some(vec![9])), None);
}

#[test]
fn map_applies_in_order() {
    assert_eq!(irlf::get_rtor_impl::lazyclone::map(&vec![1u32, 2, 3], |x: u32| x as u64 * 10), vec![10u64, 20, 30]);
}

#[test]
fn library_functions_compute() {
    assert_eq!(FunRtorIface::new(UnaryOp::Add1).apply(4), Some(5));
    assert_eq!(FunRtorIface::new(UnaryOp::Mul2).apply(u64::MAX), None);
    assert_eq!(BiFunRtorIface::new(BinaryOp::Prod).apply(6, 7), Some(42));
    assert_eq!(BiFunRtorIface::new(BinaryOp::Sum).apply(u64::MAX, 1), None);
}
