use irlf::connectioniterator::chainclone::{ChainClone, IteratorGiver};
use irlf::connectioniterator::nesting::Nesting;
use irlf::get_rtor_impl::lazyclone::pmap;
use irlf::irlf_ser::lex::TokenStream;
use irlf::irlf_ser::unpretty::{side_match_unpretty, side_unpretty};
use irlf::lf_types::{Comm, Level, Side, SideMatch};

#[test]
fn side_filters() {
    assert!(SideMatch::Both.includes(Side::Left));
    assert!(SideMatch::One(Side::Right).includes(Side::Right));
    assert!(!SideMatch::One(Side::Right).includes(Side::Left));
    assert!(SideMatch::One(Side::Left).overlaps(SideMatch::Both));
    assert!(!SideMatch::One(Side::Left).overlaps(SideMatch::One(Side::Right)));
    assert!(SideMatch::Both.overlaps(SideMatch::One(Side::Right)));
}

#[test]
fn comm_map_and_unwrap() {
    let d: Comm<u32> = Comm::Data(3);
    assert_eq!(d.map(|x: &u32| *x + 1), Comm::Data(4));
    let n: Comm<u32> = Comm::Notify;
    assert_eq!(n.map(|x: &u32| *x + 1), Comm::Notify);
    assert_eq!(Comm::Data(7u8).unwrap(), 7);
}

#[test]
fn levels_add() {
    assert_eq!(Level(2).plus(Level(3)), Level(5));
}

#[test]
fn side_markers_parse() {
    let mut toks = TokenStream::new("L R A x");
    assert_eq!(side_unpretty(&mut toks), Ok(Side::Left));
    assert_eq!(side_match_unpretty(&mut toks), Ok(SideMatch::One(Side::Right)));
    assert_eq!(side_match_unpretty(&mut toks), Ok(SideMatch::Both));
    assert!(side_unpretty(&mut toks).is_err());
}

#[test]
fn pmap_drains_and_maps() {
    let chain = ChainClone::new(
        Nesting::new(),
        0u8,
        vec![IteratorGiver { iface: 1u8, items: vec![Comm::Data(Level(1)), Comm::Notify] }],
    );
    let (out, nesting) = pmap(chain, |c: Comm<Level>| match c {
        Comm::Data(l) => l.0,
        Comm::Notify => 0,
    });
    assert_eq!(out, vec![1, 0]);
    assert_eq!(nesting.active(), Some(&[0u8][..]));
}
