use irlf::irlf_ser::ir::{Connection, CtorCall, InstRef, Program, StructlikeCtor};
use irlf::irlf_ser::lex::TokenStream;
use irlf::irlf_ser::unpretty::unpretty;
use irlf::lf_types::{CtorId, InstId};

#[test]
fn test_ctorid() {
    let mut toks = TokenStream::new("120  0x999ab");
    assert_eq!(CtorId::unpretty(&mut toks), Ok(CtorId(120)));
    assert_eq!(CtorId::unpretty(&mut toks), Ok(CtorId(0x999ab)));
}

#[test]
fn test_ctorcall() {
    let mut toks = TokenStream::new("0x999ab");
    assert_eq!(CtorCall::unpretty(&mut toks), Ok(CtorCall { ctor: CtorId(0x999ab) }));
}

#[test]
fn test_instref() {
    let mut toks = TokenStream::new("1.2.3.2 3.9.9.4");
    assert_eq!(
        InstRef::unpretty(&mut toks),
        Ok(InstRef(vec![InstId(1), InstId(2), InstId(3), InstId(2)]))
    );
}

#[test]
fn test_connection() {
    let s = "99 1.2.3.2 3";
    let mut toks = TokenStream::new(s);
    let tripped = Connection::unpretty(&mut toks).unwrap().pretty();
    assert_eq!(s, tripped);
    assert!(toks.token().is_err());
}

#[test]
fn test_reactorctor() {
    let s = "  foo 1 = 0x99
  bar 6 = 0x2a
  ---
  R 1 R 6
  ---
  10 1 6
  11 6 1
";
    let mut toks = TokenStream::new(s);
    let tripped = StructlikeCtor::unpretty(&mut toks).unwrap().pretty();
    assert_eq!(s, tripped);
    assert!(toks.token().is_err());
}

#[test]
fn unpretty_test_program() {
    let s = "c 0x7 add1
---
a 0x1 /this/is/a/path
b 0x2 /this/is/another/path
---
rtor0 0x3
  foo 89 = 0x4
  ---
  L 89
  ---
  90 89 89
rtor1 0x4
  baz 87 = 0x3
  bar 88 = 0x4
  ---
  L 87 R 88
  ---
  91 88 87
  92 87 87
---
0x3
";
    let mut toks = TokenStream::new(s);
    let tripped = Program::unpretty(&mut toks).unwrap().pretty();
    assert_eq!(s, tripped);
    assert!(toks.token().is_err());
}

#[test]
fn ids_in_both_bases() {
    let mut toks = TokenStream::new("+7 0xFF 0x 18446744073709551616 x1");
    assert_eq!(CtorId::unpretty(&mut toks), Ok(CtorId(7)));
    assert_eq!(CtorId::unpretty(&mut toks), Ok(CtorId(255)));
    assert!(CtorId::unpretty(&mut toks).is_err());
    assert!(CtorId::unpretty(&mut toks).is_err());
    assert!(CtorId::unpretty(&mut toks).is_err());
}

#[test]
fn notify_entries_round_trip() {
    let s = "  a 1 = 0x2
  ---
  L 1 A - R 1.4
  ---
";
    let mut toks = TokenStream::new(s);
    let tripped = StructlikeCtor::unpretty(&mut toks).unwrap().pretty();
    assert_eq!(s, tripped);
}

#[test]
fn bad_instantiation_is_rejected() {
    assert!(unpretty("---\n---\nr 0x1\n  a 1 - 0x2\n  ---\n  ---\n---\n0x1\n").is_err());
}

#[test]
fn ids_print_in_their_bases() {
    assert_eq!(CtorId(0x2a).pretty(), "0x2a");
    assert_eq!(InstId(1234).pretty(), "1234");
    assert_eq!(InstRef(vec![InstId(1), InstId(20)]).pretty(), "1.20");
}
