use irlf::irlf_ser::lex::{Range, Token, TokenStream};

#[test]
fn lex_test_token() {
    let mut ts = TokenStream::new("this.is");
    assert_eq!(
        ts.token(),
        Ok(Token { s: "this", r: Range { line0: 0, col0: 0, line1: 0, col1: 4 } }),
    );
    assert_eq!(
        ts.token(),
        Ok(Token { s: ".", r: Range { line0: 0, col0: 4, line1: 0, col1: 5 } })
    );
    assert_eq!(
        ts.token(),
        Ok(Token { s: "is", r: Range { line0: 0, col0: 5, line1: 0, col1: 7 } })
    );
    assert!(ts.token().is_err());
}

#[test]
fn lex_test_offsides() {
    let mut ts = TokenStream::new(
        "
    the most
      exciting test
    imaginable",
    );
    ts.skip_blank_lines();
    let mut block = ts.block().unwrap();
    let mut line = block.line().unwrap();
    assert_eq!(
        line.token(),
        Ok(Token { s: "the", r: Range { line0: 1, col0: 4, line1: 1, col1: 7 } })
    );
    line.token().unwrap();
    assert!(line.token().is_err());
    line = block.line().unwrap();
    assert_eq!(
        line.token(),
        Ok(Token { s: "exciting", r: Range { line0: 2, col0: 6, line1: 2, col1: 14 } })
    );
    line.token().unwrap();
    assert!(line.token().is_err());
    let next_line_in_block = block.line();
    assert!(next_line_in_block.is_err());
    line = ts.line().unwrap();
    assert_eq!(
        line.token(),
        Ok(Token { s: "imaginable", r: Range { line0: 3, col0: 4, line1: 3, col1: 14 } })
    );
}

#[test]
fn test_section() {
    let mut ts = TokenStream::new(
        "section0
---
---
section2
section2'
---",
    );
    let mut section0 = ts.section();
    assert_eq!(section0.token().unwrap().s, "section0");
    assert!(ts.section().token().is_err());
    let mut section2 = ts.section();
    assert_eq!(section2.token().unwrap().s, "section2");
    assert_eq!(section2.token().unwrap().s, "section2'");
    assert!(section2.token().is_err());
    assert!(ts.section().token().is_err());
}

#[test]
fn tail_counts_lines_and_last_column() {
    let mut ts = TokenStream::new("ab\ncde");
    ts.token().unwrap();
    let (rest, r) = ts.tail();
    assert_eq!(rest, "\ncde");
    assert_eq!(r, Range { line0: 0, col0: 2, line1: 1, col1: 3 });
}

#[test]
fn line_fails_on_empty_and_on_leading_newline() {
    let mut empty = TokenStream::new("");
    assert!(empty.line().is_err());
    let mut nl = TokenStream::new("\nx");
    assert!(nl.line().is_err());
    assert!(!nl.is_empty());
}

#[test]
fn token_stops_at_tab() {
    let mut ts = TokenStream::new("\tx");
    assert!(ts.token().is_err());
}
