use irlf::irlf_rust::lex::{Range, Token, TokenStream};

#[test]
fn test_token() {
    let mut ts = TokenStream::new("this is");
    assert_eq!(
        ts.token(),
        Some(Token { s: "this", r: Range { line0: 0, col0: 0, line1: 0, col1: 4 } })
    );
    assert_eq!(
        ts.token(),
        Some(Token { s: "is", r: Range { line0: 0, col0: 5, line1: 0, col1: 7 } })
    );
    assert_eq!(ts.token(), None);
}

#[test]
fn test_offsides() {
    let mut ts = TokenStream::new(
        "
    the most
      exciting test
    imaginable",
    );
    ts.skip_blank_lines();
    let mut block = ts.offsides().unwrap();
    let mut line = block.line().unwrap();
    assert_eq!(
        line.token(),
        Some(Token { s: "the", r: Range { line0: 1, col0: 4, line1: 1, col1: 7 } })
    );
    line.token();
    assert_eq!(line.token(), None);
    line = block.line().unwrap();
    assert_eq!(
        line.token(),
        Some(Token { s: "exciting", r: Range { line0: 2, col0: 6, line1: 2, col1: 14 } })
    );
    line.token();
    assert_eq!(line.token(), None);
    let next_line_in_block = block.line();
    assert!(next_line_in_block.is_none());
    line = ts.line().unwrap();
    assert_eq!(
        line.token(),
        Some(Token { s: "imaginable", r: Range { line0: 3, col0: 4, line1: 3, col1: 14 } })
    );
}

#[test]
fn plain_token_keeps_dots() {
    let mut ts = TokenStream::new("a.b c");
    assert_eq!(ts.token().unwrap().s, "a.b");
    assert_eq!(ts.token().unwrap().s, "c");
}
