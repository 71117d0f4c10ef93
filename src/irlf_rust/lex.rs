use vstd::prelude::*;

pub use crate::irlf_ser::lex::{Range, Token};
use crate::irlf_ser::lex::{
    blank, block_len, not_newline, newline, pos_add, pos_after_blanks, run_len, token_len,
};

verus! {

/// A cursor over text in the whitespace-separated form: tokens are runs of non-whitespace
/// characters, and a failed read yields `None`.
#[derive(Clone, Copy, Debug)]
pub struct TokenStream<'a> {
    inner: crate::irlf_ser::lex::TokenStream<'a>,
}

impl<'a> TokenStream<'a> {
    /// The text that is left.
    pub closed spec fn text(&self) -> Seq<char> {
        self.inner.text()
    }

    /// The line on which the text that is left starts.
    pub closed spec fn line_no(&self) -> u16 {
        self.inner.line_no()
    }

    /// The column at which the text that is left starts.
    pub closed spec fn col_no(&self) -> u16 {
        self.inner.col_no()
    }

    /// A stream over `s`, starting at line 0, column 0.
    pub fn new(s: &'a str) -> (r: TokenStream<'a>)
        ensures
            r.text() == s@,
            r.line_no() == 0,
            r.col_no() == 0,
    {
        TokenStream { inner: crate::irlf_ser::lex::TokenStream::new(s) }
    }

    /// Consumes and returns the next block by the offsides rule: its first line and the lines
    /// after it indented deeper than the first line; `None`, consuming nothing, where no line is
    /// left.
    pub fn offsides(&mut self) -> (r: Option<Self>)
        ensures
            r is None <==> run_len(old(self).text(), not_newline()) == 0,
            r is None ==> *final(self) == *old(self),
            r is Some ==> {
                let b = r->Some_0;
                &&& b.text() + final(self).text() == old(self).text()
                &&& b.text() == old(self).text().subrange(0, block_len(old(self).text()))
                &&& b.text().len() > 0
                &&& b.line_no() == old(self).line_no()
                &&& b.col_no() == old(self).col_no()
            },
    {
        match self.inner.block() {
            Ok(b) => Some(TokenStream { inner: b }),
            Err(_) => None,
        }
    }

    /// Consumes and returns the first line that is left, with its newline if it has one; `None`,
    /// consuming nothing, where nothing is left or the text left starts with a newline.
    pub fn line(&mut self) -> (r: Option<Self>)
        ensures
            ({
                let s = old(self).text();
                let k = run_len(s, not_newline());
                &&& r is None <==> k == 0
                &&& r is None ==> *final(self) == *old(self)
                &&& r is Some ==> {
                    let l = r->Some_0;
                    &&& l.line_no() == old(self).line_no()
                    &&& l.col_no() == old(self).col_no()
                    &&& final(self).line_no() == pos_add(old(self).line_no(), 1)
                    &&& if k < s.len() {
                        l.text() == s.subrange(0, k + 1)
                            && final(self).text() == s.subrange(k + 1, s.len() as int)
                            && final(self).col_no() == 0
                    } else {
                        l.text() == s && final(self).text().len() == 0
                            && final(self).col_no() == old(self).col_no()
                    }
                }
            }),
    {
        match self.inner.line() {
            Ok(l) => Some(TokenStream { inner: l }),
            Err(_) => None,
        }
    }

    /// Skips the newlines that open the text, unless the text holds nothing but newlines.
    pub fn skip_blank_lines(&mut self)
        ensures
            ({
                let s = old(self).text();
                let k = run_len(s, newline());
                if k == s.len() {
                    *final(self) == *old(self)
                } else {
                    &&& final(self).text() == s.subrange(k, s.len() as int)
                    &&& final(self).line_no() == pos_add(old(self).line_no(), k)
                    &&& final(self).col_no() == old(self).col_no()
                }
            }),
    {
        self.inner.skip_blank_lines();
    }

    /// Skips the spaces and newlines that open the text, keeping the line and column in step.
    pub fn skip_whitespace(&mut self)
        ensures
            ({
                let s = old(self).text();
                let k = run_len(s, blank());
                &&& final(self).text() == s.subrange(k, s.len() as int)
                &&& (final(self).line_no(), final(self).col_no()) == pos_after_blanks(
                    s.subrange(0, k),
                    old(self).line_no(),
                    old(self).col_no(),
                )
            }),
    {
        self.inner.skip_whitespace();
    }

    /// Consumes a run of non-whitespace characters and the spaces and newlines before it, and
    /// returns it; `None` where no such run follows.
    pub fn token(&mut self) -> (r: Option<Token<'a>>)
        ensures
            ({
                let s = old(self).text();
                let k = run_len(s, blank());
                let rest = s.subrange(k, s.len() as int);
                let (l, c) = pos_after_blanks(s.subrange(0, k), old(self).line_no(), old(self).col_no());
                let n = token_len(rest, false);
                &&& r is None <==> n == 0
                &&& r is None ==> final(self).text() == rest && final(self).line_no() == l
                    && final(self).col_no() == c
                &&& r is Some ==> {
                    let t = r->Some_0;
                    &&& t.s@ == rest.subrange(0, n)
                    &&& t.r == (Range { line0: l, col0: c, line1: l, col1: pos_add(c, n) })
                    &&& final(self).text() == rest.subrange(n, rest.len() as int)
                    &&& final(self).line_no() == l
                    &&& final(self).col_no() == pos_add(c, n)
                }
            }),
    {
        match self.inner.token_with(false) {
            Ok(t) => Some(t),
            Err(_) => None,
        }
    }
}

} // verus!
