use vstd::prelude::*;
use vstd::string::*;

verus! {

/// The characters that Unicode gives the White_Space property.
pub open spec fn is_unicode_ws(c: char) -> bool {
    let u = c as u32;
    (0x09 <= u && u <= 0x0D) || u == 0x20 || u == 0x85 || u == 0xA0 || u == 0x1680 || (0x2000 <= u
        && u <= 0x200A) || u == 0x2028 || u == 0x2029 || u == 0x202F || u == 0x205F || u == 0x3000
}

/// A character that ends a token: whitespace, or the path separator `.`.
pub open spec fn is_token_stop(c: char) -> bool {
    is_unicode_ws(c) || c == '.'
}

/// `n` is the length of the run of characters satisfying `p` that opens `s`.
pub open spec fn run_end(s: Seq<char>, p: spec_fn(char) -> bool, n: int) -> bool {
    &&& 0 <= n <= s.len()
    &&& forall|j: int| 0 <= j < n ==> #[trigger] p(s[j])
    &&& (n == s.len() || !p(s[n]))
}

/// The length of the run of characters satisfying `p` that opens `s`.
pub open spec fn run_len(s: Seq<char>, p: spec_fn(char) -> bool) -> int {
    choose|n: int| run_end(s, p, n)
}

/// There is one such run, and `run_len` gives its length.
pub proof fn lemma_run_len(s: Seq<char>, p: spec_fn(char) -> bool, n: int)
    requires
        run_end(s, p, n),
    ensures
        run_len(s, p) == n,
{
    let m = run_len(s, p);
    assert(run_end(s, p, m));
    if m < n {
        assert(p(s[m]));
    } else if m > n {
        assert(p(s[n]));
    }
}

pub open spec fn is_blank(c: char) -> bool {
    c == ' ' || c == '\n'
}

pub open spec fn blank() -> spec_fn(char) -> bool {
    |c: char| is_blank(c)
}

pub open spec fn space() -> spec_fn(char) -> bool {
    |c: char| c == ' '
}

pub open spec fn newline() -> spec_fn(char) -> bool {
    |c: char| c == '\n'
}

pub open spec fn not_newline() -> spec_fn(char) -> bool {
    |c: char| c != '\n'
}

pub open spec fn word_char() -> spec_fn(char) -> bool {
    |c: char| !is_token_stop(c)
}

/// The number of spaces that open `s`, or 0 where `s` holds nothing but spaces.
pub open spec fn indentation_of(s: Seq<char>) -> int {
    let k = run_len(s, space());
    if k == s.len() {
        0
    } else {
        k
    }
}

pub open spec fn non_ws_char() -> spec_fn(char) -> bool {
    |c: char| !is_unicode_ws(c)
}

/// The length of the token that opens `rest` (no blanks open it). Where `dots` holds, `.` is a
/// token of its own and ends any other token.
pub open spec fn token_len(rest: Seq<char>, dots: bool) -> int {
    if dots && rest.len() > 0 && rest[0] == '.' {
        1
    } else if dots {
        run_len(rest, word_char())
    } else {
        run_len(rest, non_ws_char())
    }
}

/// The length of the first line of `s`, with its newline if it has one; 0 where `line` would
/// fail (nothing left, or a newline first).
pub open spec fn line_len(s: Seq<char>) -> int {
    let k = run_len(s, not_newline());
    if k <= 0 || k > s.len() {
        0
    } else if k < s.len() {
        k + 1
    } else {
        s.len() as int
    }
}

/// The length of the run of lines that open `s` and are all indented deeper than `thresh`.
pub open spec fn deeper_lines_len(s: Seq<char>, thresh: int) -> int
    decreases s.len(),
{
    let l = line_len(s);
    if l <= 0 || l > s.len() || indentation_of(s.subrange(0, l)) <= thresh {
        0
    } else {
        l + deeper_lines_len(s.subrange(l, s.len() as int), thresh)
    }
}

/// The run of deeper lines has no negative length.
pub proof fn lemma_deeper_nonneg(s: Seq<char>, thresh: int)
    ensures
        deeper_lines_len(s, thresh) >= 0,
    decreases s.len(),
{
    let l = line_len(s);
    if !(l <= 0 || l > s.len() || indentation_of(s.subrange(0, l)) <= thresh) {
        lemma_deeper_nonneg(s.subrange(l, s.len() as int), thresh);
    }
}

/// The length of the block by the offsides rule that opens `s`: its first line and the lines
/// after it that are indented deeper than the first line.
pub open spec fn block_len(s: Seq<char>) -> int {
    let l = line_len(s);
    if l <= 0 || l > s.len() {
        0
    } else {
        l + deeper_lines_len(s.subrange(l, s.len() as int), indentation_of(s))
    }
}

/// For the section that opens `s`, the length of its content and the length consumed: blocks
/// are read in turn; the first whose first token is `---` ends the section and is consumed with
/// it; where no block can be read, the section ends there.
pub open spec fn section_lens(s: Seq<char>) -> (int, int)
    decreases s.len(),
{
    let b = block_len(s);
    if b <= 0 || b > s.len() {
        (0, 0)
    } else if first_token(s.subrange(0, b)) == seq!['-', '-', '-'] {
        (0, b)
    } else {
        let (c, k) = section_lens(s.subrange(b, s.len() as int));
        (b + c, b + k)
    }
}

/// The text of the token that `token` would read from `s`: empty where there is none.
pub open spec fn first_token(s: Seq<char>) -> Seq<char> {
    let k = run_len(s, blank());
    let rest = s.subrange(k, s.len() as int);
    rest.subrange(0, token_len(rest, true))
}

/// What is left of `s` once `token` has read from it.
pub open spec fn after_token(s: Seq<char>) -> Seq<char> {
    let k = run_len(s, blank());
    let rest = s.subrange(k, s.len() as int);
    rest.subrange(token_len(rest, true), rest.len() as int)
}

/// A line or column counter moved on by `n`, wrapping as a 16-bit counter.
pub open spec fn pos_add(x: u16, n: int) -> u16 {
    ((x + n) % 0x1_0000) as u16
}

/// The number of newlines in `s`.
pub open spec fn count_newlines(s: Seq<char>) -> int
    decreases s.len(),
{
    if s.len() == 0 {
        0
    } else {
        count_newlines(s.drop_last()) + if s.last() == '\n' { 1int } else { 0 }
    }
}

/// The number of characters after the last newline of `s`.
pub open spec fn last_line_len(s: Seq<char>) -> int
    decreases s.len(),
{
    if s.len() == 0 || s.last() == '\n' {
        0
    } else {
        last_line_len(s.drop_last()) + 1
    }
}

/// Where the position (`line`, `col`) stands after the blanks `s` (spaces and newlines).
pub open spec fn pos_after_blanks(s: Seq<char>, line: u16, col: u16) -> (u16, u16)
    decreases s.len(),
{
    if s.len() == 0 {
        (line, col)
    } else {
        let (l, c) = pos_after_blanks(s.drop_last(), line, col);
        if s.last() == '\n' {
            (pos_add(l, 1), 0u16)
        } else {
            (l, pos_add(c, 1))
        }
    }
}

/// Whether `c` is whitespace in Unicode's sense.
pub fn is_whitespace(c: char) -> (r: bool)
    ensures
        r == is_unicode_ws(c),
{
    let u = c as u32;
    (0x09 <= u && u <= 0x0D) || u == 0x20 || u == 0x85 || u == 0xA0 || u == 0x1680 || (0x2000 <= u
        && u <= 0x200A) || u == 0x2028 || u == 0x2029 || u == 0x202F || u == 0x205F || u == 0x3000
}

fn bump(x: u16, n: usize) -> (r: u16)
    ensures
        r == pos_add(x, n as int),
{
    let m: u32 = (n % 0x1_0000) as u32;
    let r: u32 = (x as u32 + m) % 0x1_0000;
    proof {
        let xi = x as int;
        let ni = n as int;
        assert((xi + ni % 0x1_0000) % 0x1_0000 == (xi + ni) % 0x1_0000) by (nonlinear_arith)
            requires
                0 <= xi,
                0 <= ni,
                xi < 0x1_0000,
        {
            vstd::arithmetic::div_mod::lemma_add_mod_noop(xi, ni, 0x1_0000);
            vstd::arithmetic::div_mod::lemma_mod_twice(xi, 0x1_0000);
            vstd::arithmetic::div_mod::lemma_small_mod(xi as nat, 0x1_0000);
        }
    }
    r as u16
}

/// The number of spaces that open `s`, or 0 where `s` holds nothing but spaces.
fn indentation(s: &str) -> (r: usize)
    ensures
        r == indentation_of(s@),
{
    let n = s.unicode_len();
    let mut i: usize = 0;
    while i < n
        invariant
            n == s@.len(),
            i <= n,
            forall|j: int| 0 <= j < i ==> #[trigger] space()(s@[j]),
        ensures
            i <= n,
            i == n || !space()(s@[i as int]),
        decreases n - i,
    {
        if s.get_char(i) != ' ' {
            break;
        }
        i += 1;
    }
    proof {
        lemma_run_len(s@, space(), i as int);
    }
    if i == n {
        0
    } else {
        i
    }
}

/// A suffix of a suffix of `s` is a suffix of `s`.
proof fn lemma_suffix_of_suffix(s: Seq<char>, t: Seq<char>, u: Seq<char>)
    requires
        t.len() <= s.len(),
        s.subrange(s.len() - t.len(), s.len() as int) == t,
        u.len() <= t.len(),
        t.subrange(t.len() - u.len(), t.len() as int) == u,
    ensures
        s.subrange(s.len() - u.len(), s.len() as int) == u,
{
    assert(s.subrange(s.len() - u.len(), s.len() as int) =~= u);
}

/// Whether `s` is the separator `---`.
fn is_separator(s: &str) -> (r: bool)
    ensures
        r == (s@ == seq!['-', '-', '-']),
{
    if s.unicode_len() != 3 {
        return false;
    }
    let r = s.get_char(0) == '-' && s.get_char(1) == '-' && s.get_char(2) == '-';
    proof {
        if r {
            assert(s@ =~= seq!['-', '-', '-']);
        }
    }
    r
}

/// A span of text: from (`line0`, `col0`) to (`line1`, `col1`).
#[derive(Debug, Clone, Copy, PartialEq, Eq)]
pub struct Range {
    pub line0: u16,
    pub col0: u16,
    pub line1: u16,
    pub col1: u16,
}

/// A token and the range from which it came.
#[derive(Debug, Clone, Copy, PartialEq, Eq)]
pub struct Token<'a> {
    pub r: Range,
    pub s: &'a str,
}

/// A cursor over a piece of text that knows the line and column where the text starts.
#[derive(Clone, Copy, Debug)]
pub struct TokenStream<'a> {
    source: &'a str,
    line: u16,
    col: u16,
}

impl<'a> TokenStream<'a> {
    /// The text that is left.
    pub closed spec fn text(&self) -> Seq<char> {
        self.source@
    }

    /// The line on which the text that is left starts.
    pub closed spec fn line_no(&self) -> u16 {
        self.line
    }

    /// The column at which the text that is left starts.
    pub closed spec fn col_no(&self) -> u16 {
        self.col
    }

    /// A stream over `s`, starting at line 0, column 0.
    pub fn new(s: &'a str) -> (r: TokenStream<'a>)
        ensures
            r.text() == s@,
            r.line_no() == 0,
            r.col_no() == 0,
    {
        TokenStream { source: s, line: 0, col: 0 }
    }

    /// Cuts `self` where `suffix` begins; `suffix` is what is left of `self` after some reading.
    fn endat(&mut self, suffix: &Self)
        requires
            suffix.text().len() <= old(self).text().len(),
        ensures
            final(self).text() == old(self).text().subrange(
                0,
                old(self).text().len() - suffix.text().len(),
            ),
            final(self).line_no() == old(self).line_no(),
            final(self).col_no() == old(self).col_no(),
    {
        let offset = self.source.unicode_len() - suffix.source.unicode_len();
        self.source = self.source.substring_char(0, offset);
    }

    /// The text that is left and the range it spans.
    pub fn tail(&mut self) -> (r: (&'a str, Range))
        ensures
            *final(self) == *old(self),
            r.0@ == old(self).text(),
            r.1 == (Range {
                line0: old(self).line_no(),
                col0: old(self).col_no(),
                line1: pos_add(old(self).line_no(), count_newlines(old(self).text())),
                col1: pos_add(0, last_line_len(old(self).text())),
            }),
    {
        let n = self.source.unicode_len();
        let mut newlines: usize = 0;
        let mut last: usize = 0;
        let mut i: usize = 0;
        while i < n
            invariant
                n == self.source@.len(),
                i <= n,
                newlines == count_newlines(self.source@.subrange(0, i as int)),
                last == last_line_len(self.source@.subrange(0, i as int)),
                newlines <= i,
                last <= i,
            decreases n - i,
        {
            let c = self.source.get_char(i);
            assert(self.source@.subrange(0, i + 1).drop_last() == self.source@.subrange(0, i as int));
            if c == '\n' {
                newlines += 1;
                last = 0;
            } else {
                last += 1;
            }
            i += 1;
        }
        assert(self.source@.subrange(0, n as int) == self.source@);
        let line1 = bump(self.line, newlines);
        let col1 = bump(0, last);
        (self.source, Range { line0: self.line, col0: self.col, line1, col1 })
    }

    /// Consumes and returns the first line that is left, with its newline if it has one.
    ///
    /// Fails where nothing is left, or where the text left starts with a newline.
    pub fn line(&mut self) -> (r: Result<Self, (String, Range)>)
        ensures
            ({
                let s = old(self).text();
                let k = run_len(s, not_newline());
                &&& r is Err <==> k == 0
                &&& r is Err ==> *final(self) == *old(self)
                &&& r is Ok ==> {
                    let l = r->Ok_0;
                    &&& l.line_no() == old(self).line_no()
                    &&& l.col_no() == old(self).col_no()
                    &&& final(self).line_no() == pos_add(old(self).line_no(), 1)
                    &&& if k < s.len() {
                        l.text() == s.subrange(0, k + 1)
                            && final(self).text() == s.subrange(k + 1, s.len() as int)
                            && final(self).col_no() == 0
                    } else {
                        l.text() == s && final(self).text().len() == 0
                            && final(self).col_no() == old(self).col_no()
                    }
                }
            }),
            r is Ok ==> final(self).text().len() < old(self).text().len(),
            0 <= run_len(old(self).text(), not_newline()) <= old(self).text().len(),
            run_end(old(self).text(), not_newline(), run_len(old(self).text(), not_newline())),
            final(self).text() == old(self).text().subrange(
                old(self).text().len() - final(self).text().len(),
                old(self).text().len() as int,
            ),
    {
        let n = self.source.unicode_len();
        let mut i: usize = 0;
        while i < n
            invariant
                n == self.source@.len(),
                i <= n,
                forall|j: int| 0 <= j < i ==> #[trigger] not_newline()(self.source@[j]),
            ensures
                i <= n,
                i == n || !not_newline()(self.source@[i as int]),
            decreases n - i,
        {
            if self.source.get_char(i) == '\n' {
                break;
            }
            i += 1;
        }
        proof {
            lemma_run_len(self.source@, not_newline(), i as int);
        }
        let mut ret = *self;
        if i == 0 {
            let (_, range) = self.tail();
            if n == 0 {
                return Err(("token stream starts with a newline".to_string(), range));
            }
            return Err(("token stream is empty".to_string(), range));
        }
        if i == n {
            self.source = self.source.substring_char(n, n);
            self.line = bump(self.line, 1);
            assert(self.source@ =~= old(self).source@.subrange(n as int, n as int));
            Ok(ret)
        } else {
            self.source = self.source.substring_char(i + 1, n);
            self.line = bump(self.line, 1);
            self.col = 0;
            ret.endat(self);
            Ok(ret)
        }
    }

    /// Skips the newlines that open the text, unless the text holds nothing but newlines.
    pub fn skip_blank_lines(&mut self)
        ensures
            ({
                let s = old(self).text();
                let k = run_len(s, newline());
                if k == s.len() {
                    *final(self) == *old(self)
                } else {
                    &&& final(self).text() == s.subrange(k, s.len() as int)
                    &&& final(self).line_no() == pos_add(old(self).line_no(), k)
                    &&& final(self).col_no() == old(self).col_no()
                }
            }),
    {
        let n = self.source.unicode_len();
        let mut i: usize = 0;
        while i < n
            invariant
                n == self.source@.len(),
                i <= n,
                forall|j: int| 0 <= j < i ==> #[trigger] newline()(self.source@[j]),
            ensures
                i <= n,
                i == n || !newline()(self.source@[i as int]),
            decreases n - i,
        {
            if self.source.get_char(i) != '\n' {
                break;
            }
            i += 1;
        }
        proof {
            lemma_run_len(self.source@, newline(), i as int);
        }
        if i < n {
            self.source = self.source.substring_char(i, n);
            self.line = bump(self.line, i);
        }
    }

    /// Skips the spaces and newlines that open the text, keeping the line and column in step.
    pub fn skip_whitespace(&mut self)
        ensures
            ({
                let s = old(self).text();
                let k = run_len(s, blank());
                &&& final(self).text() == s.subrange(k, s.len() as int)
                &&& (final(self).line_no(), final(self).col_no()) == pos_after_blanks(
                    s.subrange(0, k),
                    old(self).line_no(),
                    old(self).col_no(),
                )
            }),
            0 <= run_len(old(self).text(), blank()) <= old(self).text().len(),
    {
        let ghost s = self.source@;
        let n = self.source.unicode_len();
        let mut i: usize = 0;
        while i < n
            invariant
                n == s.len(),
                s == old(self).source@,
                self.source == old(self).source,
                i <= n,
                forall|j: int| 0 <= j < i ==> #[trigger] blank()(s[j]),
                (self.line, self.col) == pos_after_blanks(
                    s.subrange(0, i as int),
                    old(self).line,
                    old(self).col,
                ),
            ensures
                i <= n,
                i == n || !blank()(s[i as int]),
            decreases n - i,
        {
            let c = self.source.get_char(i);
            assert(s.subrange(0, i + 1).drop_last() == s.subrange(0, i as int));
            if c == '\n' {
                self.line = bump(self.line, 1);
                self.col = 0;
            } else if c == ' ' {
                self.col = bump(self.col, 1);
            } else {
                break;
            }
            i += 1;
        }
        proof {
            lemma_run_len(s, blank(), i as int);
        }
        self.source = self.source.substring_char(i, n);
    }

    /// Consumes a token and the spaces and newlines before it, and returns the token.
    ///
    /// A token is a run of characters that are not whitespace; where `dots` holds, `.` is a token
    /// of its own and ends any other token.
    pub fn token_with(&mut self, dots: bool) -> (r: Result<Token<'a>, (String, Range)>)
        ensures
            ({
                let s = old(self).text();
                let k = run_len(s, blank());
                let rest = s.subrange(k, s.len() as int);
                let (l, c) = pos_after_blanks(s.subrange(0, k), old(self).line_no(), old(self).col_no());
                let n = token_len(rest, dots);
                &&& r is Err <==> n == 0
                &&& r is Err ==> final(self).text() == rest && final(self).line_no() == l
                    && final(self).col_no() == c
                &&& r is Ok ==> {
                    let t = r->Ok_0;
                    &&& t.s@ == rest.subrange(0, n)
                    &&& t.r == (Range { line0: l, col0: c, line1: l, col1: pos_add(c, n) })
                    &&& final(self).text() == rest.subrange(n, rest.len() as int)
                    &&& final(self).line_no() == l
                    &&& final(self).col_no() == pos_add(c, n)
                }
            }),
            r is Ok ==> final(self).text().len() < old(self).text().len(),
            0 <= run_len(old(self).text(), blank()) <= old(self).text().len(),
            final(self).text().len() <= old(self).text().len(),
            0 <= token_len(
                old(self).text().subrange(
                    run_len(old(self).text(), blank()),
                    old(self).text().len() as int,
                ),
                dots,
            ) <= old(self).text().len() - run_len(old(self).text(), blank()),
    {
        self.skip_whitespace();
        let n = self.source.unicode_len();
        let length: usize = if dots && n > 0 && self.source.get_char(0) == '.' {
            1
        } else if dots {
            let mut i: usize = 0;
            while i < n
                invariant
                    n == self.source@.len(),
                    i <= n,
                    forall|j: int| 0 <= j < i ==> #[trigger] word_char()(self.source@[j]),
                ensures
                    i <= n,
                    i == n || !word_char()(self.source@[i as int]),
                decreases n - i,
            {
                let c = self.source.get_char(i);
                if is_whitespace(c) || c == '.' {
                    break;
                }
                i += 1;
            }
            proof {
                lemma_run_len(self.source@, word_char(), i as int);
            }
            i
        } else {
            let mut i: usize = 0;
            while i < n
                invariant
                    n == self.source@.len(),
                    i <= n,
                    forall|j: int| 0 <= j < i ==> #[trigger] non_ws_char()(self.source@[j]),
                ensures
                    i <= n,
                    i == n || !non_ws_char()(self.source@[i as int]),
                decreases n - i,
            {
                if is_whitespace(self.source.get_char(i)) {
                    break;
                }
                i += 1;
            }
            proof {
                lemma_run_len(self.source@, non_ws_char(), i as int);
            }
            i
        };
        if length == 0 {
            let (_, range) = self.tail();
            return Err(("expected token, not nothing".to_string(), range));
        }
        let s = self.source.substring_char(0, length);
        let col1 = bump(self.col, length);
        let ret = Token { s, r: Range { line0: self.line, col0: self.col, line1: self.line, col1 } };
        self.col = col1;
        self.source = self.source.substring_char(length, n);
        Ok(ret)
    }

    /// Consumes a token and the spaces and newlines before it, and returns the token.
    ///
    /// A token is a `.`, or a run of characters that are neither whitespace nor `.`.
    pub fn token(&mut self) -> (r: Result<Token<'a>, (String, Range)>)
        ensures
            ({
                let s = old(self).text();
                let k = run_len(s, blank());
                let rest = s.subrange(k, s.len() as int);
                let (l, c) = pos_after_blanks(s.subrange(0, k), old(self).line_no(), old(self).col_no());
                let n = token_len(rest, true);
                &&& r is Err <==> n == 0
                &&& r is Err ==> final(self).text() == rest && final(self).line_no() == l
                    && final(self).col_no() == c
                &&& r is Ok ==> {
                    let t = r->Ok_0;
                    &&& t.s@ == rest.subrange(0, n)
                    &&& t.r == (Range { line0: l, col0: c, line1: l, col1: pos_add(c, n) })
                    &&& final(self).text() == rest.subrange(n, rest.len() as int)
                    &&& final(self).line_no() == l
                    &&& final(self).col_no() == pos_add(c, n)
                }
            }),
            r is Ok ==> final(self).text().len() < old(self).text().len(),
            r is Ok <==> first_token(old(self).text()).len() > 0,
            final(self).text().len() <= old(self).text().len(),
            r is Ok ==> r->Ok_0.s@ == first_token(old(self).text()) && final(self).text()
                == after_token(old(self).text()),
    {
        self.token_with(true)
    }

    /// Consumes and returns the next block by the offsides rule: its first line, and the lines
    /// after it up to (not including) the first one indented no deeper than the first line.
    ///
    /// Fails, consuming nothing, where no line is left.
    pub fn block(&mut self) -> (r: Result<Self, (String, Range)>)
        ensures
            r is Err <==> run_len(old(self).text(), not_newline()) == 0,
            r is Err ==> *final(self) == *old(self) && block_len(old(self).text()) == 0,
            r is Ok ==> {
                let b = r->Ok_0;
                &&& b.text() + final(self).text() == old(self).text()
                &&& 0 < block_len(old(self).text()) <= old(self).text().len()
                &&& run_len(b.text(), not_newline()) > 0
                &&& b.text() == old(self).text().subrange(0, block_len(old(self).text()))
                &&& final(self).text() == old(self).text().subrange(
                    old(self).text().len() - final(self).text().len(),
                    old(self).text().len() as int,
                )
                &&& b.text().len() > 0
                &&& b.line_no() == old(self).line_no()
                &&& b.col_no() == old(self).col_no()
            },
    {
        let mut og = *self;
        let thresh = indentation(self.source);
        let ghost s0 = self.source@;
        let first = self.line();
        if first.is_err() {
            return first;
        }
        let ghost l0 = line_len(s0);
        assert(self.source@ == s0.subrange(l0, s0.len() as int));
        let mut backup = *self;
        loop
            invariant_except_break
                backup == *self,
            invariant
                backup.source@.len() < og.source@.len(),
                og.source@.subrange(og.source@.len() - backup.source@.len(), og.source@.len() as int)
                    == backup.source@,
                og == *old(self),
                s0 == og.source@,
                thresh == indentation_of(s0),
                0 < l0 <= s0.len(),
                l0 + deeper_lines_len(s0.subrange(l0, s0.len() as int), thresh as int) == (s0.len()
                    - backup.source@.len()) + deeper_lines_len(backup.source@, thresh as int),
            ensures
                deeper_lines_len(backup.source@, thresh as int) == 0,
            decreases self.source@.len(),
        {
            let ghost cur = self.source@;
            match self.line() {
                Ok(line) => {
                    proof {
                        assert(line.source@ == cur.subrange(0, line_len(cur)));
                    }
                    if indentation(line.source) <= thresh {
                        break;
                    }
                    proof {
                        lemma_suffix_of_suffix(og.source@, backup.source@, self.source@);
                        assert(self.source@ == cur.subrange(line_len(cur), cur.len() as int));
                    }
                    backup = *self;
                },
                Err(_) => {
                    break;
                },
            }
        }
        *self = backup;
        og.endat(self);
        proof {
            assert(og.source@ + self.source@ =~= old(self).source@);
            assert(block_len(s0) == s0.len() - self.source@.len());
            let k = run_len(s0, not_newline());
            lemma_deeper_nonneg(s0.subrange(l0, s0.len() as int), thresh as int);
            assert(og.source@ == s0.subrange(0, block_len(s0)));
            assert(forall|j: int| 0 <= j < k ==> og.source@[j] == s0[j]);
            if k < s0.len() {
                assert(og.source@[k] == s0[k]);
            }
            assert(run_end(og.source@, not_newline(), k));
            lemma_run_len(og.source@, not_newline(), k);
        }
        Ok(og)
    }

    /// Consumes and returns the text up to the next block that opens with the token `---`;
    /// that block is consumed too. Where a block cannot be read first (nothing left, or a blank
    /// line), the section ends there.
    pub fn section(&mut self) -> (r: Self)
        ensures
            ({
                let (c, k) = section_lens(old(self).text());
                &&& 0 <= c <= k <= old(self).text().len()
                &&& r.text() == old(self).text().subrange(0, c)
                &&& final(self).text() == old(self).text().subrange(k, old(self).text().len() as int)
            }),
            r.text().len() + final(self).text().len() <= old(self).text().len(),
            r.text() == old(self).text().subrange(0, r.text().len() as int),
            final(self).text() == old(self).text().subrange(
                old(self).text().len() - final(self).text().len(),
                old(self).text().len() as int,
            ),
            r.line_no() == old(self).line_no(),
            r.col_no() == old(self).col_no(),
    {
        let mut og = *self;
        let mut backup = *self;
        let ghost s0 = self.source@;
        loop
            invariant_except_break
                backup == *self,
            invariant
                backup.source@.len() <= og.source@.len(),
                og.source@.subrange(og.source@.len() - backup.source@.len(), og.source@.len() as int)
                    == backup.source@,
                self.source@.len() <= backup.source@.len(),
                og.source@.subrange(og.source@.len() - self.source@.len(), og.source@.len() as int)
                    == self.source@,
                og == *old(self),
                s0 == og.source@,
                ({
                    let done = s0.len() - backup.source@.len();
                    let (c, k) = section_lens(backup.source@);
                    let (c0, k0) = section_lens(s0);
                    c0 == done + c && k0 == done + k
                }),
            ensures
                ({
                    let (c, k) = section_lens(backup.source@);
                    c == 0 && self.source@ == backup.source@.subrange(k, backup.source@.len() as int)
                        && 0 <= k <= backup.source@.len()
                }),
            decreases self.source@.len(),
        {
            let ghost before = self.source@;
            match self.block() {
                Ok(mut block) => {
                    proof {
                        lemma_suffix_of_suffix(og.source@, before, self.source@);
                    }
                    let ghost btext = block.source@;
                    match block.token() {
                        Ok(t) => {
                            if is_separator(t.s) {
                                proof {
                                    assert(self.source@ =~= before.subrange(
                                        block_len(before),
                                        before.len() as int,
                                    ));
                                }
                                break;
                            }
                        },
                        Err(_) => {},
                    }
                    proof {
                        assert(first_token(btext) != seq!['-', '-', '-']);
                        assert(self.source@ =~= before.subrange(block_len(before), before.len() as int));
                    }
                    backup = *self;
                },
                Err(_) => {
                    proof {
                        assert(self.source@ =~= before.subrange(0, before.len() as int));
                    }
                    break;
                },
            }
        }
        og.endat(&backup);
        proof {
            let (c0, k0) = section_lens(s0);
            assert(og.source@ =~= s0.subrange(0, c0));
            assert(self.source@ =~= s0.subrange(k0, s0.len() as int));
        }
        og
    }

    /// Whether nothing is left.
    pub fn is_empty(&self) -> (r: bool)
        ensures
            r == (self.text().len() == 0),
    {
        self.source.unicode_len() == 0
    }
}

} // verus!
