use vstd::prelude::*;
use vstd::string::*;

use crate::irlf_ser::idmap::IdMap;
use crate::irlf_ser::ir::{
    BinaryCtor, Connection, Ctor, CtorCall, InstRef, LibCtor, Program, StructlikeCtor,
};
use crate::irlf_ser::lex::{
    after_token, blank, block_len, first_token, is_unicode_ws, is_whitespace, line_len, not_newline, run_len,
    section_lens, Range, TokenStream,
};
use crate::lf_types::{Comm, CtorId, DebugOnlyId, IfaceNode, InstId, Side, SideMatch};

verus! {

/// The value of the digit `c` in base `radix` (10 or 16; either case of hex letter), if it is one.
pub open spec fn digit_value(c: char, radix: nat) -> Option<nat> {
    let u = c as u32;
    if 48 <= u && u <= 57 {
        Some((u - 48) as nat)
    } else if radix == 16 && 97 <= u && u <= 102 {
        Some((u - 87) as nat)
    } else if radix == 16 && 65 <= u && u <= 70 {
        Some((u - 55) as nat)
    } else {
        None
    }
}

pub open spec fn all_digits(s: Seq<char>, radix: nat) -> bool {
    forall|i: int| 0 <= i < s.len() ==> #[trigger] digit_value(s[i], radix) is Some
}

/// The number that the digits `s` write in base `radix`.
pub open spec fn digits_value(s: Seq<char>, radix: nat) -> nat
    decreases s.len(),
{
    if s.len() == 0 {
        0
    } else {
        digits_value(s.drop_last(), radix) * radix + match digit_value(s.last(), radix) {
            Some(d) => d,
            None => 0,
        }
    }
}

/// The unsigned 64-bit number that `t` writes in base `radix`, after an optional `+`.
pub open spec fn parse_number(t: Seq<char>, radix: nat) -> Option<u64> {
    let body = if t.len() > 0 && t[0] == '+' {
        t.drop_first()
    } else {
        t
    };
    if body.len() > 0 && all_digits(body, radix) && digits_value(body, radix) <= u64::MAX {
        Some(digits_value(body, radix) as u64)
    } else {
        None
    }
}

/// The id that a token writes: hexadecimal after `0x`, decimal otherwise.
pub open spec fn id_value(t: Seq<char>) -> Option<u64> {
    if t.len() >= 2 && t[0] == '0' && t[1] == 'x' {
        parse_number(t.subrange(2, t.len() as int), 16)
    } else {
        parse_number(t, 10)
    }
}

/// The continuation `(. id)*` that opens `s`: its ids and what follows it; `None` where a `.`
/// is not followed by an id.
pub open spec fn dots_tail(s: Seq<char>) -> Option<(Seq<u64>, Seq<char>)>
    decreases s.len(),
{
    if first_token(s) == seq!['.'] {
        let r = after_token(s);
        let t = first_token(r);
        let rest = after_token(r);
        if t.len() == 0 || id_value(t) is None || rest.len() >= s.len() {
            None
        } else {
            match dots_tail(rest) {
                Some((ids, tail)) => Some((seq![id_value(t)->Some_0] + ids, tail)),
                None => None,
            }
        }
    } else {
        Some((Seq::empty(), s))
    }
}

/// The dotted path `id (. id)*` that opens `s`: its ids and what follows it; `None` where there
/// is none.
pub open spec fn inst_ref_parse(s: Seq<char>) -> Option<(Seq<u64>, Seq<char>)> {
    let t = first_token(s);
    if t.len() == 0 || id_value(t) is None {
        None
    } else {
        match dots_tail(after_token(s)) {
            Some((ids, rest)) => Some((seq![id_value(t)->Some_0] + ids, rest)),
            None => None,
        }
    }
}

/// The connection `id path path` that opens `s`: its id, its two paths, and what follows it.
pub open spec fn connection_parse(s: Seq<char>) -> Option<(u64, Seq<u64>, Seq<u64>, Seq<char>)> {
    let t = first_token(s);
    if t.len() == 0 || id_value(t) is None {
        None
    } else {
        match inst_ref_parse(after_token(s)) {
            Some((l, r1)) => match inst_ref_parse(r1) {
                Some((r, r2)) => Some((id_value(t)->Some_0, l, r, r2)),
                None => None,
            },
            None => None,
        }
    }
}

/// The side filter that a side marker writes.
pub open spec fn side_match_of(t: Seq<char>) -> Option<SideMatch> {
    if t == seq!['L'] {
        Some(SideMatch::One(Side::Left))
    } else if t == seq!['R'] {
        Some(SideMatch::One(Side::Right))
    } else if t == seq!['A'] {
        Some(SideMatch::Both)
    } else {
        None
    }
}

/// The interface entry that opens `s`: a side marker, then `-` for a notification or a path;
/// and what follows it.
pub open spec fn iface_node_parse(s: Seq<char>) -> Option<(SideMatch, Comm<Seq<u64>>, Seq<char>)> {
    match side_match_of(first_token(s)) {
        None => None,
        Some(side) => {
            let r = after_token(s);
            if first_token(r) == seq!['-'] {
                Some((side, Comm::Notify, after_token(r)))
            } else {
                match inst_ref_parse(r) {
                    Some((ids, rest)) => Some((side, Comm::Data(ids), rest)),
                    None => None,
                }
            }
        }
    }
}

/// The instantiation line `sym id = ctor`: its symbol, id and constructor id.
pub open spec fn inst_line_parse(line: Seq<char>) -> Option<(Seq<char>, u64, u64)> {
    let t1 = first_token(line);
    let r1 = after_token(line);
    let t2 = first_token(r1);
    let r2 = after_token(r1);
    let t3 = first_token(r2);
    let r3 = after_token(r2);
    let t4 = first_token(r3);
    if t1.len() == 0 || t2.len() == 0 || id_value(t2) is None || t3 != seq!['='] || t4.len() == 0
        || id_value(t4) is None {
        None
    } else {
        Some((t1, id_value(t2)->Some_0, id_value(t4)->Some_0))
    }
}

/// The instantiation lines that `s` holds, up to the first line that cannot be read; `None`
/// where one of them does not parse.
pub open spec fn inst_lines(s: Seq<char>) -> Option<Seq<(Seq<char>, u64, u64)>>
    decreases s.len(),
{
    let l = line_len(s);
    if l <= 0 || l > s.len() {
        Some(Seq::empty())
    } else {
        match inst_line_parse(s.subrange(0, l)) {
            None => None,
            Some(x) => match inst_lines(s.subrange(l, s.len() as int)) {
                Some(xs) => Some(seq![x] + xs),
                None => None,
            },
        }
    }
}

/// The symbols of instantiations, the later one winning under the same id.
pub open spec fn sym_map(xs: Seq<(Seq<char>, u64, u64)>) -> Map<u64, Seq<char>>
    decreases xs.len(),
{
    if xs.len() == 0 {
        Map::empty()
    } else {
        sym_map(xs.drop_last()).insert(xs.last().1, xs.last().0)
    }
}

/// The constructors of instantiations, the later one winning under the same id.
pub open spec fn ctor_map(xs: Seq<(Seq<char>, u64, u64)>) -> Map<u64, u64>
    decreases xs.len(),
{
    if xs.len() == 0 {
        Map::empty()
    } else {
        ctor_map(xs.drop_last()).insert(xs.last().1, xs.last().2)
    }
}

/// The interface entries that `s` holds, separated by blanks.
pub open spec fn iface_items(s: Seq<char>) -> Option<Seq<(SideMatch, Comm<Seq<u64>>)>>
    decreases s.len(),
{
    let k = run_len(s, blank());
    let rest = s.subrange(k, s.len() as int);
    if rest.len() == 0 {
        Some(Seq::empty())
    } else {
        match iface_node_parse(rest) {
            None => None,
            Some((side, comm, r)) => if r.len() >= s.len() {
                None
            } else {
                match iface_items(r) {
                    Some(xs) => Some(seq![(side, comm)] + xs),
                    None => None,
                }
            },
        }
    }
}

/// The connections that `s` holds, one per line, up to the first line that cannot be read.
pub open spec fn conn_lines(s: Seq<char>) -> Option<Seq<(u64, Seq<u64>, Seq<u64>)>>
    decreases s.len(),
{
    let l = line_len(s);
    if l <= 0 || l > s.len() {
        Some(Seq::empty())
    } else {
        match connection_parse(s.subrange(0, l)) {
            None => None,
            Some((id, a, b, _)) => match conn_lines(s.subrange(l, s.len() as int)) {
                Some(xs) => Some(seq![(id, a, b)] + xs),
                None => None,
            },
        }
    }
}

/// The three sections that open `s`, and what follows the third.
pub open spec fn three_sections(s: Seq<char>) -> (Seq<char>, Seq<char>, Seq<char>, Seq<char>) {
    let (c1, k1) = section_lens(s);
    let t1 = s.subrange(k1, s.len() as int);
    let (c2, k2) = section_lens(t1);
    let t2 = t1.subrange(k2, t1.len() as int);
    let (c3, k3) = section_lens(t2);
    (s.subrange(0, c1), t1.subrange(0, c2), t2.subrange(0, c3), t2.subrange(k3, t2.len() as int))
}

/// The body of a composite that opens `s`: its instantiations, interface entries and
/// connections.
pub open spec fn structlike_parse(s: Seq<char>) -> Option<
    (Seq<(Seq<char>, u64, u64)>, Seq<(SideMatch, Comm<Seq<u64>>)>, Seq<(u64, Seq<u64>, Seq<u64>)>),
> {
    let (s1, s2, s3, _) = three_sections(s);
    match (inst_lines(s1), iface_items(s2), conn_lines(s3)) {
        (Some(a), Some(b), Some(c)) => Some((a, b, c)),
        _ => None,
    }
}

/// An interface entry with its path written as numbers.
pub open spec fn iface_view(n: IfaceNode<InstRef>) -> (SideMatch, Comm<Seq<u64>>) {
    (
        n.0,
        match n.1 {
            Comm::Notify => Comm::Notify,
            Comm::Data(p) => Comm::Data(id_numbers(p.0@)),
        },
    )
}

/// A connection with its paths written as numbers.
pub open spec fn conn_view(c: Connection) -> (u64, Seq<u64>, Seq<u64>) {
    (c.id.0, id_numbers(c.left.0@), id_numbers(c.right.0@))
}

/// The numbers of a sequence of ids.
pub open spec fn id_numbers(ids: Seq<InstId>) -> Seq<u64> {
    ids.map_values(|i: InstId| i.0)
}

/// Leading digits never write more than all the digits.
proof fn lemma_digits_prefix(s: Seq<char>, radix: nat, i: int)
    requires
        0 <= i <= s.len(),
        radix >= 1,
    ensures
        digits_value(s.subrange(0, i), radix) <= digits_value(s, radix),
    decreases s.len(),
{
    if i < s.len() {
        lemma_digits_prefix(s.drop_last(), radix, i);
        assert(s.drop_last().subrange(0, i) == s.subrange(0, i));
        let x = digits_value(s.drop_last(), radix);
        assert(x * radix >= x) by (nonlinear_arith)
            requires
                radix >= 1,
        ;
    } else {
        assert(s.subrange(0, i) == s);
    }
}

/// The value of `c` as a digit in base `radix`.
fn digit(c: char, radix: u32) -> (r: Option<u64>)
    requires
        radix == 10 || radix == 16,
    ensures
        r matches Some(d) ==> digit_value(c, radix as nat) == Some(d as nat),
        r is None ==> digit_value(c, radix as nat) is None,
{
    let u = c as u32;
    if 48 <= u && u <= 57 {
        Some((u - 48) as u64)
    } else if radix == 16 && 97 <= u && u <= 102 {
        Some((u - 87) as u64)
    } else if radix == 16 && 65 <= u && u <= 70 {
        Some((u - 55) as u64)
    } else {
        None
    }
}

/// The number that `s`, from its `from`-th character on, writes in base `radix`.
fn parse_number_at(s: &str, from: usize, radix: u32) -> (r: Option<u64>)
    requires
        from <= s@.len(),
        radix == 10 || radix == 16,
    ensures
        r == parse_number(s@.subrange(from as int, s@.len() as int), radix as nat),
{
    let ghost t = s@.subrange(from as int, s@.len() as int);
    let n = s.unicode_len();
    let mut b = from;
    if b < n && s.get_char(b) == '+' {
        b = b + 1;
    }
    let ghost body = s@.subrange(b as int, n as int);
    assert(body == (if t.len() > 0 && t[0] == '+' { t.drop_first() } else { t }));
    if b == n {
        return None;
    }
    let mut acc: u64 = 0;
    let mut i = b;
    while i < n
        invariant
            n == s@.len(),
            b <= i <= n,
            radix == 10 || radix == 16,
            body == s@.subrange(b as int, n as int),
            t == s@.subrange(from as int, s@.len() as int),
            body == (if t.len() > 0 && t[0] == '+' { t.drop_first() } else { t }),
            acc == digits_value(s@.subrange(b as int, i as int), radix as nat),
            forall|j: int| b <= j < i ==> #[trigger] digit_value(s@[j], radix as nat) is Some,
        decreases n - i,
    {
        let c = s.get_char(i);
        let d = match digit(c, radix) {
            Some(d) => d,
            None => {
                assert(body[i - b] == s@[i as int]);
                assert(digit_value(body[i - b], radix as nat) is None);
                assert(!all_digits(body, radix as nat));
                assert(parse_number(t, radix as nat) is None);
                return None;
            },
        };
        let ghost next = s@.subrange(b as int, i + 1);
        assert(next.drop_last() == s@.subrange(b as int, i as int));
        assert(digits_value(next, radix as nat) == acc * radix + d);
        let m = acc.checked_mul(radix as u64);
        if m.is_none() {
            proof {
                assert(acc * radix + d > u64::MAX) by (nonlinear_arith)
                    requires
                        acc * radix > u64::MAX,
                        d >= 0,
                ;
                assert(next =~= body.subrange(0, i + 1 - b));
                lemma_digits_prefix(body, radix as nat, i + 1 - b);
                assert(digits_value(body, radix as nat) > u64::MAX);
            }
            return None;
        }
        let a = m.unwrap().checked_add(d);
        if a.is_none() {
            proof {
                assert(next =~= body.subrange(0, i + 1 - b));
                lemma_digits_prefix(body, radix as nat, i + 1 - b);
                assert(digits_value(body, radix as nat) > u64::MAX);
            }
            return None;
        }
        acc = a.unwrap();
        i += 1;
    }
    assert(s@.subrange(b as int, i as int) == body);
    Some(acc)
}

/// Reads an id: a token that writes a number, in hexadecimal after `0x` or in decimal.
pub fn parse_id(toks: &mut TokenStream) -> (r: Result<u64, (String, Range)>)
    ensures
        r is Ok <==> first_token(old(toks).text()).len() > 0 && id_value(
            first_token(old(toks).text()),
        ) is Some,
        r is Ok ==> r->Ok_0 == id_value(first_token(old(toks).text()))->Some_0,
        first_token(old(toks).text()).len() > 0 ==> final(toks).text() == after_token(
            old(toks).text(),
        ),
        final(toks).text().len() <= old(toks).text().len(),
        r is Ok ==> final(toks).text().len() < old(toks).text().len(),
{
    let tok = match toks.token() {
        Ok(t) => t,
        Err(e) => {
            return Err(e);
        },
    };
    let s = tok.s;
    let n = s.unicode_len();
    let parsed = if n >= 2 && s.get_char(0) == '0' && s.get_char(1) == 'x' {
        parse_number_at(s, 2, 16)
    } else {
        proof {
            assert(s@.subrange(0, s@.len() as int) == s@);
        }
        parse_number_at(s, 0, 10)
    };
    match parsed {
        Some(id) => Ok(id),
        None => Err(("expected numeric id".to_string(), tok.r)),
    }
}

/// Whether `s` is the one-character text `c`.
fn is_char(s: &str, c: char) -> (r: bool)
    ensures
        r == (s@ == seq![c]),
{
    let r = s.unicode_len() == 1 && s.get_char(0) == c;
    proof {
        if r {
            assert(s@ =~= seq![c]);
        }
    }
    r
}

/// Reads a side marker: `L` or `R`.
pub fn side_unpretty(toks: &mut TokenStream) -> (r: Result<Side, (String, Range)>)
    ensures
        ({
            let t = first_token(old(toks).text());
            &&& r is Ok <==> (t == seq!['L'] || t == seq!['R'])
            &&& r is Ok ==> r->Ok_0 == (if t == seq!['L'] { Side::Left } else { Side::Right })
        }),
        final(toks).text().len() <= old(toks).text().len(),
        r is Ok ==> final(toks).text().len() < old(toks).text().len(),
        first_token(old(toks).text()).len() > 0 ==> final(toks).text() == after_token(
            old(toks).text(),
        ),
{
    let tok = match toks.token() {
        Ok(t) => t,
        Err(e) => {
            return Err(e);
        },
    };
    if is_char(tok.s, 'L') {
        Ok(Side::Left)
    } else if is_char(tok.s, 'R') {
        Ok(Side::Right)
    } else {
        Err(("expected L or R".to_string(), tok.r))
    }
}

/// Reads a side filter: `L`, `R`, or `A` for both sides.
pub fn side_match_unpretty(toks: &mut TokenStream) -> (r: Result<SideMatch, (String, Range)>)
    ensures
        ({
            let t = first_token(old(toks).text());
            &&& r is Ok <==> (t == seq!['L'] || t == seq!['R'] || t == seq!['A'])
            &&& r is Ok ==> r->Ok_0 == (if t == seq!['L'] {
                SideMatch::One(Side::Left)
            } else if t == seq!['R'] {
                SideMatch::One(Side::Right)
            } else {
                SideMatch::Both
            })
        }),
        final(toks).text().len() <= old(toks).text().len(),
        r is Ok ==> final(toks).text().len() < old(toks).text().len(),
        first_token(old(toks).text()).len() > 0 ==> final(toks).text() == after_token(
            old(toks).text(),
        ),
{
    let tok = match toks.token() {
        Ok(t) => t,
        Err(e) => {
            return Err(e);
        },
    };
    if is_char(tok.s, 'L') {
        Ok(SideMatch::One(Side::Left))
    } else if is_char(tok.s, 'R') {
        Ok(SideMatch::One(Side::Right))
    } else if is_char(tok.s, 'A') {
        Ok(SideMatch::Both)
    } else {
        Err(("expected L, R or A".to_string(), tok.r))
    }
}

impl CtorId {
    /// Reads a constructor id.
    pub fn unpretty(toks: &mut TokenStream) -> (r: Result<CtorId, (String, Range)>)
        ensures
            r is Ok <==> first_token(old(toks).text()).len() > 0 && id_value(
                first_token(old(toks).text()),
            ) is Some,
            r is Ok ==> r->Ok_0.0 == id_value(first_token(old(toks).text()))->Some_0,
            final(toks).text().len() <= old(toks).text().len(),
            r is Ok ==> final(toks).text().len() < old(toks).text().len(),
            first_token(old(toks).text()).len() > 0 ==> final(toks).text() == after_token(
                old(toks).text(),
            ),
    {
        match parse_id(toks) {
            Ok(id) => Ok(CtorId(id)),
            Err(e) => Err(e),
        }
    }
}

impl InstId {
    /// Reads an instance id.
    pub fn unpretty(toks: &mut TokenStream) -> (r: Result<InstId, (String, Range)>)
        ensures
            r is Ok <==> first_token(old(toks).text()).len() > 0 && id_value(
                first_token(old(toks).text()),
            ) is Some,
            r is Ok ==> r->Ok_0.0 == id_value(first_token(old(toks).text()))->Some_0,
            final(toks).text().len() <= old(toks).text().len(),
            r is Ok ==> final(toks).text().len() < old(toks).text().len(),
            first_token(old(toks).text()).len() > 0 ==> final(toks).text() == after_token(
                old(toks).text(),
            ),
    {
        match parse_id(toks) {
            Ok(id) => Ok(InstId(id)),
            Err(e) => Err(e),
        }
    }
}

impl DebugOnlyId {
    /// Reads a diagnostic id.
    pub fn unpretty(toks: &mut TokenStream) -> (r: Result<DebugOnlyId, (String, Range)>)
        ensures
            r is Ok <==> first_token(old(toks).text()).len() > 0 && id_value(
                first_token(old(toks).text()),
            ) is Some,
            r is Ok ==> r->Ok_0.0 == id_value(first_token(old(toks).text()))->Some_0,
            final(toks).text().len() <= old(toks).text().len(),
            r is Ok ==> final(toks).text().len() < old(toks).text().len(),
            first_token(old(toks).text()).len() > 0 ==> final(toks).text() == after_token(
                old(toks).text(),
            ),
    {
        match parse_id(toks) {
            Ok(id) => Ok(DebugOnlyId(id)),
            Err(e) => Err(e),
        }
    }
}

impl CtorCall {
    /// Reads the constructor id of an instantiation.
    pub fn unpretty(toks: &mut TokenStream) -> (r: Result<CtorCall, (String, Range)>)
        ensures
            r is Ok <==> first_token(old(toks).text()).len() > 0 && id_value(
                first_token(old(toks).text()),
            ) is Some,
            r is Ok ==> r->Ok_0.ctor.0 == id_value(first_token(old(toks).text()))->Some_0,
            final(toks).text().len() <= old(toks).text().len(),
            r is Ok ==> final(toks).text().len() < old(toks).text().len(),
            first_token(old(toks).text()).len() > 0 ==> final(toks).text() == after_token(
                old(toks).text(),
            ),
    {
        match CtorId::unpretty(toks) {
            Ok(ctor) => Ok(CtorCall { ctor }),
            Err(e) => Err(e),
        }
    }
}

impl InstRef {
    /// Reads a dotted path of instance ids.
    pub fn unpretty(toks: &mut TokenStream) -> (r: Result<InstRef, (String, Range)>)
        ensures
            r is Ok <==> inst_ref_parse(old(toks).text()) is Some,
            r is Ok ==> id_numbers(r->Ok_0.0@) == inst_ref_parse(old(toks).text())->Some_0.0
                && final(toks).text() == inst_ref_parse(old(toks).text())->Some_0.1,
            r is Ok ==> r->Ok_0.0@.len() > 0,
            r is Ok ==> r->Ok_0.0@[0].0 == id_value(first_token(old(toks).text()))->Some_0,
            final(toks).text().len() <= old(toks).text().len(),
            r is Ok ==> final(toks).text().len() < old(toks).text().len(),
    {
        let ghost s0 = toks.text();
        let mut insts: Vec<InstId> = Vec::new();
        match InstId::unpretty(toks) {
            Ok(id) => insts.push(id),
            Err(e) => {
                return Err(e);
            },
        }
        let ghost first = insts@[0];
        let ghost a0 = toks.text();
        loop
            invariant
                insts@.len() > 0,
                insts@[0] == first,
                first.0 == id_value(first_token(s0))->Some_0,
                first_token(s0).len() > 0,
                a0 == after_token(s0),
                toks.text().len() < old(toks).text().len(),
                s0 == old(toks).text(),
                dots_tail(a0) == match dots_tail(toks.text()) {
                    Some((ids, tail)) => Some((id_numbers(insts@.drop_first()) + ids, tail)),
                    None => None,
                },
            ensures
                dots_tail(toks.text()) == Some((Seq::<u64>::empty(), toks.text())),
            decreases toks.text().len(),
        {
            let ghost cur = toks.text();
            let mut probe = *toks;
            match probe.token() {
                Ok(t) => {
                    if !is_char(t.s, '.') {
                        assert(dots_tail(cur) == Some((Seq::<u64>::empty(), cur)));
                        assert(id_numbers(insts@.drop_first()) + Seq::<u64>::empty() =~= id_numbers(
                            insts@.drop_first(),
                        ));
                        break;
                    }
                },
                Err(_) => {
                    assert(dots_tail(cur) == Some((Seq::<u64>::empty(), cur)));
                    assert(id_numbers(insts@.drop_first()) + Seq::<u64>::empty() =~= id_numbers(
                        insts@.drop_first(),
                    ));
                    break;
                },
            }
            *toks = probe;
            let ghost before = insts@;
            match InstId::unpretty(toks) {
                Ok(id) => {
                    insts.push(id);
                    proof {
                        assert(insts@.drop_first() =~= before.drop_first().push(id));
                        match dots_tail(toks.text()) {
                            Some((ids, tail)) => {
                                assert(id_numbers(insts@.drop_first()) + ids =~= id_numbers(
                                    before.drop_first(),
                                ) + (seq![id.0] + ids));
                            },
                            None => {},
                        }
                    }
                },
                Err(e) => {
                    proof {
                        assert(dots_tail(cur) is None);
                        assert(inst_ref_parse(s0) is None);
                    }
                    return Err(e);
                },
            }
        }
        proof {
            assert(id_numbers(insts@) =~= seq![first.0] + id_numbers(insts@.drop_first()));
            assert(id_numbers(insts@.drop_first()) + Seq::<u64>::empty() =~= id_numbers(
                insts@.drop_first(),
            ));
        }
        Ok(InstRef(insts))
    }
}

impl Connection {
    /// Reads a connection: its id, then the left and right paths.
    pub fn unpretty(toks: &mut TokenStream) -> (r: Result<Connection, (String, Range)>)
        ensures
            r is Ok <==> connection_parse(old(toks).text()) is Some,
            r is Ok ==> {
                let (id, l, rr, rest) = connection_parse(old(toks).text())->Some_0;
                &&& r->Ok_0.id.0 == id
                &&& id_numbers(r->Ok_0.left.0@) == l
                &&& id_numbers(r->Ok_0.right.0@) == rr
                &&& final(toks).text() == rest
            },
            r is Ok ==> r->Ok_0.id.0 == id_value(first_token(old(toks).text()))->Some_0,
            r is Ok ==> r->Ok_0.left.0@.len() > 0 && r->Ok_0.right.0@.len() > 0,
            final(toks).text().len() <= old(toks).text().len(),
            r is Ok ==> final(toks).text().len() < old(toks).text().len(),
    {
        let id = match DebugOnlyId::unpretty(toks) {
            Ok(id) => id,
            Err(e) => {
                return Err(e);
            },
        };
        let left = match InstRef::unpretty(toks) {
            Ok(l) => l,
            Err(e) => {
                return Err(e);
            },
        };
        let right = match InstRef::unpretty(toks) {
            Ok(r) => r,
            Err(e) => {
                return Err(e);
            },
        };
        Ok(Connection { id, left, right })
    }
}

/// Reads an interface entry: a side filter, then `-` for a notification or a path.
pub fn iface_node_unpretty(toks: &mut TokenStream) -> (r: Result<
    IfaceNode<InstRef>,
    (String, Range),
>)
    ensures
        r is Ok <==> iface_node_parse(old(toks).text()) is Some,
        r is Ok ==> {
            let (side, comm, rest) = iface_node_parse(old(toks).text())->Some_0;
            &&& r->Ok_0.0 == side
            &&& (comm is Notify <==> r->Ok_0.1 is Notify)
            &&& (comm matches Comm::Data(ids) ==> (r->Ok_0.1 matches Comm::Data(p) && id_numbers(p.0@)
                == ids))
            &&& final(toks).text() == rest
        },
        r is Ok ==> (r->Ok_0.1 matches Comm::Data(p) ==> p.0@.len() > 0),
        final(toks).text().len() <= old(toks).text().len(),
        r is Ok ==> final(toks).text().len() < old(toks).text().len(),
{
    let side = match side_match_unpretty(toks) {
        Ok(s) => s,
        Err(e) => {
            return Err(e);
        },
    };
    let mut probe = *toks;
    if let Ok(t) = probe.token() {
        if is_char(t.s, '-') {
            *toks = probe;
            return Ok(IfaceNode(side, Comm::Notify));
        }
    }
    match InstRef::unpretty(toks) {
        Ok(p) => Ok(IfaceNode(side, Comm::Data(p))),
        Err(e) => Err(e),
    }
}

/// `s` without the whitespace that opens and closes it.
pub fn trim(s: &str) -> (r: &str)
    ensures
        exists|a: int, b: int|
            0 <= a <= b <= s@.len() && r@ == s@.subrange(a, b) && (forall|j: int|
                0 <= j < a ==> is_unicode_ws(#[trigger] s@[j])) && (forall|j: int|
                b <= j < s@.len() ==> is_unicode_ws(#[trigger] s@[j])) && (a < b ==> !is_unicode_ws(
                s@[a],
            ) && !is_unicode_ws(s@[b - 1])),
{
    let n = s.unicode_len();
    let mut a: usize = 0;
    while a < n && is_whitespace(s.get_char(a))
        invariant
            n == s@.len(),
            a <= n,
            forall|j: int| 0 <= j < a ==> is_unicode_ws(#[trigger] s@[j]),
        decreases n - a,
    {
        a += 1;
    }
    let mut b: usize = n;
    while b > a && is_whitespace(s.get_char(b - 1))
        invariant
            n == s@.len(),
            a <= b <= n,
            forall|j: int| b <= j < n ==> is_unicode_ws(#[trigger] s@[j]),
            a < n ==> !is_unicode_ws(s@[a as int]),
        decreases b,
    {
        b -= 1;
    }
    s.substring_char(a, b)
}

/// Reads the instantiation lines of a composite.
fn parse_inst_lines(sec: &mut TokenStream) -> (r: Result<(IdMap<String>, IdMap<CtorCall>), (String, Range)>)
    ensures
        r is Ok <==> inst_lines(old(sec).text()) is Some,
        r matches Ok((syms, calls)) ==> {
            let xs = inst_lines(old(sec).text())->Some_0;
            &&& syms.wf() && calls.wf()
            &&& syms.view_map().dom() == calls.view_map().dom()
            &&& syms.view_map().map_values(|v: String| v@) == sym_map(xs)
            &&& calls.view_map().map_values(|v: CtorCall| v.ctor.0) == ctor_map(xs)
        },
{
    let ghost sec1 = sec.text();
    let mut inst2sym: IdMap<String> = IdMap::new();
    let mut insts: IdMap<CtorCall> = IdMap::new();
    let ghost mut done: Seq<(Seq<char>, u64, u64)> = Seq::empty();
    assert(inst2sym.view_map().dom() =~= insts.view_map().dom());
    assert(inst2sym.view_map().map_values(|v: String| v@) =~= sym_map(done));
    assert(insts.view_map().map_values(|v: CtorCall| v.ctor.0) =~= ctor_map(done));
    loop
        invariant
            inst2sym.wf(),
            insts.wf(),
            inst2sym.view_map().dom() == insts.view_map().dom(),
            inst2sym.view_map().map_values(|v: String| v@) == sym_map(done),
            insts.view_map().map_values(|v: CtorCall| v.ctor.0) == ctor_map(done),
            sec1 == old(sec).text(),
            inst_lines(sec1) == match inst_lines(sec.text()) {
                Some(rest) => Some(done + rest),
                None => None,
            },
        ensures
            inst_lines(sec.text()) == Some(Seq::<(Seq<char>, u64, u64)>::empty()),
        decreases sec.text().len(),
    {
        let ghost cur = sec.text();
        let mut line = match sec.line() {
            Ok(l) => l,
            Err(_) => {
                break;
            },
        };
        let ghost ln = line.text();
        assert(ln == cur.subrange(0, line_len(cur)));
        assert(sec.text() =~= cur.subrange(line_len(cur), cur.len() as int));
        let sym = match line.token() {
            Ok(t) => t.s.to_owned(),
            Err(e) => {
                assert(inst_line_parse(ln) is None);
                return Err(e);
            },
        };
        let id = match InstId::unpretty(&mut line) {
            Ok(id) => id,
            Err(e) => {
                assert(inst_line_parse(ln) is None);
                return Err(e);
            },
        };
        let ghost sym_v = sym@;
        inst2sym.insert(id.0, sym);
        let equals = match line.token() {
            Ok(t) => t,
            Err(e) => {
                assert(inst_line_parse(ln) is None);
                return Err(e);
            },
        };
        if !is_char(equals.s, '=') {
            assert(inst_line_parse(ln) is None);
            return Err(("expected =".to_string(), equals.r));
        }
        match CtorCall::unpretty(&mut line) {
            Ok(call) => {
                let ghost x = (sym_v, id.0, call.ctor.0);
                assert(inst_line_parse(ln) == Some(x));
                insts.insert(id.0, call);
                proof {
                    let nd = done.push(x);
                    assert(nd.drop_last() == done);
                    assert(inst2sym.view_map().map_values(|v: String| v@) =~= sym_map(nd));
                    assert(insts.view_map().map_values(|v: CtorCall| v.ctor.0) =~= ctor_map(nd));
                    match inst_lines(sec.text()) {
                        Some(rest) => {
                            assert(done + (seq![x] + rest) =~= nd + rest);
                        },
                        None => {},
                    }
                    done = nd;
                }
            },
            Err(e) => {
                assert(inst_line_parse(ln) is None);
                return Err(e);
            },
        }
        assert(inst2sym.view_map().dom() =~= insts.view_map().dom());
    }
    assert(done + Seq::<(Seq<char>, u64, u64)>::empty() =~= done);
    Ok((inst2sym, insts))
}

/// Reads the interface entries of a composite.
fn parse_iface_items(sec: &mut TokenStream) -> (r: Result<Vec<IfaceNode<InstRef>>, (String, Range)>)
    ensures
        r is Ok <==> iface_items(old(sec).text()) is Some,
        r matches Ok(iface) ==> iface@.map_values(|n: IfaceNode<InstRef>| iface_view(n))
            == iface_items(old(sec).text())->Some_0 && forall|j: int|
            0 <= j < iface@.len() ==> (#[trigger] iface@[j].1 matches Comm::Data(p) ==> p.0@.len() > 0),
{
    let ghost sec2 = sec.text();
    let mut iface: Vec<IfaceNode<InstRef>> = Vec::new();
    let ghost mut items: Seq<(SideMatch, Comm<Seq<u64>>)> = Seq::empty();
    assert(iface@.map_values(|n: IfaceNode<InstRef>| iface_view(n)) =~= items);
    loop
        invariant
            forall|j: int|
                0 <= j < iface@.len() ==> (#[trigger] iface@[j].1 matches Comm::Data(p) ==> p.0@.len()
                    > 0),
            iface@.map_values(|n: IfaceNode<InstRef>| iface_view(n)) == items,
            sec2 == old(sec).text(),
            iface_items(sec2) == match iface_items(sec.text()) {
                Some(rest) => Some(items + rest),
                None => None,
            },
        ensures
            iface_items(sec.text()) == Some(Seq::<(SideMatch, Comm<Seq<u64>>)>::empty()),
        decreases sec.text().len(),
    {
        let ghost cur = sec.text();
        sec.skip_whitespace();
        if sec.is_empty() {
            proof {
                crate::irlf_ser::lex::lemma_run_len(sec.text(), blank(), 0);
                assert(sec.text().subrange(0, 0) =~= sec.text());
                assert(iface_items(cur) == Some(Seq::<(SideMatch, Comm<Seq<u64>>)>::empty()));
            }
            break;
        }
        match iface_node_unpretty(sec) {
            Ok(node) => {
                let ghost v = iface_view(node);
                iface.push(node);
                proof {
                    assert(iface@.map_values(|n: IfaceNode<InstRef>| iface_view(n)) =~= items.push(v));
                    match iface_items(sec.text()) {
                        Some(rest) => {
                            assert(items + (seq![v] + rest) =~= items.push(v) + rest);
                        },
                        None => {},
                    }
                    items = items.push(v);
                }
            },
            Err(e) => {
                return Err(e);
            },
        }
    }
    assert(items + Seq::<(SideMatch, Comm<Seq<u64>>)>::empty() =~= items);
    Ok(iface)
}

/// Reads the connection lines of a composite.
fn parse_conn_lines(sec: &mut TokenStream) -> (r: Result<Vec<Connection>, (String, Range)>)
    ensures
        r is Ok <==> conn_lines(old(sec).text()) is Some,
        r matches Ok(connections) ==> connections@.map_values(|k: Connection| conn_view(k))
            == conn_lines(old(sec).text())->Some_0 && forall|j: int|
            0 <= j < connections@.len() ==> (#[trigger] connections@[j]).left.0@.len() > 0
                && connections@[j].right.0@.len() > 0,
{
    let ghost sec3 = sec.text();
    let mut connections: Vec<Connection> = Vec::new();
    let ghost mut cs: Seq<(u64, Seq<u64>, Seq<u64>)> = Seq::empty();
    assert(connections@.map_values(|k: Connection| conn_view(k)) =~= cs);
    loop
        invariant
            forall|j: int|
                0 <= j < connections@.len() ==> (#[trigger] connections@[j]).left.0@.len() > 0
                    && connections@[j].right.0@.len() > 0,
            connections@.map_values(|k: Connection| conn_view(k)) == cs,
            sec3 == old(sec).text(),
            conn_lines(sec3) == match conn_lines(sec.text()) {
                Some(rest) => Some(cs + rest),
                None => None,
            },
        ensures
            conn_lines(sec.text()) == Some(Seq::<(u64, Seq<u64>, Seq<u64>)>::empty()),
        decreases sec.text().len(),
    {
        let ghost cur = sec.text();
        let mut line = match sec.line() {
            Ok(l) => l,
            Err(_) => {
                break;
            },
        };
        assert(line.text() == cur.subrange(0, line_len(cur)));
        assert(sec.text() =~= cur.subrange(line_len(cur), cur.len() as int));
        match Connection::unpretty(&mut line) {
            Ok(c) => {
                let ghost v = conn_view(c);
                connections.push(c);
                proof {
                    assert(connections@.map_values(|k: Connection| conn_view(k)) =~= cs.push(v));
                    match conn_lines(sec.text()) {
                        Some(rest) => {
                            assert(cs + (seq![v] + rest) =~= cs.push(v) + rest);
                        },
                        None => {},
                    }
                    cs = cs.push(v);
                }
            },
            Err(e) => {
                return Err(e);
            },
        }
    }
    assert(cs + Seq::<(u64, Seq<u64>, Seq<u64>)>::empty() =~= cs);
    Ok(connections)
}

impl StructlikeCtor {
    /// Reads the body of a composite: its instantiations (`sym id = ctor`, one per line), `---`,
    /// its interface entries, `---`, and its connections (one per line). Succeeds exactly where
    /// each part parses; the maps hold, under each id, what its last instantiation line says.
    pub fn unpretty(toks: &mut TokenStream) -> (r: Result<StructlikeCtor, (String, Range)>)
        ensures
            r is Ok <==> structlike_parse(old(toks).text()) is Some,
            r is Ok ==> {
                let (xs, items, conns) = structlike_parse(old(toks).text())->Some_0;
                let c = r->Ok_0;
                &&& c.inst2sym.view_map().map_values(|v: String| v@) == sym_map(xs)
                &&& c.insts.view_map().map_values(|v: CtorCall| v.ctor.0) == ctor_map(xs)
                &&& c.iface@.map_values(|n: IfaceNode<InstRef>| iface_view(n)) == items
                &&& c.connections@.map_values(|k: Connection| conn_view(k)) == conns
                &&& final(toks).text() == three_sections(old(toks).text()).3
            },
            r is Ok ==> r->Ok_0.wf(),
            r is Ok ==> r->Ok_0.inst2sym.view_map().dom() == r->Ok_0.insts.view_map().dom(),
            r is Ok ==> forall|j: int|
                0 <= j < r->Ok_0.iface@.len() ==> (#[trigger] r->Ok_0.iface@[j].1 matches Comm::Data(
                    p,
                ) ==> p.0@.len() > 0),
            r is Ok ==> forall|j: int|
                0 <= j < r->Ok_0.connections@.len() ==> (#[trigger] r->Ok_0.connections@[j]).left.0@.len()
                    > 0 && r->Ok_0.connections@[j].right.0@.len() > 0,
    {
        let ghost s0 = toks.text();
        let mut instantiations_section = toks.section();
        let mut iface_section = toks.section();
        let mut connections_section = toks.section();
        let ghost (sec1, sec2, sec3, after) = three_sections(s0);
        assert(instantiations_section.text() == sec1 && iface_section.text() == sec2
            && connections_section.text() == sec3 && toks.text() == after);
        let (inst2sym, insts) = parse_inst_lines(&mut instantiations_section)?;
        let iface = parse_iface_items(&mut iface_section)?;
        let connections = parse_conn_lines(&mut connections_section)?;
        Ok(StructlikeCtor { inst2sym, insts, iface, connections })
    }
}

impl BinaryCtor {
    /// Reads the path of a binary: the rest of the line, trimmed.
    pub fn unpretty(toks: &mut TokenStream) -> (r: Result<BinaryCtor, (String, Range)>)
        ensures
            r is Ok <==> run_len(old(toks).text(), not_newline()) > 0,
            r is Ok ==> exists|a: int, b: int|
                0 <= a <= b <= run_len(old(toks).text(), not_newline()) + 1 && b <= old(toks).text().len() && r->Ok_0.path@ == old(toks).text().subrange(a, b),
    {
        let ghost s = toks.text();
        let mut line = match toks.line() {
            Ok(l) => l,
            Err(e) => {
                return Err(e);
            },
        };
        let (rest, _) = line.tail();
        let t = trim(rest);
        proof {
            let k = run_len(s, not_newline());
            let m = if k < s.len() { k + 1 } else { s.len() as int };
            assert(rest@ == s.subrange(0, m));
            let (a, b) = choose|a: int, b: int|
                0 <= a <= b <= rest@.len() && t@ == rest@.subrange(a, b) && (forall|j: int|
                    0 <= j < a ==> is_unicode_ws(#[trigger] rest@[j])) && (forall|j: int|
                    b <= j < rest@.len() ==> is_unicode_ws(#[trigger] rest@[j])) && (a < b
                    ==> !is_unicode_ws(rest@[a]) && !is_unicode_ws(rest@[b - 1]));
            assert(t@ == s.subrange(a, b));
        }
        Ok(BinaryCtor { path: t.to_owned() })
    }
}

impl LibCtor {
    /// Reads the name of a library primitive: one token.
    pub fn unpretty(toks: &mut TokenStream) -> (r: Result<LibCtor, (String, Range)>)
        ensures
            r is Ok <==> first_token(old(toks).text()).len() > 0,
            r is Ok ==> r->Ok_0.name@ == first_token(old(toks).text()),
    {
        match toks.token() {
            Ok(t) => Ok(LibCtor { name: t.s.to_owned() }),
            Err(e) => Err(e),
        }
    }
}

/// The three kinds of constructor, each with a section of its own.
#[derive(Debug, Clone, Copy, PartialEq, Eq, Structural)]
pub enum CtorKind {
    Lib,
    Binary,
    Structlike,
}

/// The block `b` declares a constructor of the kind `kind`: its first line holds a symbol and
/// an id, then a library name or a binary path; a composite's body follows in the block.
pub open spec fn ctor_block_ok(b: Seq<char>, kind: CtorKind) -> bool {
    let l = line_len(b);
    let header = b.subrange(0, l);
    let r1 = after_token(header);
    let r2 = after_token(r1);
    &&& 0 < l <= b.len()
    &&& first_token(header).len() > 0
    &&& first_token(r1).len() > 0
    &&& id_value(first_token(r1)) is Some
    &&& match kind {
        CtorKind::Lib => first_token(r2).len() > 0,
        CtorKind::Binary => run_len(r2, not_newline()) > 0,
        CtorKind::Structlike => structlike_parse(b.subrange(l, b.len() as int)) is Some,
    }
}

/// Every block of the section `s`, up to the first that cannot be read, declares a constructor
/// of the kind `kind`.
pub open spec fn ctor_blocks_ok(s: Seq<char>, kind: CtorKind) -> bool
    decreases s.len(),
{
    let b = block_len(s);
    if b <= 0 || b > s.len() {
        true
    } else {
        ctor_block_ok(s.subrange(0, b), kind) && ctor_blocks_ok(s.subrange(b, s.len() as int), kind)
    }
}

/// The text `s` is a program: library, binary and composite sections of constructors, then the
/// id of the main constructor.
pub open spec fn program_ok(s: Seq<char>) -> bool {
    let (s1, s2, s3, after) = three_sections(s);
    &&& ctor_blocks_ok(s1, CtorKind::Lib)
    &&& ctor_blocks_ok(s2, CtorKind::Binary)
    &&& ctor_blocks_ok(s3, CtorKind::Structlike)
    &&& first_token(after).len() > 0
    &&& id_value(first_token(after)) is Some
}

/// Reads the constructor that a block declares: the id and symbol of its first line, and the
/// constructor of the kind `kind`.
fn parse_ctor_block(kind: CtorKind, block: &mut TokenStream) -> (r: Result<
    (CtorId, String, Ctor),
    (String, Range),
>)
    requires
        run_len(old(block).text(), not_newline()) > 0,
    ensures
        r is Ok <==> ctor_block_ok(old(block).text(), kind),
        r matches Ok((_, _, c)) ==> c.wf(),
{
    let ghost b = block.text();
    let mut header = match block.line() {
        Ok(h) => h,
        Err(e) => {
            return Err(e);
        },
    };
    let ghost h = header.text();
    assert(h == b.subrange(0, line_len(b)));
    assert(block.text() =~= b.subrange(line_len(b), b.len() as int));
    let sym = match header.token() {
        Ok(t) => t.s.to_owned(),
        Err(e) => {
            assert(!ctor_block_ok(b, kind));
            return Err(e);
        },
    };
    let cid = match CtorId::unpretty(&mut header) {
        Ok(c) => c,
        Err(e) => {
            assert(!ctor_block_ok(b, kind));
            return Err(e);
        },
    };
    let ctor = match kind {
        CtorKind::Lib => match LibCtor::unpretty(&mut header) {
            Ok(c) => Ctor::LibCtor(c),
            Err(e) => {
                assert(!ctor_block_ok(b, kind));
                return Err(e);
            },
        },
        CtorKind::Binary => match BinaryCtor::unpretty(&mut header) {
            Ok(c) => Ctor::BinaryCtor(c),
            Err(e) => {
                assert(!ctor_block_ok(b, kind));
                return Err(e);
            },
        },
        CtorKind::Structlike => match StructlikeCtor::unpretty(block) {
            Ok(c) => Ctor::StructlikeCtor(c),
            Err(e) => {
                assert(!ctor_block_ok(b, kind));
                return Err(e);
            },
        },
    };
    Ok((cid, sym, ctor))
}

/// Reads the constructors of one kind from their section: one block each, whose first line
/// holds the symbol and the id.
fn unpretty_ctortyp(
    kind: CtorKind,
    section: TokenStream,
    ctor2sym: &mut IdMap<String>,
    ctors: &mut IdMap<Ctor>,
) -> (r: Result<(), (String, Range)>)
    requires
        old(ctor2sym).wf(),
        old(ctors).wf(),
        forall|i: int|
            0 <= i < old(ctors).entries_view().len() ==> (#[trigger] old(ctors).entries_view()[i]).1.wf(),
        old(ctor2sym).view_map().dom() == old(ctors).view_map().dom(),
    ensures
        r is Ok <==> ctor_blocks_ok(section.text(), kind),
        final(ctor2sym).view_map().dom() == final(ctors).view_map().dom(),
        final(ctor2sym).wf(),
        final(ctors).wf(),
        forall|i: int|
            0 <= i < final(ctors).entries_view().len() ==> (#[trigger] final(ctors).entries_view()[i]).1.wf(),
{
    let ghost s0 = section.text();
    let mut sec = section;
    loop
        invariant
            s0 == section.text(),
            ctor_blocks_ok(s0, kind) == ctor_blocks_ok(sec.text(), kind),
            ctor2sym.wf(),
            ctors.wf(),
            forall|i: int|
                0 <= i < ctors.entries_view().len() ==> (#[trigger] ctors.entries_view()[i]).1.wf(),
            ctor2sym.view_map().dom() == ctors.view_map().dom(),
        ensures
            ctor_blocks_ok(sec.text(), kind),
        decreases sec.text().len(),
    {
        let ghost cur = sec.text();
        let mut block = match sec.block() {
            Ok(b) => b,
            Err(_) => {
                break;
            },
        };
        let ghost b = block.text();
        assert(b == cur.subrange(0, block_len(cur)));
        assert(sec.text() =~= cur.subrange(block_len(cur), cur.len() as int));
        let (cid, sym, ctor) = match parse_ctor_block(kind, &mut block) {
            Ok(x) => x,
            Err(e) => {
                assert(!ctor_block_ok(b, kind));
                assert(!ctor_blocks_ok(cur, kind));
                assert(!ctor_blocks_ok(s0, kind));
                return Err(e);
            },
        };
        assert(ctor_block_ok(b, kind));
        ctor2sym.insert(cid.0, sym);
        let ghost before = ctors.view_map();
        ctors.insert(cid.0, ctor);
        proof {
            assert forall|i: int|
                0 <= i < ctors.entries_view().len() implies (#[trigger] ctors.entries_view()[i]).1.wf() by {
                let k = ctors.entries_view()[i].0;
                assert(ctors.view_map().contains_key(k));
                crate::irlf_ser::idmap::lemma_value_at(*ctors, i);
                if k != cid.0 {
                    assert(before.contains_key(k));
                }
            }
            assert(ctor2sym.view_map().dom() =~= ctors.view_map().dom());
        }
    }
    Ok(())
}

impl Program {
    /// Reads a program: library constructors, `---`, binary constructors, `---`, composite
    /// constructors, `---`, and the id of the main constructor.
    pub fn unpretty(toks: &mut TokenStream) -> (r: Result<Program, (String, Range)>)
        ensures
            r is Ok <==> program_ok(old(toks).text()),
            r is Ok ==> r->Ok_0.main.0 == id_value(first_token(three_sections(old(toks).text()).3))->Some_0,
            r is Ok ==> r->Ok_0.wf(),
            r is Ok ==> r->Ok_0.ctorid2sym.view_map().dom() == r->Ok_0.ctors.view_map().dom(),
    {
        let mut ctor2sym: IdMap<String> = IdMap::new();
        let mut ctors: IdMap<Ctor> = IdMap::new();
        assert(ctor2sym.view_map().dom() =~= ctors.view_map().dom());
        let ghost s0 = toks.text();
        let lib_ctors = toks.section();
        let binary_ctors = toks.section();
        let structlike_ctors = toks.section();
        let ghost (s1, s2, s3, after) = three_sections(s0);
        assert(lib_ctors.text() == s1 && binary_ctors.text() == s2 && structlike_ctors.text() == s3
            && toks.text() == after);
        if let Err(e) = unpretty_ctortyp(CtorKind::Lib, lib_ctors, &mut ctor2sym, &mut ctors) {
            return Err(e);
        }
        if let Err(e) = unpretty_ctortyp(CtorKind::Binary, binary_ctors, &mut ctor2sym, &mut ctors) {
            return Err(e);
        }
        if let Err(e) = unpretty_ctortyp(
            CtorKind::Structlike,
            structlike_ctors,
            &mut ctor2sym,
            &mut ctors,
        ) {
            return Err(e);
        }
        let main = match CtorId::unpretty(toks) {
            Ok(m) => m,
            Err(e) => {
                return Err(e);
            },
        };
        Ok(Program { ctorid2sym: ctor2sym, ctors, main })
    }
}

/// Reads a program from its text.
pub fn unpretty(s: &str) -> (r: Result<Program, (String, Range)>)
    ensures
        r is Ok <==> program_ok(s@),
        r is Ok ==> r->Ok_0.wf(),
        r is Ok ==> r->Ok_0.ctorid2sym.view_map().dom() == r->Ok_0.ctors.view_map().dom(),
{
    let mut toks = TokenStream::new(s);
    Program::unpretty(&mut toks)
}

} // verus!
