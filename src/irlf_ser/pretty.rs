use vstd::prelude::*;
use vstd::string::*;

use crate::irlf_ser::ir::{
    BinaryCtor, Connection, Ctor, CtorCall, InstRef, LibCtor, Program, StructlikeCtor,
};
use crate::irlf_ser::unpretty::CtorKind;
use crate::lf_types::{Comm, CtorId, DebugOnlyId, IfaceNode, InstId, Side, SideMatch};

verus! {

/// The text of the digit `d` (below 16).
pub open spec fn digit_text(d: nat) -> Seq<char> {
    "0123456789abcdef"@.subrange(d as int, d as int + 1)
}

/// The digits of `n` in base `radix`, without leading zeros (`0` for zero).
pub open spec fn digits_text(n: nat, radix: nat) -> Seq<char>
    decreases n,
    via digits_text_decreases
{
    if radix < 2 || n < radix {
        digit_text(n)
    } else {
        digits_text(n / radix, radix) + digit_text(n % radix)
    }
}

#[via_fn]
proof fn digits_text_decreases(n: nat, radix: nat) {
    if !(radix < 2 || n < radix) {
        assert(n / radix < n) by (nonlinear_arith)
            requires
                radix >= 2,
                n >= radix,
        ;
    }
}

/// Appends the digits of `n` in base `radix`.
fn push_digits(out: &mut String, n: u64, radix: u64)
    requires
        radix == 10 || radix == 16,
    ensures
        final(out)@ == old(out)@ + digits_text(n as nat, radix as nat),
    decreases n,
{
    if n >= radix {
        push_digits(out, n / radix, radix);
    }
    let d = (n % radix) as usize;
    proof {
        reveal_strlit("0123456789abcdef");
    }
    let digit = "0123456789abcdef".substring_char(d, d + 1);
    out.append(digit);
    proof {
        if n >= radix {
            assert(out@ =~= old(out)@ + digits_text(n as nat, radix as nat));
        } else {
            assert(n % radix == n);
            assert(out@ =~= old(out)@ + digits_text(n as nat, radix as nat));
        }
    }
}

/// The text of a path: its ids in decimal, joined by `.`.
pub open spec fn inst_ref_text(ids: Seq<InstId>) -> Seq<char>
    decreases ids.len(),
{
    if ids.len() == 0 {
        Seq::empty()
    } else if ids.len() == 1 {
        digits_text(ids[0].0 as nat, 10)
    } else {
        inst_ref_text(ids.drop_last()) + "."@ + digits_text(ids.last().0 as nat, 10)
    }
}

pub open spec fn ctor_id_text(c: CtorId) -> Seq<char> {
    "0x"@ + digits_text(c.0 as nat, 16)
}

pub open spec fn connection_text(c: Connection) -> Seq<char> {
    digits_text(c.id.0 as nat, 10) + " "@ + inst_ref_text(c.left.0@) + " "@ + inst_ref_text(
        c.right.0@,
    )
}

pub open spec fn side_match_text(s: SideMatch) -> Seq<char> {
    match s {
        SideMatch::One(Side::Left) => "L"@,
        SideMatch::One(Side::Right) => "R"@,
        SideMatch::Both => "A"@,
    }
}

pub open spec fn iface_node_text(n: IfaceNode<InstRef>) -> Seq<char> {
    side_match_text(n.0) + " "@ + match n.1 {
        Comm::Notify => "-"@,
        Comm::Data(r) => inst_ref_text(r.0@),
    }
}

/// The line of the `i`-th named instance of a composite.
pub open spec fn inst_line(s: StructlikeCtor, i: int) -> Seq<char> {
    let (id, sym) = s.inst2sym.entries_view()[i];
    "  "@ + sym@ + " "@ + digits_text(id as nat, 10) + (if s.insts.view_map().contains_key(id) {
        " = "@ + ctor_id_text(s.insts.view_map()[id].ctor)
    } else {
        Seq::empty()
    }) + "\n"@
}

/// The lines of the first `n` named instances of a composite.
pub open spec fn inst_lines(s: StructlikeCtor, n: int) -> Seq<char>
    decreases n,
{
    if n <= 0 {
        Seq::empty()
    } else {
        inst_lines(s, n - 1) + inst_line(s, n - 1)
    }
}

/// The first `n` interface entries, each after a space.
pub open spec fn iface_nodes_text(es: Seq<IfaceNode<InstRef>>, n: int) -> Seq<char>
    decreases n,
{
    if n <= 0 {
        Seq::empty()
    } else {
        iface_nodes_text(es, n - 1) + " "@ + iface_node_text(es[n - 1])
    }
}

/// The lines of the first `n` connections.
pub open spec fn connection_lines(cs: Seq<Connection>, n: int) -> Seq<char>
    decreases n,
{
    if n <= 0 {
        Seq::empty()
    } else {
        connection_lines(cs, n - 1) + "  "@ + connection_text(cs[n - 1]) + "\n"@
    }
}

/// The text of the body of a composite.
pub open spec fn structlike_text(s: StructlikeCtor) -> Seq<char> {
    inst_lines(s, s.inst2sym.entries_view().len() as int) + "  ---\n"@ + (if s.iface@.len() == 0 {
        Seq::empty()
    } else {
        " "@ + iface_nodes_text(s.iface@, s.iface@.len() as int) + "\n"@
    }) + "  ---\n"@ + connection_lines(s.connections@, s.connections@.len() as int)
}

impl CtorId {
    /// The id in hexadecimal after `0x`.
    pub fn pretty(&self) -> (r: String)
        ensures
            r@ == ctor_id_text(*self),
    {
        let mut out = String::from_str("0x");
        push_digits(&mut out, self.0, 16);
        out
    }
}

impl InstId {
    /// The id in decimal.
    pub fn pretty(&self) -> (r: String)
        ensures
            r@ == digits_text(self.0 as nat, 10),
    {
        let mut out = String::new();
        push_digits(&mut out, self.0, 10);
        assert(out@ =~= digits_text(self.0 as nat, 10));
        out
    }
}

impl DebugOnlyId {
    /// The id in decimal.
    pub fn pretty(&self) -> (r: String)
        ensures
            r@ == digits_text(self.0 as nat, 10),
    {
        let mut out = String::new();
        push_digits(&mut out, self.0, 10);
        assert(out@ =~= digits_text(self.0 as nat, 10));
        out
    }
}

impl CtorCall {
    /// The constructor id of the call.
    pub fn pretty(&self) -> (r: String)
        ensures
            r@ == ctor_id_text(self.ctor),
    {
        self.ctor.pretty()
    }
}

/// Appends the text of the path `ids`.
fn push_inst_ref(out: &mut String, ids: &Vec<InstId>)
    ensures
        final(out)@ == old(out)@ + inst_ref_text(ids@),
{
    let mut i: usize = 0;
    while i < ids.len()
        invariant
            i <= ids@.len(),
            out@ == old(out)@ + inst_ref_text(ids@.subrange(0, i as int)),
        decreases ids@.len() - i,
    {
        let ghost before = out@;
        if i > 0 {
            out.append(".");
        }
        push_digits(out, ids[i].0, 10);
        proof {
            let pre = ids@.subrange(0, i as int);
            let next = ids@.subrange(0, i + 1);
            assert(next.drop_last() =~= pre);
            if i == 0 {
                assert(inst_ref_text(pre) =~= Seq::<char>::empty());
            }
            assert(out@ =~= old(out)@ + inst_ref_text(next));
        }
        i += 1;
    }
    assert(ids@.subrange(0, ids@.len() as int) =~= ids@);
}

impl InstRef {
    /// The ids in decimal, joined by `.`.
    pub fn pretty(&self) -> (r: String)
        ensures
            r@ == inst_ref_text(self.0@),
    {
        let mut out = String::new();
        push_inst_ref(&mut out, &self.0);
        assert(out@ =~= inst_ref_text(self.0@));
        out
    }
}

/// Appends the text of a connection.
fn push_connection(out: &mut String, c: &Connection)
    ensures
        final(out)@ == old(out)@ + connection_text(*c),
{
    push_digits(out, c.id.0, 10);
    out.append(" ");
    push_inst_ref(out, &c.left.0);
    out.append(" ");
    push_inst_ref(out, &c.right.0);
    assert(out@ =~= old(out)@ + connection_text(*c));
}

impl Connection {
    /// The id, the left path and the right path, separated by spaces.
    pub fn pretty(&self) -> (r: String)
        ensures
            r@ == connection_text(*self),
    {
        let mut out = String::new();
        push_connection(&mut out, self);
        assert(out@ =~= connection_text(*self));
        out
    }
}

/// Appends the text of an interface entry.
fn push_iface_node(out: &mut String, n: &IfaceNode<InstRef>)
    ensures
        final(out)@ == old(out)@ + iface_node_text(*n),
{
    match n.0 {
        SideMatch::One(Side::Left) => out.append("L"),
        SideMatch::One(Side::Right) => out.append("R"),
        SideMatch::Both => out.append("A"),
    }
    out.append(" ");
    match &n.1 {
        Comm::Notify => out.append("-"),
        Comm::Data(r) => push_inst_ref(out, &r.0),
    }
    assert(out@ =~= old(out)@ + iface_node_text(*n));
}

impl StructlikeCtor {
    /// The body of the composite: its instantiations, `---`, its interface on one line, `---`,
    /// and its connections, every line indented by two spaces.
    pub fn pretty(&self) -> (r: String)
        requires
            self.wf(),
        ensures
            r@ == structlike_text(*self),
    {
        let mut out = String::new();
        let mut i: usize = 0;
        while i < self.inst2sym.len()
            invariant
                self.wf(),
                i <= self.inst2sym.entries_view().len(),
                out@ == inst_lines(*self, i as int),
            decreases self.inst2sym.entries_view().len() - i,
        {
            let ghost before = out@;
            let (iid, sym) = self.inst2sym.entry(i);
            out.append("  ");
            out.append(sym.as_str());
            out.append(" ");
            push_digits(&mut out, iid, 10);
            if let Some(call) = self.insts.get(iid) {
                out.append(" = ");
                let c = call.pretty();
                out.append(c.as_str());
            }
            out.append("\n");
            assert(out@ =~= before + inst_line(*self, i as int));
            i += 1;
        }
        out.append("  ---\n");
        let ghost mid = out@;
        if self.iface.len() > 0 {
            out.append(" ");
            let ghost start = out@;
            let mut j: usize = 0;
            while j < self.iface.len()
                invariant
                    j <= self.iface@.len(),
                    out@ == start + iface_nodes_text(self.iface@, j as int),
                decreases self.iface@.len() - j,
            {
                out.append(" ");
                push_iface_node(&mut out, &self.iface[j]);
                j += 1;
                assert(out@ =~= start + iface_nodes_text(self.iface@, j as int));
            }
            out.append("\n");
        }
        out.append("  ---\n");
        let ghost tail = out@;
        let mut k: usize = 0;
        while k < self.connections.len()
            invariant
                k <= self.connections@.len(),
                out@ == tail + connection_lines(self.connections@, k as int),
            decreases self.connections@.len() - k,
        {
            out.append("  ");
            push_connection(&mut out, &self.connections[k]);
            out.append("\n");
            k += 1;
            assert(out@ =~= tail + connection_lines(self.connections@, k as int));
        }
        assert(out@ =~= structlike_text(*self));
        out
    }
}

impl BinaryCtor {
    /// The path of the binary.
    pub fn pretty(&self) -> (r: String)
        ensures
            r@ == self.path@,
    {
        self.path.clone()
    }
}

impl LibCtor {
    /// The name of the primitive.
    pub fn pretty(&self) -> (r: String)
        ensures
            r@ == self.name@,
    {
        self.name.clone()
    }
}

/// The line (and, for a composite, the body) of the `i`-th named constructor, if it is of the
/// kind `kind`.
pub open spec fn ctor_text(p: Program, kind: CtorKind, i: int) -> Seq<char> {
    let (cid, sym) = p.ctorid2sym.entries_view()[i];
    let head = sym@ + " "@ + ctor_id_text(CtorId(cid));
    if p.ctors.view_map().contains_key(cid) {
        match p.ctors.view_map()[cid] {
            Ctor::LibCtor(l) => if kind == CtorKind::Lib {
                head + " "@ + l.name@ + "\n"@
            } else {
                Seq::empty()
            },
            Ctor::BinaryCtor(b) => if kind == CtorKind::Binary {
                head + " "@ + b.path@ + "\n"@
            } else {
                Seq::empty()
            },
            Ctor::StructlikeCtor(s) => if kind == CtorKind::Structlike {
                head + "\n"@ + structlike_text(s)
            } else {
                Seq::empty()
            },
        }
    } else {
        Seq::empty()
    }
}

/// The texts of the first `n` named constructors of the kind `kind`.
pub open spec fn ctors_text(p: Program, kind: CtorKind, n: int) -> Seq<char>
    decreases n,
{
    if n <= 0 {
        Seq::empty()
    } else {
        ctors_text(p, kind, n - 1) + ctor_text(p, kind, n - 1)
    }
}

/// The text of a program.
pub open spec fn program_text(p: Program) -> Seq<char> {
    let n = p.ctorid2sym.entries_view().len() as int;
    ctors_text(p, CtorKind::Lib, n) + "---\n"@ + ctors_text(p, CtorKind::Binary, n) + "---\n"@
        + ctors_text(p, CtorKind::Structlike, n) + "---\n"@ + ctor_id_text(p.main) + "\n"@
}

/// Appends, for each named constructor of the kind `kind` in id order, its line (and, for a
/// composite, its body).
fn push_ctors(out: &mut String, p: &Program, kind: CtorKind)
    requires
        p.wf(),
    ensures
        final(out)@ == old(out)@ + ctors_text(*p, kind, p.ctorid2sym.entries_view().len() as int),
{
    let mut i: usize = 0;
    while i < p.ctorid2sym.len()
        invariant
            p.wf(),
            i <= p.ctorid2sym.entries_view().len(),
            out@ == old(out)@ + ctors_text(*p, kind, i as int),
        decreases p.ctorid2sym.entries_view().len() - i,
    {
        let ghost before = out@;
        let (cid, sym) = p.ctorid2sym.entry(i);
        if let Some(ctor) = p.ctors.get(cid) {
            proof {
                assert(ctor.wf()) by {
                    let j = choose|j: int|
                        0 <= j < p.ctors.entries_view().len() && p.ctors.entries_view()[j].0 == cid;
                    crate::irlf_ser::idmap::lemma_value_at(p.ctors, j);
                    assert(p.ctors.entries_view()[j].1.wf());
                }
            }
            match ctor {
                Ctor::LibCtor(l) => {
                    if kind == CtorKind::Lib {
                        out.append(sym.as_str());
                        out.append(" ");
                        let c = CtorId(cid).pretty();
                        out.append(c.as_str());
                        out.append(" ");
                        out.append(l.name.as_str());
                        out.append("\n");
                    }
                },
                Ctor::BinaryCtor(b) => {
                    if kind == CtorKind::Binary {
                        out.append(sym.as_str());
                        out.append(" ");
                        let c = CtorId(cid).pretty();
                        out.append(c.as_str());
                        out.append(" ");
                        out.append(b.path.as_str());
                        out.append("\n");
                    }
                },
                Ctor::StructlikeCtor(s) => {
                    if kind == CtorKind::Structlike {
                        out.append(sym.as_str());
                        out.append(" ");
                        let c = CtorId(cid).pretty();
                        out.append(c.as_str());
                        out.append("\n");
                        let body = s.pretty();
                        out.append(body.as_str());
                    }
                },
            }
        }
        assert(out@ =~= before + ctor_text(*p, kind, i as int));
        i += 1;
    }
}

impl Program {
    /// The text of the program, in the form that `unpretty` reads.
    pub fn pretty(&self) -> (r: String)
        requires
            self.wf(),
        ensures
            r@ == program_text(*self),
    {
        let mut out = String::new();
        push_ctors(&mut out, self, CtorKind::Lib);
        out.append("---\n");
        push_ctors(&mut out, self, CtorKind::Binary);
        out.append("---\n");
        push_ctors(&mut out, self, CtorKind::Structlike);
        out.append("---\n");
        let m = self.main.pretty();
        out.append(m.as_str());
        out.append("\n");
        assert(out@ =~= program_text(*self));
        out
    }
}

} // verus!
