use vstd::prelude::*;

use crate::irlf_ser::ir::{Ctor, Program};

verus! {

/// Why a program is not valid.
#[derive(Debug, Clone, Copy, PartialEq, Eq, Structural)]
pub enum ValidationError {
    /// An id is used twice.
    DuplicateId,
}

impl ValidationError {
    /// What went wrong, in words.
    pub fn message(&self) -> (r: &'static str) {
        match self {
            ValidationError::DuplicateId => "IDs cannot be used twice.",
        }
    }
}

/// The instance ids declared by the first `n` constructors, in order.
pub open spec fn inst_ids(p: Program, n: int) -> Seq<u64>
    decreases n,
{
    if n <= 0 || n > p.ctors.entries_view().len() {
        Seq::empty()
    } else {
        inst_ids(p, n - 1) + match p.ctors.entries_view()[n - 1].1 {
            Ctor::StructlikeCtor(s) => s.insts.keys(),
            _ => Seq::empty(),
        }
    }
}

/// Every id of the program: the constructor ids, then the instance ids of each composite.
pub open spec fn all_ids(p: Program) -> Seq<u64> {
    p.ctors.keys() + inst_ids(p, p.ctors.entries_view().len() as int)
}

/// The instance ids of fewer constructors open those of more.
proof fn lemma_inst_ids_prefix(p: Program, m: int, n: int)
    requires
        0 <= m <= n <= p.ctors.entries_view().len(),
    ensures
        inst_ids(p, m).len() <= inst_ids(p, n).len(),
        inst_ids(p, n).subrange(0, inst_ids(p, m).len() as int) == inst_ids(p, m),
    decreases n - m,
{
    if m < n {
        lemma_inst_ids_prefix(p, m, n - 1);
        assert(inst_ids(p, n).subrange(0, inst_ids(p, m).len() as int) =~= inst_ids(p, m));
    } else {
        assert(inst_ids(p, n).subrange(0, inst_ids(p, m).len() as int) =~= inst_ids(p, m));
    }
}

/// Whether `x` is among `v`.
fn contains_id(v: &Vec<u64>, x: u64) -> (r: bool)
    ensures
        r == v@.contains(x),
{
    let mut i: usize = 0;
    while i < v.len()
        invariant
            i <= v@.len(),
            forall|j: int| 0 <= j < i ==> #[trigger] v@[j] != x,
        decreases v@.len() - i,
    {
        if v[i] == x {
            return true;
        }
        i += 1;
    }
    false
}

/// Checks that no id is used twice program-wide: no instance id repeats a constructor id or
/// another instance id.
pub fn ids_unique(p: &Program) -> (r: Result<(), ValidationError>)
    requires
        p.wf(),
    ensures
        r is Ok <==> all_ids(*p).no_duplicates(),
{
    let ghost total = all_ids(*p);
    let n = p.ctors.len();
    let mut ids: Vec<u64> = Vec::new();
    let mut c: usize = 0;
    while c < n
        invariant
            p.wf(),
            n == p.ctors.entries_view().len(),
            c <= n,
            ids@ == p.ctors.keys().subrange(0, c as int),
        decreases n - c,
    {
        let (k, _) = p.ctors.entry(c);
        ids.push(k);
        c += 1;
        assert(ids@ =~= p.ctors.keys().subrange(0, c as int));
    }
    assert(ids@ =~= p.ctors.keys());
    assert(ids@.no_duplicates()) by {
        assert forall|a: int, b: int| 0 <= a < ids@.len() && 0 <= b < ids@.len() && a != b implies ids@[a]
            != ids@[b] by {
            if a < b {
                assert(p.ctors.entries_view()[a].0 < p.ctors.entries_view()[b].0);
            } else {
                assert(p.ctors.entries_view()[b].0 < p.ctors.entries_view()[a].0);
            }
        }
    }
    let mut c: usize = 0;
    while c < n
        invariant
            p.wf(),
            n == p.ctors.entries_view().len(),
            c <= n,
            total == all_ids(*p),
            ids@ == p.ctors.keys() + inst_ids(*p, c as int),
            ids@.no_duplicates(),
        decreases n - c,
    {
        let (_, ctor) = p.ctors.entry(c);
        if let Ctor::StructlikeCtor(s) = ctor {
            proof {
                assert(p.ctors.entries_view()[c as int].1.wf());
            }
            let ghost base = ids@;
            let mut i: usize = 0;
            while i < s.insts.len()
                invariant
                    p.wf(),
                    n == p.ctors.entries_view().len(),
                    c < n,
                    total == all_ids(*p),
                    base == p.ctors.keys() + inst_ids(*p, c as int),
                    p.ctors.entries_view()[c as int].1 == Ctor::StructlikeCtor(*s),
                    s.insts.wf(),
                    i <= s.insts.entries_view().len(),
                    ids@ == base + s.insts.keys().subrange(0, i as int),
                    ids@.no_duplicates(),
                decreases s.insts.entries_view().len() - i,
            {
                let (k, _) = s.insts.entry(i);
                if contains_id(&ids, k) {
                    proof {
                        lemma_inst_ids_prefix(*p, c + 1, n as int);
                        let whole = base + s.insts.keys();
                        assert(inst_ids(*p, c + 1) == inst_ids(*p, c as int) + s.insts.keys());
                        assert(whole == p.ctors.keys() + inst_ids(*p, c + 1));
                        let at = ids@.len() as int;
                        let j = choose|j: int| 0 <= j < ids@.len() && ids@[j] == k;
                        assert(whole[at] == k);
                        assert(whole[j] == k);
                        assert(total[at] == whole[at]);
                        assert(total[j] == whole[j]);
                    }
                    return Err(ValidationError::DuplicateId);
                }
                ids.push(k);
                i += 1;
                proof {
                    assert(ids@ =~= base + s.insts.keys().subrange(0, i as int));
                }
            }
            proof {
                assert(s.insts.keys().subrange(0, i as int) =~= s.insts.keys());
            }
        }
        c += 1;
        proof {
            assert(ids@ =~= p.ctors.keys() + inst_ids(*p, c as int));
        }
    }
    Ok(())
}

} // verus!
