use vstd::prelude::*;

use crate::lf_types::{Comm, Level};

verus! {

/// Whether a fixpoint pass changed anything.
#[derive(Debug, Clone, Copy, PartialEq, Eq, Structural)]
pub enum FixpointingStatus {
    Changed,
    Unchanged,
}

impl FixpointingStatus {
    /// `Changed` if either is.
    pub fn or(self, other: FixpointingStatus) -> (r: FixpointingStatus)
        ensures
            r == (if self == FixpointingStatus::Changed || other == FixpointingStatus::Changed {
                FixpointingStatus::Changed
            } else {
                FixpointingStatus::Unchanged
            }),
    {
        if other == FixpointingStatus::Changed {
            FixpointingStatus::Changed
        } else {
            self
        }
    }
}

/// Keys and values both increase strictly along `s`.
pub open spec fn strictly_sorted(s: Seq<(u32, u32)>) -> bool {
    &&& forall|i: int, j: int| 0 <= i < j < s.len() ==> #[trigger] s[i].0 < #[trigger] s[j].0
    &&& forall|i: int, j: int| 0 <= i < j < s.len() ==> #[trigger] s[i].1 < #[trigger] s[j].1
}

/// `i` is the first index of `s` whose key is at least `k` (`s.len()` where there is none).
pub open spec fn is_start(s: Seq<(u32, u32)>, k: u32, i: int) -> bool {
    &&& 0 <= i <= s.len()
    &&& forall|j: int| 0 <= j < i ==> #[trigger] s[j].0 < k
    &&& (i == s.len() || s[i].0 >= k)
}

/// The first index of `s` whose key is at least `k`.
pub open spec fn start_of(s: Seq<(u32, u32)>, k: u32) -> int {
    choose|i: int| is_start(s, k, i)
}

pub proof fn lemma_start_of(s: Seq<(u32, u32)>, k: u32, i: int)
    requires
        is_start(s, k, i),
    ensures
        start_of(s, k) == i,
{
    let m = start_of(s, k);
    assert(is_start(s, k, m));
    if m < i {
        assert(s[m].0 < k);
    } else if m > i {
        assert(s[i].0 < k);
    }
}

/// Some entry of `s` has the key `q`.
pub open spec fn has_key(s: Seq<(u32, u32)>, q: u32) -> bool {
    exists|j: int| 0 <= j < s.len() && s[j].0 == q
}

/// In a strictly sorted map, a key has a value exactly where some entry has that key, and the
/// value is that entry's.
pub proof fn lemma_lookup_has_key(s: Seq<(u32, u32)>, q: u32)
    requires
        strictly_sorted(s),
    ensures
        lookup(s, q) is Some <==> has_key(s, q),
        forall|j: int| 0 <= j < s.len() && s[j].0 == q ==> lookup(s, q) == Some(#[trigger] s[j].1),
{
    lemma_start_exists(s, q);
    let p = start_of(s, q);
    assert forall|j: int| 0 <= j < s.len() && s[j].0 == q implies p == j by {
        if j < p {
            assert(s[j].0 < q);
        } else if j > p {
            assert(s[p].0 < s[j].0);
        }
    }
}

/// Raises the values from index `i` on to at least `lb`, `lb + 1`, ... in turn, stopping at the
/// first value that is already high enough.
pub open spec fn adjust_from(s: Seq<(u32, u32)>, lb: int, i: int) -> Seq<(u32, u32)>
    decreases s.len() - i,
{
    if i < 0 || i >= s.len() || s[i].1 >= lb {
        s
    } else {
        adjust_from(s.update(i, (s[i].0, lb as u32)), lb + 1, i + 1)
    }
}

/// The map `s` once every level from the intrinsic level `k` on is at least `lb`.
pub open spec fn adjust_spec(s: Seq<(u32, u32)>, lb: int, k: u32) -> Seq<(u32, u32)> {
    adjust_from(s, lb, start_of(s, k))
}

/// The bound `lb` already holds from the intrinsic level `k` on.
pub open spec fn bound_holds(s: Seq<(u32, u32)>, lb: int, k: u32) -> bool {
    let i = start_of(s, k);
    i >= s.len() || s[i].1 >= lb
}

/// The external level of the intrinsic level `k`, if `s` has it.
pub open spec fn lookup(s: Seq<(u32, u32)>, k: u32) -> Option<u32> {
    let i = start_of(s, k);
    if i < s.len() && s[i].0 == k {
        Some(s[i].1)
    } else {
        None
    }
}

/// `adjust_from` keeps every key, keeps what stands before `i`, and lowers no value.
pub proof fn lemma_adjust_from_shape(s: Seq<(u32, u32)>, lb: int, i: int)
    requires
        0 <= i,
        lb + s.len() - i <= u32::MAX,
    ensures
        adjust_from(s, lb, i).len() == s.len(),
        forall|j: int| 0 <= j < s.len() ==> #[trigger] adjust_from(s, lb, i)[j].0 == s[j].0,
        forall|j: int| 0 <= j < s.len() ==> #[trigger] adjust_from(s, lb, i)[j].1 >= s[j].1,
        forall|j: int| 0 <= j < i && j < s.len() ==> #[trigger] adjust_from(s, lb, i)[j] == s[j],
        i < s.len() ==> adjust_from(s, lb, i)[i].1 >= lb,
    decreases s.len() - i,
{
    if i < s.len() && s[i].1 < lb {
        let t = s.update(i, (s[i].0, lb as u32));
        lemma_adjust_from_shape(t, lb + 1, i + 1);
    }
}

/// `adjust_from` keeps keys and values increasing strictly.
pub proof fn lemma_adjust_from_sorted(s: Seq<(u32, u32)>, lb: int, i: int)
    requires
        0 <= i <= s.len(),
        lb + s.len() - i <= u32::MAX,
        forall|a: int, b: int| 0 <= a < b < s.len() ==> #[trigger] s[a].0 < #[trigger] s[b].0,
        forall|a: int, b: int| 0 <= a < b < i ==> #[trigger] s[a].1 < #[trigger] s[b].1,
        forall|a: int, b: int| i <= a < b < s.len() ==> #[trigger] s[a].1 < #[trigger] s[b].1,
        0 < i < s.len() ==> (s[i - 1].1 < lb || s[i - 1].1 < s[i].1),
        i == s.len() || 0 == i || s[i - 1].1 < lb || s[i - 1].1 < s[i].1,
    ensures
        strictly_sorted(adjust_from(s, lb, i)),
    decreases s.len() - i,
{
    if i < s.len() && s[i].1 < lb {
        let t = s.update(i, (s[i].0, lb as u32));
        assert forall|a: int, b: int| 0 <= a < b < i + 1 implies #[trigger] t[a].1 < #[trigger] t[b].1 by {
            if b == i && a < i - 1 {
                assert(s[a].1 < s[i - 1].1);
            }
            if b == i && a < i {
                if s[i - 1].1 >= lb {
                    assert(s[i - 1].1 < s[i].1);
                }
            }
        }
        lemma_adjust_from_sorted(t, lb + 1, i + 1);
    } else {
        assert forall|a: int, b: int| 0 <= a < b < s.len() implies #[trigger] s[a].1 < #[trigger] s[b].1 by {
            if a < i && b >= i {
                if a < i - 1 {
                    assert(s[a].1 < s[i - 1].1);
                }
                if b > i {
                    assert(s[i].1 < s[b].1);
                }
            }
        }
    }
}

/// Raising values never lowers one: every value of the adjusted map is at least the one it had,
/// under the same key.
pub proof fn lemma_adjust_monotone(s: Seq<(u32, u32)>, lb: int, k: u32)
    requires
        strictly_sorted(s),
        lb + s.len() <= u32::MAX,
    ensures
        adjust_spec(s, lb, k).len() == s.len(),
        forall|j: int|
            0 <= j < s.len() ==> #[trigger] adjust_spec(s, lb, k)[j].0 == s[j].0
                && adjust_spec(s, lb, k)[j].1 >= s[j].1,
        strictly_sorted(adjust_spec(s, lb, k)),
{
    let i = start_of(s, k);
    lemma_start_exists(s, k);
    lemma_adjust_from_shape(s, lb, i);
    lemma_adjust_from_sorted(s, lb, i);
}

/// The map `s` after each bound of `steps` (a lower bound and an intrinsic level) in turn.
pub open spec fn adjust_all(s: Seq<(u32, u32)>, steps: Seq<(int, u32)>) -> Seq<(u32, u32)>
    decreases steps.len(),
{
    if steps.len() == 0 {
        s
    } else {
        adjust_spec(adjust_all(s, steps.drop_last()), steps.last().0, steps.last().1)
    }
}

/// Over any sequence of adjustments, no value of the map ever decreases, keys stay as they are,
/// and keys and values keep increasing strictly.
pub proof fn lemma_adjust_all_monotone(s: Seq<(u32, u32)>, steps: Seq<(int, u32)>)
    requires
        strictly_sorted(s),
        forall|i: int| 0 <= i < steps.len() ==> 0 <= (#[trigger] steps[i]).0 && steps[i].0 + s.len() <= u32::MAX,
    ensures
        adjust_all(s, steps).len() == s.len(),
        strictly_sorted(adjust_all(s, steps)),
        forall|j: int|
            0 <= j < s.len() ==> #[trigger] adjust_all(s, steps)[j].0 == s[j].0 && adjust_all(s, steps)[j].1
                >= s[j].1,
    decreases steps.len(),
{
    if steps.len() > 0 {
        let init = steps.drop_last();
        assert forall|i: int| 0 <= i < init.len() implies 0 <= (#[trigger] init[i]).0 && init[i].0 + s.len()
            <= u32::MAX by {
            assert(init[i] == steps[i]);
        }
        lemma_adjust_all_monotone(s, init);
        let t = adjust_all(s, init);
        lemma_adjust_monotone(t, steps.last().0, steps.last().1);
    }
}

/// The first index with a key at least `k` exists.
pub proof fn lemma_start_exists(s: Seq<(u32, u32)>, k: u32)
    requires
        strictly_sorted(s),
    ensures
        is_start(s, k, start_of(s, k)),
    decreases s.len(),
{
    if s.len() == 0 {
        assert(is_start(s, k, 0));
    } else if s.last().0 < k {
        assert(is_start(s, k, s.len() as int));
    } else {
        let t = s.drop_last();
        assert(strictly_sorted(t)) by {
            assert forall|a: int, b: int| 0 <= a < b < t.len() implies #[trigger] t[a].0 < #[trigger] t[b].0 by {
                assert(s[a].0 < s[b].0);
            }
            assert forall|a: int, b: int| 0 <= a < b < t.len() implies #[trigger] t[a].1 < #[trigger] t[b].1 by {
                assert(s[a].1 < s[b].1);
            }
        }
        lemma_start_exists(t, k);
        let i = start_of(t, k);
        assert forall|j: int| 0 <= j < i implies #[trigger] s[j].0 < k by {
            assert(t[j].0 < k);
        }
        if i < t.len() {
            assert(s[i].0 == t[i].0);
            assert(is_start(s, k, i));
        } else {
            assert(is_start(s, k, t.len() as int));
        }
    }
}

/// Once a bound has been applied from `k` on, it holds from `k` on.
pub proof fn lemma_adjust_establishes(s: Seq<(u32, u32)>, lb: int, k: u32)
    requires
        strictly_sorted(s),
        lb + s.len() <= u32::MAX,
    ensures
        bound_holds(adjust_spec(s, lb, k), lb, k),
{
    let i = start_of(s, k);
    lemma_start_exists(s, k);
    lemma_adjust_from_shape(s, lb, i);
    let t = adjust_spec(s, lb, k);
    assert(is_start(t, k, i));
    lemma_start_of(t, k, i);
}

/// Where the bound already holds, applying it changes nothing.
pub proof fn lemma_adjust_noop(s: Seq<(u32, u32)>, lb: int, k: u32)
    requires
        strictly_sorted(s),
        bound_holds(s, lb, k),
    ensures
        adjust_spec(s, lb, k) == s,
{
    lemma_start_exists(s, k);
}

/// Applying the same bound twice leaves the map as applying it once does.
pub proof fn lemma_adjust_idempotent(s: Seq<(u32, u32)>, lb: int, k: u32)
    requires
        strictly_sorted(s),
        lb + s.len() <= u32::MAX,
    ensures
        adjust_spec(adjust_spec(s, lb, k), lb, k) == adjust_spec(s, lb, k),
{
    lemma_adjust_monotone(s, lb, k);
    lemma_adjust_establishes(s, lb, k);
    lemma_adjust_noop(adjust_spec(s, lb, k), lb, k);
}

/// The map `s` once an acceptor for the intrinsic level `k` is invoked with `c`: a bound is
/// applied from `k` on; a notification changes nothing.
pub open spec fn invoke_spec(s: Seq<(u32, u32)>, k: u32, c: Comm<Level>) -> Seq<(u32, u32)> {
    match c {
        Comm::Data(l) => adjust_spec(s, l.0 as int, k),
        Comm::Notify => s,
    }
}

/// Invoking an acceptor twice with the same argument leaves the map as invoking it once does.
pub proof fn lemma_invoke_idempotent(s: Seq<(u32, u32)>, k: u32, c: Comm<Level>)
    requires
        strictly_sorted(s),
        c is Data ==> c->Data_0.0 + s.len() <= u32::MAX,
    ensures
        invoke_spec(invoke_spec(s, k, c), k, c) == invoke_spec(s, k, c),
{
    if let Comm::Data(l) = c {
        lemma_adjust_idempotent(s, l.0 as int, k);
    }
}

/// The map from intrinsic to external levels of one analysis session. Keys and values both
/// increase strictly; the map only ever grows in its values.
#[derive(Debug)]
pub struct LevelMap {
    entries: Vec<(u32, u32)>,
}

impl LevelMap {
    pub closed spec fn view(&self) -> Seq<(u32, u32)> {
        self.entries@
    }

    pub open spec fn wf(&self) -> bool {
        strictly_sorted(self.view())
    }

    /// The map that sends each of `levels`, and level 0, to itself.
    pub fn identity(levels: &Vec<Level>) -> (r: Self)
        ensures
            r.wf(),
            forall|j: int| 0 <= j < r.view().len() ==> #[trigger] r.view()[j].0 == r.view()[j].1,
            lookup(r.view(), 0) == Some(0u32),
            forall|l: Level| levels@.contains(l) ==> lookup(r.view(), l.0) == Some(l.0),
            forall|q: u32|
                lookup(r.view(), q) == (if q == 0 || levels@.contains(Level(q)) {
                    Some(q)
                } else {
                    None::<u32>
                }),
    {
        let mut m = LevelMap { entries: Vec::new() };
        m.insert_identity(0);
        let mut i: usize = 0;
        while i < levels.len()
            invariant
                m.wf(),
                i <= levels@.len(),
                forall|j: int| 0 <= j < m.view().len() ==> #[trigger] m.view()[j].0 == m.view()[j].1,
                lookup(m.view(), 0) == Some(0u32),
                forall|j: int| 0 <= j < i ==> lookup(m.view(), #[trigger] levels@[j].0) == Some(levels@[j].0),
                forall|q: u32|
                    has_key(m.view(), q) ==> q == 0 || exists|j: int| 0 <= j < i && (#[trigger] levels@[j]).0 == q,
            decreases levels@.len() - i,
        {
            m.insert_identity(levels[i].0);
            proof {
                assert forall|q: u32| has_key(m.view(), q) implies q == 0 || exists|j: int|
                    0 <= j < i + 1 && (#[trigger] levels@[j]).0 == q by {
                    if q == levels@[i as int].0 {
                        assert(0 <= i < i + 1 && levels@[i as int].0 == q);
                    }
                }
            }
            i += 1;
        }
        proof {
            assert forall|l: Level| levels@.contains(l) implies lookup(m.view(), l.0) == Some(l.0) by {
                let j = choose|j: int| 0 <= j < levels@.len() && levels@[j] == l;
            }
            assert forall|q: u32|
                lookup(m.view(), q) == (if q == 0 || levels@.contains(Level(q)) {
                    Some(q)
                } else {
                    None::<u32>
                }) by {
                lemma_lookup_has_key(m.view(), q);
                if levels@.contains(Level(q)) {
                    assert(lookup(m.view(), Level(q).0) == Some(Level(q).0));
                }
                if has_key(m.view(), q) && q != 0 {
                    let j = choose|j: int| 0 <= j < i && (#[trigger] levels@[j]).0 == q;
                    assert(levels@[j] == Level(q));
                }
            }
        }
        m
    }

    /// Adds the entry `k` to `k` if there is no entry under `k` yet.
    fn insert_identity(&mut self, k: u32)
        requires
            old(self).wf(),
            forall|j: int|
                0 <= j < old(self).view().len() ==> #[trigger] old(self).view()[j].0 == old(self).view()[j].1,
        ensures
            final(self).wf(),
            forall|j: int|
                0 <= j < final(self).view().len() ==> #[trigger] final(self).view()[j].0 == final(self).view()[j].1,
            lookup(final(self).view(), k) == Some(k),
            forall|q: u32| lookup(old(self).view(), q) is Some ==> lookup(final(self).view(), q) == lookup(old(self).view(), q),
            forall|q: u32| has_key(final(self).view(), q) <==> (has_key(old(self).view(), q) || q == k),
    {
        let ghost s = self.entries@;
        let mut i: usize = 0;
        while i < self.entries.len() && self.entries[i].0 < k
            invariant
                self.entries@ == s,
                i <= s.len(),
                forall|j: int| 0 <= j < i ==> #[trigger] s[j].0 < k,
            decreases s.len() - i,
        {
            i += 1;
        }
        proof {
            lemma_start_of(s, k, i as int);
        }
        if i < self.entries.len() && self.entries[i].0 == k {
            assert(has_key(s, k));
            return;
        }
        self.entries.insert(i, (k, k));
        let ghost t = self.entries@;
        assert forall|q: u32| has_key(t, q) <==> (has_key(s, q) || q == k) by {
            if has_key(t, q) {
                let j = choose|j: int| 0 <= j < t.len() && t[j].0 == q;
                if j < i {
                    assert(s[j].0 == q);
                } else if j > i {
                    assert(s[j - 1].0 == q);
                }
            }
            if has_key(s, q) {
                let j = choose|j: int| 0 <= j < s.len() && s[j].0 == q;
                if j < i {
                    assert(t[j].0 == q);
                } else {
                    assert(t[j + 1].0 == q);
                }
            }
            if q == k {
                assert(t[i as int].0 == q);
            }
        }
        assert(strictly_sorted(t)) by {
            assert forall|a: int, b: int| 0 <= a < b < t.len() implies #[trigger] t[a].0 < #[trigger] t[b].0 by {
                if a < i && b > i {
                    assert(s[a].0 < k);
                }
                if a < i && b == i {
                    assert(s[a].0 < k);
                }
                if a == i && b > i {
                    assert(s[b - 1].0 >= k);
                    assert(s[b - 1].0 != k || b - 1 != i);
                    if b - 1 > i {
                        assert(s[i as int].0 < s[b - 1].0);
                    }
                }
            }
            assert forall|a: int, b: int| 0 <= a < b < t.len() implies #[trigger] t[a].1 < #[trigger] t[b].1 by {
                assert(t[a].0 < t[b].0);
                assert(t[a].0 == t[a].1 && t[b].0 == t[b].1) by {
                    if a < i {
                        assert(t[a] == s[a]);
                    } else if a > i {
                        assert(t[a] == s[a - 1]);
                    }
                    if b < i {
                        assert(t[b] == s[b]);
                    } else if b > i {
                        assert(t[b] == s[b - 1]);
                    }
                }
            }
        }
        proof {
            assert(is_start(t, k, i as int));
            lemma_start_of(t, k, i as int);
            assert forall|q: u32| lookup(s, q) is Some implies lookup(t, q) == lookup(s, q) by {
                lemma_start_exists(s, q);
                let p = start_of(s, q);
                if p < i {
                    assert(is_start(t, q, p));
                    lemma_start_of(t, q, p);
                } else {
                    assert(s[p].0 == q);
                    assert(q != k);
                    assert(q > k);
                    assert(is_start(t, q, p + 1));
                    lemma_start_of(t, q, p + 1);
                }
            }
        }
    }

    /// The external level of the intrinsic level `k`, if the map has it.
    pub fn get(&self, k: u32) -> (r: Option<u32>)
        requires
            self.wf(),
        ensures
            r == lookup(self.view(), k),
    {
        let mut i: usize = 0;
        while i < self.entries.len() && self.entries[i].0 < k
            invariant
                i <= self.entries@.len(),
                forall|j: int| 0 <= j < i ==> #[trigger] self.entries@[j].0 < k,
            decreases self.entries@.len() - i,
        {
            i += 1;
        }
        proof {
            lemma_start_of(self.entries@, k, i as int);
        }
        if i < self.entries.len() && self.entries[i].0 == k {
            Some(self.entries[i].1)
        } else {
            None
        }
    }

    /// The number of entries.
    pub fn len(&self) -> (r: usize)
        ensures
            r == self.view().len(),
    {
        self.entries.len()
    }

    /// Requires every level from the intrinsic level `intrinsic_level` on to be at least
    /// `lower_bound`: walking up from there, each value below what is required is raised to it,
    /// and what is required grows by one at each raised entry, until an entry is high enough.
    pub fn adjust(&mut self, lower_bound: Level, intrinsic_level: Level) -> (r: FixpointingStatus)
        requires
            old(self).wf(),
            lower_bound.0 + old(self).view().len() <= u32::MAX,
        ensures
            final(self).wf(),
            final(self).view() == adjust_spec(old(self).view(), lower_bound.0 as int, intrinsic_level.0),
            r == FixpointingStatus::Unchanged <==> bound_holds(
                old(self).view(),
                lower_bound.0 as int,
                intrinsic_level.0,
            ),
            r == FixpointingStatus::Unchanged ==> final(self).view() == old(self).view(),
    {
        let ghost s0 = self.entries@;
        let k = intrinsic_level.0;
        let mut i: usize = 0;
        while i < self.entries.len() && self.entries[i].0 < k
            invariant
                self.entries@ == s0,
                i <= s0.len(),
                forall|j: int| 0 <= j < i ==> #[trigger] s0[j].0 < k,
            decreases s0.len() - i,
        {
            i += 1;
        }
        proof {
            lemma_start_of(s0, k, i as int);
            lemma_adjust_monotone(s0, lower_bound.0 as int, k);
        }
        let ghost start = i as int;
        let mut lb: u32 = lower_bound.0;
        let mut changed = FixpointingStatus::Unchanged;
        while i < self.entries.len() && self.entries[i].1 < lb
            invariant
                0 <= start <= i <= s0.len(),
                self.entries@.len() == s0.len(),
                lb == lower_bound.0 + (i - start),
                lower_bound.0 + s0.len() <= u32::MAX,
                adjust_from(self.entries@, lb as int, i as int) == adjust_spec(
                    s0,
                    lower_bound.0 as int,
                    k,
                ),
                start == start_of(s0, k),
                changed == FixpointingStatus::Unchanged ==> i == start && self.entries@ == s0,
                changed == FixpointingStatus::Changed ==> !bound_holds(s0, lower_bound.0 as int, k),
            decreases s0.len() - i,
        {
            let key = self.entries[i].0;
            self.entries.set(i, (key, lb));
            lb = lb + 1;
            i += 1;
            changed = FixpointingStatus::Changed;
        }
        changed
    }
}

} // verus!
