//! Dependency discovery state: an insertion-ordered set of found objects
//! over a fixed, finite universe, plus the worklist of objects that still
//! have to be traversed. The collecting sink walks the expressions an object
//! writes and notes every object reference it meets; a reference is added
//! exactly once, the first time it is seen.

use vstd::prelude::*;
use vstd::set_lib::set_int_range;
use crate::constexpr::{ConstExpr, Evaluable, ExprBase, ForwardTable};

verus! {

/// The collector's abstract state: one seen-flag per object of the universe,
/// the discoveries in insertion order, and the not-yet-traversed tail.
pub struct CollectState {
    pub seen: Seq<bool>,
    pub found: Seq<usize>,
    pub fresh: Seq<usize>,
}

impl CollectState {
    /// The found list is duplicate-free, stays inside the universe, and
    /// agrees with the seen flags; the worklist holds found objects only.
    pub open spec fn wf(self) -> bool {
        &&& self.found.no_duplicates()
        &&& forall|i: int| 0 <= i < self.found.len() ==> (#[trigger] self.found[i]) < self.seen.len()
        &&& forall|j: int|
            0 <= j < self.seen.len() ==> (self.seen[j] == self.found.contains(j as usize))
        &&& forall|i: int| 0 <= i < self.fresh.len() ==> self.found.contains(#[trigger] self.fresh[i])
    }
}

/// How one or more collection steps may change the state: the universe is
/// fixed, discoveries are append-only, and everything newly found is also
/// appended, in the same order, to the worklist.
pub open spec fn collect_extends(older: CollectState, newer: CollectState) -> bool {
    &&& newer.seen.len() == older.seen.len()
    &&& newer.found.len() >= older.found.len()
    &&& newer.found.take(older.found.len() as int) == older.found
    &&& newer.fresh == older.fresh + newer.found.skip(older.found.len() as int)
}

pub proof fn lemma_collect_extends_refl(s: CollectState)
    ensures
        collect_extends(s, s),
{
    assert(s.found.take(s.found.len() as int) =~= s.found);
    assert(s.fresh =~= s.fresh + s.found.skip(s.found.len() as int));
}

pub proof fn lemma_collect_extends_trans(a: CollectState, b: CollectState, c: CollectState)
    requires
        collect_extends(a, b),
        collect_extends(b, c),
    ensures
        collect_extends(a, c),
{
    assert(c.found.take(a.found.len() as int) =~= a.found) by {
        assert(forall|i: int|
            0 <= i < a.found.len() ==> c.found.take(b.found.len() as int)[i] == c.found[i]);
    }
    assert(c.fresh =~= a.fresh + c.found.skip(a.found.len() as int)) by {
        assert(forall|i: int|
            0 <= i < b.found.len() - a.found.len() ==> b.found.skip(a.found.len() as int)[i]
                == c.found.skip(a.found.len() as int)[i]);
    }
}

/// Discoveries are never lost: extension preserves membership.
pub proof fn lemma_extends_contains(older: CollectState, newer: CollectState, v: usize)
    requires
        collect_extends(older, newer),
        older.found.contains(v),
    ensures
        newer.found.contains(v),
{
    let k = choose|k: int| 0 <= k < older.found.len() && older.found[k] == v;
    assert(newer.found.take(older.found.len() as int)[k] == v);
    assert(newer.found[k] == v);
}

/// A duplicate-free list over a universe of `n` objects has at most `n`
/// entries.
pub proof fn lemma_found_len_bound(s: CollectState)
    requires
        s.wf(),
    ensures
        s.found.len() <= s.seen.len(),
{
    let si = s.found.map_values(|x: usize| x as int);
    assert(si.no_duplicates()) by {
        assert(forall|i: int, j: int|
            0 <= i < si.len() && 0 <= j < si.len() && i != j ==> si[i] != si[j]);
    }
    si.unique_seq_to_set();
    let range = set_int_range(0, s.seen.len() as int);
    assert(si.to_set().subset_of(range)) by {
        assert forall|v: int| si.to_set().contains(v) implies range.contains(v) by {
            let k = choose|k: int| 0 <= k < si.len() && si[k] == v;
            assert(s.found[k] < s.seen.len());
        }
    }
    vstd::set_lib::lemma_int_range(0, s.seen.len() as int);
    vstd::set_lib::lemma_len_subset(si.to_set(), range);
}

/// The collecting sink: notes object references, never bytes.
pub struct DepCollector {
    seen: Vec<bool>,
    found: Vec<usize>,
    fresh: Vec<usize>,
}

impl View for DepCollector {
    type V = CollectState;

    closed spec fn view(&self) -> CollectState {
        CollectState { seen: self.seen@, found: self.found@, fresh: self.fresh@ }
    }
}

impl DepCollector {
    /// An empty collector over a universe of `n` objects.
    pub fn new(n: usize) -> (r: DepCollector)
        ensures
            r@.seen == Seq::new(n as nat, |j: int| false),
            r@.found == Seq::<usize>::empty(),
            r@.fresh == Seq::<usize>::empty(),
            r@.wf(),
    {
        let mut seen: Vec<bool> = Vec::new();
        let mut j: usize = 0;
        while j < n
            invariant
                j <= n,
                seen@ == Seq::new(j as nat, |i: int| false),
            decreases n - j,
        {
            seen.push(false);
            proof {
                assert(seen@ =~= Seq::new((j + 1) as nat, |i: int| false));
            }
            j = j + 1;
        }
        DepCollector { seen, found: Vec::new(), fresh: Vec::new() }
    }

    /// Note a reference to the object with this index: a first sighting goes
    /// to the found list and the worklist; anything else changes nothing.
    pub fn depend(&mut self, id: usize)
        requires
            old(self)@.wf(),
        ensures
            final(self)@.wf(),
            collect_extends(old(self)@, final(self)@),
            id < old(self)@.seen.len() && !old(self)@.seen[id as int] ==> final(self)@ == (CollectState {
                seen: old(self)@.seen.update(id as int, true),
                found: old(self)@.found.push(id),
                fresh: old(self)@.fresh.push(id),
            }),
            !(id < old(self)@.seen.len() && !old(self)@.seen[id as int]) ==> final(self)@ == old(self)@,
            final(self)@.seen.len() == old(self)@.seen.len(),
            id < old(self)@.seen.len() ==> final(self)@.found.contains(id),
    {
        proof {
            lemma_collect_extends_refl(self@);
        }
        if id < self.seen.len() {
            if !self.seen[id] {
                self.seen.set(id, true);
                self.found.push(id);
                self.fresh.push(id);
                proof {
                    let o = old(self)@;
                    let n = self@;
                    assert(n.found.take(o.found.len() as int) =~= o.found);
                    assert(n.fresh =~= o.fresh + n.found.skip(o.found.len() as int));
                    assert(n.wf()) by {
                        assert(forall|i: int|
                            0 <= i < o.found.len() ==> n.found[i] == o.found[i]);
                        assert(n.found[o.found.len() as int] == id);
                        assert(!o.found.contains(id));
                        assert forall|j: int| 0 <= j < n.seen.len() implies (n.seen[j]
                            == n.found.contains(j as usize)) by {
                            if j == id as int {
                                assert(n.found.contains(id));
                            } else {
                                if o.found.contains(j as usize) {
                                    let k = choose|k: int|
                                        0 <= k < o.found.len() && o.found[k] == j as usize;
                                    assert(n.found[k] == j as usize);
                                } else {
                                    if n.found.contains(j as usize) {
                                        let k = choose|k: int|
                                            0 <= k < n.found.len() && n.found[k] == j as usize;
                                        assert(k == o.found.len());
                                    }
                                }
                            }
                        }
                        assert forall|i: int| 0 <= i < n.fresh.len() implies n.found.contains(
                            #[trigger] n.fresh[i],
                        ) by {
                            if i < o.fresh.len() {
                                assert(o.found.contains(o.fresh[i]));
                                let k = choose|k: int|
                                    0 <= k < o.found.len() && o.found[k] == o.fresh[i];
                                assert(n.found[k] == o.fresh[i]);
                            } else {
                                assert(n.found[o.found.len() as int] == id);
                            }
                        }
                    }
                    assert(n.found[o.found.len() as int] == id);
                    assert(n.found.contains(id));
                }
            } else {
                proof {
                    assert(self@.found.contains(id));
                }
            }
        }
    }

    /// Take one object off the worklist, newest first.
    pub fn pop_fresh(&mut self) -> (r: Option<usize>)
        requires
            old(self)@.wf(),
        ensures
            final(self)@.wf(),
            final(self)@.seen == old(self)@.seen,
            final(self)@.found == old(self)@.found,
            old(self)@.fresh.len() == 0 ==> r is None && final(self)@ == old(self)@,
            old(self)@.fresh.len() > 0 ==> r == Some(old(self)@.fresh.last())
                && final(self)@.fresh == old(self)@.fresh.drop_last()
                && old(self)@.found.contains(old(self)@.fresh.last()),
    {
        let r = self.fresh.pop();
        proof {
            if old(self)@.fresh.len() == 0 {
                assert(final(self)@.fresh =~= old(self)@.fresh);
            }
        }
        r
    }

    pub fn fresh_count(&self) -> (r: usize)
        ensures
            r == self@.fresh.len(),
    {
        self.fresh.len()
    }

    pub fn found_count(&self) -> (r: usize)
        ensures
            r == self@.found.len(),
    {
        self.found.len()
    }

    pub fn universe_size(&self) -> (r: usize)
        ensures
            r == self@.seen.len(),
    {
        self.seen.len()
    }

    /// Hand the discoveries out, in insertion order.
    pub fn into_found(self) -> (r: Vec<usize>)
        ensures
            r@ == self@.found,
    {
        self.found
    }

    /// Walk everything evaluable and note each object reference, following
    /// forward bindings exactly as evaluation would.
    pub fn note_evaluable(&mut self, x: &Evaluable, forwards: &ForwardTable)
        requires
            old(self)@.wf(),
        ensures
            final(self)@.wf(),
            collect_extends(old(self)@, final(self)@),
    {
        match x {
            Evaluable::Int(_) => {
                proof {
                    lemma_collect_extends_refl(self@);
                }
            },
            Evaluable::Rloc(_) => {
                proof {
                    lemma_collect_extends_refl(self@);
                }
            },
            Evaluable::Expr(e) => {
                self.note_expr(e, forwards, forwards.len());
            },
        }
    }

    fn note_expr(&mut self, e: &ConstExpr, forwards: &ForwardTable, fuel: usize)
        requires
            old(self)@.wf(),
        ensures
            final(self)@.wf(),
            collect_extends(old(self)@, final(self)@),
        decreases fuel, *e,
    {
        proof {
            lemma_collect_extends_refl(self@);
        }
        if e.rlocmode == 0 {
            return ;
        }
        match &e.base {
            ExprBase::Empty => {},
            ExprBase::Object(id) => {
                self.depend(*id);
            },
            ExprBase::Forward(slot) => {
                if *slot < forwards.len() {
                    let f = crate::constexpr::Forward { slot: *slot };
                    match forwards.get_expr(&f) {
                        None => {},
                        Some(x) => {
                            if fuel > 0 {
                                match x {
                                    Evaluable::Int(_) => {},
                                    Evaluable::Rloc(_) => {},
                                    Evaluable::Expr(inner) => {
                                        self.note_expr(inner, forwards, fuel - 1);
                                    },
                                }
                            }
                        },
                    }
                }
            },
            ExprBase::Boxed(inner) => {
                self.note_expr(inner, forwards, fuel);
            },
        }
    }
}

} // verus!
