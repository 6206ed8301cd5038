//! The overlap-aware packer: given one occupancy map per object, in
//! discovery order, it assigns each object a dword base inside the shared
//! buffer and reports the buffer's total size in dwords. Two objects may
//! overlap wherever at least one of them is padding: only an occupied dword
//! meeting an already-reserved slot is a conflict. Each object lands on the
//! first conflict-free base at or after the previous object's base, and the
//! slots it occupies become reserved for good.

use vstd::prelude::*;

verus! {

/// A conflict: some occupied dword of the map would land on a reserved slot.
pub open spec fn conflicts(map: Seq<bool>, reserved: Set<int>, base: int) -> bool {
    exists|i: int| 0 <= i < map.len() && map[i] && reserved.contains(base + i)
}

/// `base` is the first conflict-free position at or after `lo`.
pub open spec fn is_first_fit(map: Seq<bool>, reserved: Set<int>, lo: int, base: int) -> bool {
    &&& lo <= base
    &&& !conflicts(map, reserved, base)
    &&& forall|b: int| lo <= b < base ==> conflicts(map, reserved, b)
}

/// The first conflict-free position at or after `lo` (well defined wherever
/// one exists: `lemma_first_fit_unique` says there is at most one).
pub open spec fn first_fit(map: Seq<bool>, reserved: Set<int>, lo: int) -> int {
    choose|b: int| is_first_fit(map, reserved, lo, b)
}

/// The absolute slots an object placed at `base` occupies.
pub open spec fn occupied_set(map: Seq<bool>, base: int) -> Set<int> {
    Set::new(|p: int| exists|i: int| 0 <= i < map.len() && map[i] && p == base + i)
}

/// The packer's running state: assigned bases, reserved slots, the candidate
/// base the next object starts from, and the running size in dwords.
pub struct Packing {
    pub bases: Seq<int>,
    pub reserved: Set<int>,
    pub next_lo: int,
    pub size_dw: int,
}

/// The whole packing, one object at a time: each map lands on its first fit,
/// reserves its occupied slots, and pushes the size to cover its end.
pub open spec fn pack(maps: Seq<Seq<bool>>) -> Packing
    decreases maps.len(),
{
    if maps.len() == 0 {
        Packing { bases: Seq::empty(), reserved: Set::empty(), next_lo: 0, size_dw: 0 }
    } else {
        let p = pack(maps.drop_last());
        let m = maps.last();
        let b = first_fit(m, p.reserved, p.next_lo);
        Packing {
            bases: p.bases.push(b),
            reserved: p.reserved.union(occupied_set(m, b)),
            next_lo: b,
            size_dw: if p.size_dw >= b + m.len() {
                p.size_dw
            } else {
                b + m.len()
            },
        }
    }
}

/// The sequence of occupancy maps a vector of maps stands for.
pub open spec fn views_of(ms: Seq<Vec<bool>>) -> Seq<Seq<bool>> {
    Seq::new(ms.len(), |i: int| ms[i]@)
}

/// The reserved slots a boolean reservation array stands for.
pub open spec fn true_set(rs: Seq<bool>) -> Set<int> {
    Set::new(|j: int| 0 <= j < rs.len() && rs[j])
}

pub open spec fn sum_len(maps: Seq<Seq<bool>>) -> int
    decreases maps.len(),
{
    if maps.len() == 0 {
        0
    } else {
        sum_len(maps.drop_last()) + maps.last().len()
    }
}

pub open spec fn all_occupied(m: Seq<bool>) -> bool {
    forall|i: int| 0 <= i < m.len() ==> m[i]
}

pub open spec fn all_free(m: Seq<bool>) -> bool {
    forall|i: int| 0 <= i < m.len() ==> !m[i]
}

pub open spec fn interval(lo: int, hi: int) -> Set<int> {
    Set::new(|j: int| lo <= j < hi)
}

/// At most one position is the first fit.
pub proof fn lemma_first_fit_unique(
    map: Seq<bool>,
    reserved: Set<int>,
    lo: int,
    b1: int,
    b2: int,
)
    requires
        is_first_fit(map, reserved, lo, b1),
        is_first_fit(map, reserved, lo, b2),
    ensures
        b1 == b2,
{
}

/// Below a bound past all reservations a first fit always exists, and it is
/// what `first_fit` names.
pub proof fn lemma_first_fit_exists(map: Seq<bool>, reserved: Set<int>, lo: int, bound: int)
    requires
        lo <= bound,
        forall|j: int| j >= bound ==> !reserved.contains(j),
    ensures
        is_first_fit(map, reserved, lo, first_fit(map, reserved, lo)),
        lo <= first_fit(map, reserved, lo) <= bound,
    decreases bound - lo,
{
    if !conflicts(map, reserved, lo) {
        assert(is_first_fit(map, reserved, lo, lo));
        assert(exists|b: int| is_first_fit(map, reserved, lo, b));
        lemma_first_fit_unique(map, reserved, lo, lo, first_fit(map, reserved, lo));
    } else {
        let i = choose|i: int| 0 <= i < map.len() && map[i] && reserved.contains(lo + i);
        assert(lo + i < bound);
        lemma_first_fit_exists(map, reserved, lo + 1, bound);
        let f1 = first_fit(map, reserved, lo + 1);
        assert(is_first_fit(map, reserved, lo, f1));
        assert(exists|b: int| is_first_fit(map, reserved, lo, b));
        lemma_first_fit_unique(map, reserved, lo, f1, first_fit(map, reserved, lo));
    }
}

/// Every base a packing assigns is nonnegative and inside the buffer, the
/// next candidate base never runs past the size, and all reservations lie
/// inside the buffer.
pub proof fn lemma_pack_wf(maps: Seq<Seq<bool>>)
    ensures
        pack(maps).bases.len() == maps.len(),
        0 <= pack(maps).next_lo <= pack(maps).size_dw,
        forall|k: int| 0 <= k < maps.len() ==> 0 <= #[trigger] pack(maps).bases[k] <= pack(maps).size_dw,
        forall|j: int| pack(maps).reserved.contains(j) ==> 0 <= j < pack(maps).size_dw,
    decreases maps.len(),
{
    if maps.len() > 0 {
        let prev = maps.drop_last();
        lemma_pack_wf(prev);
        let p = pack(prev);
        let m = maps.last();
        lemma_first_fit_exists(m, p.reserved, p.next_lo, p.size_dw);
        let b = first_fit(m, p.reserved, p.next_lo);
        assert(forall|k: int|
            0 <= k < prev.len() ==> pack(maps).bases[k] == #[trigger] p.bases[k]);
        assert(pack(maps).bases[maps.len() - 1] == b);
        assert forall|j: int| pack(maps).reserved.contains(j) implies 0 <= j < pack(maps).size_dw by {
            if !p.reserved.contains(j) {
                assert(occupied_set(m, b).contains(j));
                let i = choose|i: int| 0 <= i < m.len() && m[i] && j == b + i;
                assert(j < b + m.len());
            }
        }
    }
}

/// A packing assigns exactly one base per map.
pub proof fn lemma_pack_len(maps: Seq<Seq<bool>>)
    ensures
        pack(maps).bases.len() == maps.len(),
    decreases maps.len(),
{
    if maps.len() > 0 {
        lemma_pack_len(maps.drop_last());
    }
}

/// Assign every object its base. Returns the dword base of each object, in
/// order, and the total buffer size in dwords: exactly the mathematical
/// packing of the maps.
pub fn stack_objects(maps: &Vec<Vec<bool>>) -> (r: (Vec<usize>, usize))
    ensures
        r.0@.len() == maps@.len(),
        forall|k: int|
            0 <= k < maps@.len() ==> r.0@[k] as int == pack(views_of(maps@)).bases[k],
        r.1 as int == pack(views_of(maps@)).size_dw,
{
    let mut reserved: Vec<bool> = Vec::new();
    let mut bases: Vec<usize> = Vec::new();
    let mut lo: usize = 0;
    let mut size_dw: usize = 0;
    let mut k: usize = 0;
    while k < maps.len()
        invariant
            k <= maps@.len(),
            bases@.len() == k,
            forall|j: int|
                0 <= j < k as int ==> bases@[j] as int == pack(views_of(maps@.take(k as int))).bases[j],
            true_set(reserved@) == pack(views_of(maps@.take(k as int))).reserved,
            lo as int == pack(views_of(maps@.take(k as int))).next_lo,
            size_dw as int == pack(views_of(maps@.take(k as int))).size_dw,
            lo <= size_dw,
            size_dw <= reserved@.len(),
            forall|j: int| size_dw as int <= j < reserved@.len() ==> !reserved@[j],
        decreases maps@.len() - k,
    {
        let m = &maps[k];
        // Grow the reservation array so every candidate slot exists.
        while reserved.len() - size_dw < m.len()
            invariant
                size_dw <= reserved@.len(),
                forall|j: int| size_dw as int <= j < reserved@.len() ==> !reserved@[j],
                true_set(reserved@) == pack(views_of(maps@.take(k as int))).reserved,
            decreases m@.len() - (reserved@.len() - size_dw as int),
        {
            reserved.push(false);
            proof {
                assert(true_set(reserved@) =~= true_set(reserved@.drop_last()));
            }
        }
        let ghost rset = true_set(reserved@);
        let rlen: usize = reserved.len();
        // Scan for the first conflict-free base at or after the previous one.
        let mut base: usize = lo;
        let mut i: usize = 0;
        while i < m.len()
            invariant
                lo <= base,
                base <= size_dw,
                i <= m@.len(),
                reserved@.len() <= usize::MAX,
                size_dw as int + m@.len() <= reserved@.len(),
                forall|j: int| size_dw as int <= j < reserved@.len() ==> !reserved@[j],
                rset == true_set(reserved@),
                forall|b: int| lo as int <= b < base as int ==> conflicts(m@, rset, b),
                forall|j: int| 0 <= j < i as int ==> !(m@[j] && rset.contains(base as int + j)),
            decreases size_dw - base, m@.len() - i,
        {
            if m[i] && reserved[base + i] {
                proof {
                    assert(rset.contains(base as int + i as int));
                    assert(((base + i) as int) < (size_dw as int));
                    assert(conflicts(m@, rset, base as int));
                }
                base = base + 1;
                i = 0;
            } else {
                i = i + 1;
            }
        }
        proof {
            assert(is_first_fit(m@, rset, lo as int, base as int));
            assert(exists|b: int| is_first_fit(m@, rset, lo as int, b));
            lemma_first_fit_unique(
                m@,
                rset,
                lo as int,
                base as int,
                first_fit(m@, rset, lo as int),
            );
        }
        // Reserve every slot this object occupies.
        let ghost res0 = reserved@;
        let mut i: usize = 0;
        while i < m.len()
            invariant
                i <= m@.len(),
                reserved@.len() <= usize::MAX,
                base as int + m@.len() <= reserved@.len(),
                reserved@.len() == res0.len(),
                forall|j: int|
                    0 <= j < reserved@.len() && !(base as int <= j < base as int + i as int)
                        ==> reserved@[j] == res0[j],
                forall|j: int|
                    base as int <= j < base as int + i as int ==> reserved@[j] == (res0[j]
                        || m@[j - base as int]),
            decreases m@.len() - i,
        {
            let ghost rpre = reserved@;
            if m[i] {
                reserved.set(base + i, true);
            }
            proof {
                assert forall|j: int|
                    base as int <= j < base as int + (i + 1) as int implies reserved@[j] == (
                res0[j] || m@[j - base as int]) by {
                    if j == base as int + i as int {
                        if m@[i as int] {
                            assert(reserved@[j]);
                        } else {
                            assert(reserved@[j] == rpre[j]);
                            assert(rpre[j] == res0[j]);
                        }
                    } else {
                        assert(reserved@[j] == rpre[j]);
                    }
                }
            }
            i = i + 1;
        }
        proof {
            assert(true_set(reserved@) =~= rset.union(occupied_set(m@, base as int)));
        }
        bases.push(base);
        lo = base;
        let ghost size0 = size_dw as int;
        let end = base + m.len();
        if end > size_dw {
            size_dw = end;
        }
        proof {
            assert forall|j: int| size_dw as int <= j < reserved@.len() implies !reserved@[j] by {
                assert(j >= size0 && j >= end as int);
                assert(reserved@[j] == res0[j]);
            }
        }
        k = k + 1;
        proof {
            let prev = views_of(maps@.take(k as int - 1));
            let cur = views_of(maps@.take(k as int));
            assert(cur.drop_last() =~= prev);
            assert(cur.last() == maps@[k as int - 1]@);
            lemma_pack_len(prev);
            assert(forall|j: int|
                0 <= j < k as int - 1 ==> pack(cur).bases[j] == pack(prev).bases[j]);
        }
    }
    proof {
        assert(views_of(maps@.take(maps@.len() as int)) =~= views_of(maps@));
        assert(maps@.take(maps@.len() as int) =~= maps@);
    }
    (bases, size_dw)
}

/// Maps with no padding pack back to back, with zero overlap: each base is
/// the sum of the sizes before it, and the buffer is exactly their sum.
pub proof fn lemma_pack_all_occupied(maps: Seq<Seq<bool>>)
    requires
        forall|k: int| 0 <= k < maps.len() ==> all_occupied(#[trigger] maps[k]),
        forall|k: int| 0 <= k < maps.len() ==> #[trigger] maps[k].len() > 0,
    ensures
        pack(maps).bases.len() == maps.len(),
        forall|k: int|
            0 <= k < maps.len() ==> pack(maps).bases[k] == sum_len(maps.take(k)),
        pack(maps).size_dw == sum_len(maps),
        pack(maps).reserved == interval(0, sum_len(maps)),
        pack(maps).next_lo == if maps.len() == 0 {
            0
        } else {
            sum_len(maps.take(maps.len() - 1))
        },
    decreases maps.len(),
{
    lemma_sum_len_nonneg(maps);
    if maps.len() == 0 {
        assert(pack(maps).reserved =~= interval(0, 0));
    } else {
        let prev = maps.drop_last();
        assert(forall|k: int| 0 <= k < prev.len() ==> all_occupied(#[trigger] prev[k]));
        assert(forall|k: int| 0 <= k < prev.len() ==> #[trigger] prev[k].len() > 0);
        lemma_pack_all_occupied(prev);
        lemma_sum_len_nonneg(prev);
        let p = pack(prev);
        let m = maps.last();
        let s = sum_len(prev);
        let lo = p.next_lo;
        assert(prev.take(prev.len() as int) =~= prev);
        assert(0 <= lo && lo <= s) by {
            if prev.len() > 0 {
                lemma_sum_len_nonneg(prev.take(prev.len() - 1));
                assert(sum_len(prev) == sum_len(prev.drop_last()) + prev.last().len());
                assert(prev.drop_last() =~= prev.take(prev.len() - 1));
            }
        }
        lemma_pack_len(prev);
        // `s` is the first fit: everything below is reserved, nothing above.
        assert(!conflicts(m, p.reserved, s));
        assert(forall|b: int| lo <= b < s ==> conflicts(m, p.reserved, b)) by {
            assert forall|b: int| lo <= b < s implies conflicts(m, p.reserved, b) by {
                assert(m[0]);
                assert(0 <= lo);
                assert(p.reserved.contains(b + 0));
            }
        }
        assert(is_first_fit(m, p.reserved, lo, s));
        assert(exists|b: int| is_first_fit(m, p.reserved, lo, b));
        lemma_first_fit_unique(m, p.reserved, lo, s, first_fit(m, p.reserved, lo));
        assert(pack(maps).reserved =~= interval(0, s + m.len())) by {
            assert forall|j: int| s <= j < s + m.len() implies pack(maps).reserved.contains(j) by {
                assert(m[j - s] && j == s + (j - s));
            }
        }
        assert(sum_len(maps) == s + m.len());
        assert(forall|k: int| 0 <= k < prev.len() ==> maps.take(k) =~= prev.take(k));
        assert(maps.take(maps.len() - 1) =~= prev);
    }
}

/// A fully padded map and a fully occupied map overlap completely: both land
/// at base zero, and the buffer is just the larger of the two, whichever
/// order they arrive in.
pub proof fn lemma_pack_free_occupied(a: Seq<bool>, b: Seq<bool>)
    requires
        (all_free(a) && all_occupied(b)) || (all_occupied(a) && all_free(b)),
    ensures
        pack(seq![a, b]).bases == seq![0int, 0int],
        pack(seq![a, b]).size_dw == if a.len() >= b.len() {
            a.len() as int
        } else {
            b.len() as int
        },
{
    let maps = seq![a, b];
    let one = maps.drop_last();
    assert(one =~= seq![a]);
    assert(one.drop_last() =~= Seq::<Seq<bool>>::empty());
    let p0 = pack(one.drop_last());
    assert(p0.reserved =~= Set::<int>::empty());
    // The first object always fits at zero: nothing is reserved yet.
    assert(!conflicts(a, p0.reserved, 0));
    assert(is_first_fit(a, p0.reserved, 0, 0));
    assert(exists|x: int| is_first_fit(a, p0.reserved, 0, x));
    lemma_first_fit_unique(a, p0.reserved, 0, 0, first_fit(a, p0.reserved, 0));
    let p1 = pack(one);
    assert(p1.next_lo == 0);
    assert(p1.size_dw == a.len());
    // Whichever of the two is padding contributes no reservations, so the
    // second object meets no conflict at zero either.
    assert(!conflicts(b, p1.reserved, 0)) by {
        if all_free(b) {
        } else {
            assert forall|i: int| 0 <= i < b.len() && b[i] implies !p1.reserved.contains(0 + i) by {
                assert(all_free(a));
            }
        }
    }
    assert(is_first_fit(b, p1.reserved, 0, 0));
    assert(exists|x: int| is_first_fit(b, p1.reserved, 0, x));
    lemma_first_fit_unique(b, p1.reserved, 0, 0, first_fit(b, p1.reserved, 0));
    assert(maps.last() == b);
    assert(pack(maps).bases =~= seq![0int, 0int]);
}

pub proof fn lemma_sum_len_nonneg(maps: Seq<Seq<bool>>)
    ensures
        sum_len(maps) >= 0,
    decreases maps.len(),
{
    if maps.len() > 0 {
        lemma_sum_len_nonneg(maps.drop_last());
    }
}

} // verus!
