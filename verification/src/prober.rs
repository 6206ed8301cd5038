//! The occupancy prober: a dry-run sink that mirrors the write interface
//! objects use to serialize themselves, but instead of producing bytes it
//! advances a dword-aligned cursor and records, per dword, whether the dword
//! carries meaningful content (`true`, occupied) or is padding (`false`,
//! free). Sub-dword writes accumulate and flush a tag once four bytes have
//! gathered; padding space advances the cursor without ever marking
//! occupied.

use vstd::prelude::*;

verus! {

/// The prober's abstract state: the completed per-dword tags, how many bytes
/// of the current dword have been passed over, and whether any of them was
/// meaningful content.
pub struct ProbeState {
    pub map: Seq<bool>,
    pub sub_idx: int,
    pub sub_occ: bool,
}

impl ProbeState {
    /// The partial-dword counter never reaches four: a full dword flushes.
    pub open spec fn wf(self) -> bool {
        0 <= self.sub_idx <= 3
    }

    pub open spec fn initial() -> ProbeState {
        ProbeState { map: Seq::empty(), sub_idx: 0, sub_occ: false }
    }
}

/// One meaningful byte: the current dword becomes occupied, and a full dword
/// flushes an occupied tag.
pub open spec fn occupy_step(s: ProbeState) -> ProbeState {
    if s.sub_idx >= 3 {
        ProbeState { map: s.map.push(true), sub_idx: 0, sub_occ: false }
    } else {
        ProbeState { map: s.map, sub_idx: s.sub_idx + 1, sub_occ: true }
    }
}

/// `k` meaningful bytes in a row.
pub open spec fn occupy_n(s: ProbeState, k: nat) -> ProbeState
    decreases k,
{
    if k == 0 {
        s
    } else {
        occupy_n(occupy_step(s), (k - 1) as nat)
    }
}

/// `k` whole occupied dwords, appended without touching the partial dword:
/// a dword-granular write always marks exactly one dword.
pub open spec fn push_occupied_n(s: ProbeState, k: nat) -> ProbeState {
    ProbeState { map: s.map + Seq::new(k, |i: int| true), sub_idx: s.sub_idx, sub_occ: s.sub_occ }
}

/// `n` bytes of padding: the cursor advances, the partial dword flushes as
/// whatever it already was, and whole padding dwords flush as free.
pub open spec fn space_step(s: ProbeState, n: int) -> ProbeState {
    if s.sub_idx + n < 4 {
        ProbeState { map: s.map, sub_idx: s.sub_idx + n, sub_occ: s.sub_occ }
    } else {
        let extra = s.sub_idx + n - 4;
        ProbeState {
            map: s.map.push(s.sub_occ) + Seq::new((extra / 4) as nat, |i: int| false),
            sub_idx: extra % 4,
            sub_occ: false,
        }
    }
}

/// A raw byte run of length `n`: whole dwords are occupied, the remainder
/// accumulates byte by byte.
pub open spec fn bytes_step(s: ProbeState, n: int) -> ProbeState {
    occupy_n(push_occupied_n(s, (n / 4) as nat), (n % 4) as nat)
}

/// The total byte size of a mixed-width struct format.
pub open spec fn widths_total(ws: Seq<u8>) -> int
    decreases ws.len(),
{
    if ws.len() == 0 {
        0
    } else {
        widths_total(ws.drop_last()) + ws.last()
    }
}

/// One trigger record: two pointers, the condition slots, the action slots,
/// the flags dword, and the trailing partially-meaningful tail.
pub open spec fn trigger_probe_step(s: ProbeState, conditions: int, actions: int) -> ProbeState {
    let s1 = push_occupied_n(s, 2);
    let s2 = push_occupied_n(s1, (conditions * 5) as nat);
    let s3 = if conditions < 16 {
        space_step(push_occupied_n(s2, 5), 20 * (15 - conditions))
    } else {
        s2
    };
    let s4 = push_occupied_n(s3, (actions * 8) as nat);
    let s5 = if actions < 64 {
        space_step(push_occupied_n(s4, 8), 32 * (63 - actions))
    } else {
        s4
    };
    occupy_step(space_step(push_occupied_n(s5, 1), 27))
}

/// What `end_write` hands out: the completed map, with a still-partial dword
/// flushed as whatever it already was.
pub open spec fn finished_map(s: ProbeState) -> Seq<bool> {
    if s.sub_idx > 0 {
        s.map.push(s.sub_occ)
    } else {
        s.map
    }
}

/// The dry-run sink that derives an object's occupancy map.
pub struct ObjAllocator {
    occupmap: Vec<bool>,
    suboccupidx: usize,
    suboccupmap: bool,
}

impl View for ObjAllocator {
    type V = ProbeState;

    closed spec fn view(&self) -> ProbeState {
        ProbeState {
            map: self.occupmap@,
            sub_idx: self.suboccupidx as int,
            sub_occ: self.suboccupmap,
        }
    }
}

impl ObjAllocator {
    pub fn new() -> (r: ObjAllocator)
        ensures
            r@ == ProbeState::initial(),
    {
        ObjAllocator { occupmap: Vec::new(), suboccupidx: 0, suboccupmap: false }
    }

    /// Begin probing an object: forget everything.
    pub fn start_write(&mut self)
        ensures
            final(self)@ == ProbeState::initial(),
    {
        self.occupmap.clear();
        self.suboccupidx = 0;
        self.suboccupmap = false;
    }

    /// Finish probing: flush a partial dword and hand the map out.
    pub fn end_write(&mut self) -> (r: Vec<bool>)
        requires
            old(self)@.wf(),
        ensures
            r@ == finished_map(old(self)@),
            final(self)@.map == Seq::<bool>::empty(),
            final(self)@.sub_idx == 0,
            final(self)@.sub_occ == old(self)@.sub_occ,
            final(self)@.wf(),
    {
        if self.suboccupidx > 0 {
            self.occupmap.push(self.suboccupmap);
            self.suboccupidx = 0;
        }
        self.occupmap.split_off(0)
    }

    /// One meaningful byte.
    pub fn write_byte(&mut self)
        requires
            old(self)@.wf(),
        ensures
            final(self)@ == occupy_step(old(self)@),
            final(self)@.wf(),
    {
        self.suboccupmap = true;
        self.suboccupidx = self.suboccupidx + 1;
        if self.suboccupidx == 4 {
            self.occupmap.push(true);
            self.suboccupidx = 0;
            self.suboccupmap = false;
        }
    }

    /// Two meaningful bytes.
    pub fn write_word(&mut self)
        requires
            old(self)@.wf(),
        ensures
            final(self)@ == occupy_step(occupy_step(old(self)@)),
            final(self)@.wf(),
    {
        self.write_byte();
        self.write_byte();
    }

    /// A dword-granular write marks exactly one dword occupied, regardless
    /// of the partial-byte cursor.
    pub fn write_dword(&mut self)
        requires
            old(self)@.wf(),
        ensures
            final(self)@ == push_occupied_n(old(self)@, 1),
            final(self)@.wf(),
    {
        self.occupmap.push(true);
        proof {
            assert(self@.map =~= push_occupied_n(old(self)@, 1).map);
        }
    }

    /// `n` bytes of padding space; never marks anything occupied.
    pub fn write_space(&mut self, n: usize)
        requires
            old(self)@.wf(),
        ensures
            final(self)@ == space_step(old(self)@, n as int),
            final(self)@.wf(),
    {
        if n < 4 - self.suboccupidx {
            self.suboccupidx = self.suboccupidx + n;
        } else {
            let extra = n - (4 - self.suboccupidx);
            self.occupmap.push(self.suboccupmap);
            let whole = extra / 4;
            let ghost mid = self@;
            let mut j: usize = 0;
            while j < whole
                invariant
                    j <= whole,
                    self@.map == mid.map + Seq::new(j as nat, |i: int| false),
                    self@.sub_idx == mid.sub_idx,
                    self@.sub_occ == mid.sub_occ,
                decreases whole - j,
            {
                self.occupmap.push(false);
                proof {
                    assert(self@.map =~= mid.map + Seq::new((j + 1) as nat, |i: int| false));
                }
                j = j + 1;
            }
            self.suboccupidx = extra % 4;
            self.suboccupmap = false;
            proof {
                let target = space_step(old(self)@, n as int);
                assert(self@.map =~= target.map);
            }
        }
    }

    /// A raw byte run: whole dwords are occupied, the remainder accumulates.
    pub fn write_bytes(&mut self, n: usize)
        requires
            old(self)@.wf(),
        ensures
            final(self)@ == bytes_step(old(self)@, n as int),
            final(self)@.wf(),
    {
        let whole = n / 4;
        let ghost s0 = self@;
        let mut j: usize = 0;
        while j < whole
            invariant
                j <= whole,
                self@.map == s0.map + Seq::new(j as nat, |i: int| true),
                self@.sub_idx == s0.sub_idx,
                self@.sub_occ == s0.sub_occ,
            decreases whole - j,
        {
            self.occupmap.push(true);
            proof {
                assert(self@.map =~= s0.map + Seq::new((j + 1) as nat, |i: int| true));
            }
            j = j + 1;
        }
        proof {
            assert(self@ == push_occupied_n(s0, (n / 4) as nat)) by {
                assert(self@.map =~= push_occupied_n(s0, (n / 4) as nat).map);
            }
        }
        let rest = n % 4;
        let ghost s1 = self@;
        let mut k: usize = 0;
        while k < rest
            invariant
                k <= rest,
                self@ == occupy_n(s1, k as nat),
                self@.wf(),
                s1.wf(),
            decreases rest - k,
        {
            proof {
                lemma_occupy_n_unfold(s1, k as nat);
            }
            self.write_byte();
            k = k + 1;
        }
    }

    /// A mixed-width struct write: the total byte size decides the tags,
    /// exactly as a raw byte run of that size would.
    pub fn write_pack(&mut self, widths: &Vec<u8>) -> (total: usize)
        requires
            old(self)@.wf(),
            forall|i: int| 0 <= i < widths@.len() ==> widths@[i] == 1 || widths@[i] == 2 || widths@[i] == 4,
            widths@.len() * 4 <= usize::MAX,
        ensures
            total == widths_total(widths@),
            final(self)@ == bytes_step(old(self)@, widths_total(widths@)),
            final(self)@.wf(),
    {
        let mut total: usize = 0;
        let mut i: usize = 0;
        while i < widths.len()
            invariant
                i <= widths@.len(),
                total == widths_total(widths@.take(i as int)),
                total <= 4 * i,
                forall|j: int| 0 <= j < widths@.len() ==> widths@[j] == 1 || widths@[j] == 2 || widths@[j] == 4,
                widths@.len() * 4 <= usize::MAX,
            decreases widths@.len() - i,
        {
            proof {
                assert(widths@.take(i + 1).drop_last() =~= widths@.take(i as int));
            }
            total = total + widths[i] as usize;
            i = i + 1;
        }
        proof {
            assert(widths@.take(widths@.len() as int) =~= widths@);
        }
        self.write_bytes(total);
        total
    }

    /// Probe one trigger record with the given condition and action counts.
    pub fn write_trigger(&mut self, conditions: usize, actions: usize)
        requires
            old(self)@.wf(),
            conditions * 5 <= usize::MAX,
            actions * 8 <= usize::MAX,
        ensures
            final(self)@ == trigger_probe_step(old(self)@, conditions as int, actions as int),
            final(self)@.wf(),
    {
        self.push_occupied(2);
        self.push_occupied(conditions * 5);
        if conditions < 16 {
            self.push_occupied(5);
            self.write_space(20 * (15 - conditions));
        }
        self.push_occupied(actions * 8);
        if actions < 64 {
            self.push_occupied(8);
            self.write_space(32 * (63 - actions));
        }
        self.push_occupied(1);
        self.write_space(27);
        self.write_byte();
    }

    /// `k` whole occupied dwords in a row.
    pub fn push_occupied(&mut self, k: usize)
        requires
            old(self)@.wf(),
        ensures
            final(self)@ == push_occupied_n(old(self)@, k as nat),
            final(self)@.wf(),
    {
        let ghost s0 = self@;
        let mut j: usize = 0;
        while j < k
            invariant
                j <= k,
                self@.map == s0.map + Seq::new(j as nat, |i: int| true),
                self@.sub_idx == s0.sub_idx,
                self@.sub_occ == s0.sub_occ,
            decreases k - j,
        {
            self.occupmap.push(true);
            proof {
                assert(self@.map =~= s0.map + Seq::new((j + 1) as nat, |i: int| true));
            }
            j = j + 1;
        }
        proof {
            assert(self@.map =~= push_occupied_n(s0, k as nat).map);
        }
    }
}

/// Unfold one step of `occupy_n` from the back.
pub proof fn lemma_occupy_n_unfold(s: ProbeState, k: nat)
    ensures
        occupy_n(s, k + 1) == occupy_step(occupy_n(s, k)),
    decreases k,
{
    assert(occupy_n(s, k + 1) == occupy_n(occupy_step(s), k));
    if k > 0 {
        lemma_occupy_n_unfold(occupy_step(s), (k - 1) as nat);
        assert(occupy_n(s, k) == occupy_n(occupy_step(s), (k - 1) as nat));
    }
}

} // verus!
