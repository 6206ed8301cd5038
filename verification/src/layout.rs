//! Trigger-record layouts for the code generator: a record is a sequence of
//! items, each covering a run of bytes, with padding items eligible to host
//! inserted fields. `find_insert` locates the item containing a byte range
//! and produces the replacement items; an insertion always preserves the
//! record's total byte size and puts the new item exactly at the requested
//! offset.

use vstd::prelude::*;

verus! {

/// One element of a trigger-record layout, with its byte width.
#[derive(Clone, Copy, Debug, PartialEq, Eq, Structural)]
pub enum Item {
    /// Bytes nobody cares about; the only item an insertion may split.
    Space(u16),
    NextPtr,
    NoCondType,
    NoCondFlag,
    BitMask(u16),
    DestValueUnitActTypeModifierActFlagSC(u16),
    NoActType,
    NoActFlag,
    TrgFlag,
    Breakpoint,
}

pub open spec fn spec_item_size(it: Item) -> int {
    match it {
        Item::Breakpoint => 0,
        Item::Space(n) => n as int,
        Item::NoCondType => 1,
        Item::NoCondFlag => 1,
        Item::NoActType => 1,
        Item::NoActFlag => 1,
        Item::TrgFlag => 1,
        Item::NextPtr => 4,
        Item::BitMask(_) => 4,
        Item::DestValueUnitActTypeModifierActFlagSC(_) => 16,
    }
}

/// Whether the item writes a single zero byte (such items may replace each
/// other in place).
pub open spec fn spec_is_zero(it: Item) -> bool {
    it is NoCondType || it is NoCondFlag || it is NoActType || it is NoActFlag
}

pub open spec fn total_size(s: Seq<Item>) -> int
    decreases s.len(),
{
    if s.len() == 0 {
        0
    } else {
        total_size(s.drop_last()) + spec_item_size(s.last())
    }
}

pub proof fn lemma_total_size_nonneg(s: Seq<Item>)
    ensures
        total_size(s) >= 0,
    decreases s.len(),
{
    if s.len() > 0 {
        lemma_total_size_nonneg(s.drop_last());
    }
}

/// The total size distributes over concatenation.
pub proof fn lemma_total_size_concat(a: Seq<Item>, b: Seq<Item>)
    ensures
        total_size(a + b) == total_size(a) + total_size(b),
    decreases b.len(),
{
    if b.len() == 0 {
        assert(a + b =~= a);
    } else {
        lemma_total_size_concat(a, b.drop_last());
        assert((a + b).drop_last() =~= a + b.drop_last());
        assert((a + b).last() == b.last());
    }
}

pub proof fn lemma_total_size_empty()
    ensures
        total_size(Seq::<Item>::empty()) == 0,
{
}

pub proof fn lemma_total_size_push(s: Seq<Item>, x: Item)
    ensures
        total_size(s.push(x)) == total_size(s) + spec_item_size(x),
{
    assert(s.push(x).drop_last() =~= s);
    assert(s.push(x).last() == x);
}

pub proof fn lemma_total_size_singleton(x: Item)
    ensures
        total_size(seq![x]) == spec_item_size(x),
{
    assert(seq![x].drop_last() =~= Seq::<Item>::empty());
    assert(seq![x].last() == x);
    lemma_total_size_empty();
}

/// One more item extends the prefix sum by that item's size.
pub proof fn lemma_total_size_take_step(s: Seq<Item>, n: int)
    requires
        0 <= n < s.len(),
    ensures
        total_size(s.take(n + 1)) == total_size(s.take(n)) + spec_item_size(s[n]),
{
    assert(s.take(n + 1).drop_last() =~= s.take(n));
    assert(s.take(n + 1).last() == s[n]);
}

/// Prefix sums never shrink.
pub proof fn lemma_total_size_take_mono(s: Seq<Item>, a: int, b: int)
    requires
        0 <= a <= b <= s.len(),
    ensures
        total_size(s.take(a)) <= total_size(s.take(b)),
    decreases b - a,
{
    if a < b {
        lemma_total_size_take_mono(s, a, b - 1);
        lemma_total_size_take_step(s, b - 1);
    }
}

impl Item {
    pub fn size(&self) -> (r: u16)
        ensures
            r as int == spec_item_size(*self),
    {
        match self {
            Item::Breakpoint => 0,
            Item::Space(n) => *n,
            Item::NoCondType => 1,
            Item::NoCondFlag => 1,
            Item::NoActType => 1,
            Item::NoActFlag => 1,
            Item::TrgFlag => 1,
            Item::NextPtr => 4,
            Item::BitMask(_) => 4,
            Item::DestValueUnitActTypeModifierActFlagSC(_) => 16,
        }
    }

    pub fn is_zero(&self) -> (r: bool)
        ensures
            r == spec_is_zero(*self),
    {
        match self {
            Item::NoCondType => true,
            Item::NoCondFlag => true,
            Item::NoActType => true,
            Item::NoActFlag => true,
            _ => false,
        }
    }
}

/// A trigger-record layout under construction, with the action count and
/// record stride it was built for.
pub struct Layout {
    pub layout: Vec<Item>,
    pub actno: u16,
    pub distance: u16,
}

/// What a successful `find_insert` means: the replacement covers exactly the
/// bytes of the item it replaces, and it carries the new item at the
/// requested byte offset of the whole record.
pub open spec fn insert_found(
    layout: Seq<Item>,
    index: u16,
    new_item: Item,
    n: usize,
    ret: Seq<Item>,
) -> bool {
    &&& (n as int) < layout.len()
    &&& total_size(ret) == spec_item_size(layout[n as int])
    &&& exists|k: int|
        0 <= k < ret.len() && ret[k] == new_item && total_size(layout.take(n as int))
            + total_size(ret.take(k)) == index as int
}

impl Layout {
    /// Find the item that can host `new_item` at byte offset `index` and
    /// build the replacement items: a zero-writing byte may replace another
    /// in place, a zero-width item may sit at an item's edge or split a
    /// padding run, and a sized item may replace the middle of a padding
    /// run. `None` means no item can host the insertion.
    pub fn find_insert(&self, index: u16, new_item: Item) -> (r: Option<(usize, Vec<Item>)>)
        requires
            !(new_item is Space),
            !(new_item is NextPtr),
            !(new_item is NoCondType),
            !(new_item is NoCondFlag),
            total_size(self.layout@) <= u16::MAX,
            index as int + spec_item_size(new_item) <= u16::MAX,
        ensures
            r is Some ==> insert_found(
                self.layout@,
                index,
                new_item,
                r->Some_0.0,
                r->Some_0.1@,
            ),
    {
        let size = new_item.size();
        let mut pos: u16 = 0;
        let mut n: usize = 0;
        proof {
            assert(self.layout@.take(0) =~= Seq::<Item>::empty());
        }
        while n < self.layout.len()
            invariant
                n <= self.layout@.len(),
                pos as int == total_size(self.layout@.take(n as int)),
                total_size(self.layout@) <= u16::MAX,
                index as int + spec_item_size(new_item) <= u16::MAX,
                size as int == spec_item_size(new_item),
            decreases self.layout@.len() - n,
        {
            let item = self.layout[n];
            proof {
                lemma_total_size_take_step(self.layout@, n as int);
                lemma_total_size_take_mono(self.layout@, n as int + 1, self.layout@.len() as int);
                assert(self.layout@.take(self.layout@.len() as int) =~= self.layout@);
                lemma_total_size_nonneg(self.layout@.take(n as int));
            }
            let item_size = item.size();
            if new_item.is_zero() && pos == index && item.is_zero() {
                let mut ret: Vec<Item> = Vec::new();
                ret.push(new_item);
                proof {
                    assert(ret@ =~= seq![new_item]);
                    lemma_total_size_singleton(new_item);
                    lemma_total_size_empty();
                    assert(ret@.take(0) =~= Seq::<Item>::empty());
                    assert(ret@[0] == new_item && total_size(self.layout@.take(n as int))
                        + total_size(ret@.take(0)) == index as int);
                }
                return Some((n, ret));
            }
            if pos <= index && pos + item_size >= index + size {
                if size == 0 {
                    if pos + item_size == index {
                        let mut ret: Vec<Item> = Vec::new();
                        ret.push(item);
                        ret.push(new_item);
                        proof {
                            assert(ret@ =~= seq![item].push(new_item));
                            lemma_total_size_singleton(item);
                            lemma_total_size_push(seq![item], new_item);
                            assert(ret@.take(1) =~= seq![item]);
                            assert(ret@[1] == new_item && total_size(self.layout@.take(n as int))
                                + total_size(ret@.take(1)) == index as int);
                        }
                        return Some((n, ret));
                    } else if pos == index {
                        let mut ret: Vec<Item> = Vec::new();
                        ret.push(new_item);
                        ret.push(item);
                        proof {
                            assert(ret@ =~= seq![new_item].push(item));
                            lemma_total_size_singleton(new_item);
                            lemma_total_size_push(seq![new_item], item);
                            lemma_total_size_empty();
                            assert(ret@.take(0) =~= Seq::<Item>::empty());
                            assert(ret@[0] == new_item && total_size(self.layout@.take(n as int))
                                + total_size(ret@.take(0)) == index as int);
                        }
                        return Some((n, ret));
                    } else {
                        match item {
                            Item::Space(spaces) => {
                                let head = Item::Space(index - pos);
                                let mut ret: Vec<Item> = Vec::new();
                                ret.push(head);
                                ret.push(new_item);
                                let tail = Item::Space(spaces - (index - pos));
                                ret.push(tail);
                                proof {
                                    assert(ret@ =~= seq![head].push(new_item).push(tail));
                                    lemma_total_size_singleton(head);
                                    lemma_total_size_push(seq![head], new_item);
                                    lemma_total_size_push(seq![head].push(new_item), tail);
                                    assert(ret@.take(1) =~= seq![head]);
                                    assert(ret@[1] == new_item && total_size(
                                        self.layout@.take(n as int),
                                    ) + total_size(ret@.take(1)) == index as int);
                                }
                                return Some((n, ret));
                            },
                            _ => {
                                return None;
                            },
                        }
                    }
                }
                match item {
                    Item::Space(spaces) => {
                        let mut ret: Vec<Item> = Vec::new();
                        if pos < index {
                            let head = Item::Space(index - pos);
                            ret.push(head);
                            proof {
                                assert(ret@ =~= seq![head]);
                                lemma_total_size_singleton(head);
                            }
                        }
                        let ghost before_mid = ret@;
                        ret.push(new_item);
                        proof {
                            lemma_total_size_push(before_mid, new_item);
                        }
                        let ghost kmid: int = before_mid.len() as int;
                        let ghost after_mid = ret@;
                        if pos + spaces > index + size {
                            let tail = Item::Space(spaces - (index - pos + size));
                            ret.push(tail);
                            proof {
                                lemma_total_size_push(after_mid, tail);
                            }
                        }
                        proof {
                            lemma_total_size_empty();
                            assert(ret@.take(kmid) =~= before_mid);
                            assert(ret@[kmid] == new_item);
                            if pos < index {
                                assert(before_mid.take(0) =~= Seq::<Item>::empty());
                            }
                            assert(total_size(self.layout@.take(n as int)) + total_size(
                                ret@.take(kmid),
                            ) == index as int);
                            assert(total_size(ret@) == spec_item_size(item));
                        }
                        return Some((n, ret));
                    },
                    _ => {},
                }
            }
            pos = pos + item_size;
            n = n + 1;
        }
        None
    }

    /// Insert an item at a byte offset: replace the hosting item by the
    /// replacement `find_insert` built. The record's total size is kept, and
    /// the item ends up exactly at the requested offset.
    #[verifier::rlimit(60)]
    pub fn insert(&mut self, offset: u16, item: Item) -> (r: Option<()>)
        requires
            !(item is Space),
            !(item is NextPtr),
            !(item is NoCondType),
            !(item is NoCondFlag),
            total_size(old(self).layout@) <= u16::MAX,
            offset as int + spec_item_size(item) <= u16::MAX,
        ensures
            final(self).actno == old(self).actno,
            final(self).distance == old(self).distance,
            r is None ==> *final(self) == *old(self),
            r is Some ==> total_size(final(self).layout@) == total_size(old(self).layout@),
            r is Some ==> exists|k: int|
                0 <= k < final(self).layout@.len() && final(self).layout@[k] == item && total_size(
                    final(self).layout@.take(k),
                ) == offset as int,
    {
        let found = self.find_insert(offset, item);
        match found {
            None => {
                proof {
                    assert(self.actno == old(self).actno);
                    assert(self.distance == old(self).distance);
                    assert(*self == *old(self));
                }
                None
            },
            Some((n, ret)) => {
                let ghost l0 = self.layout@;
                let ghost rv = ret@;
                self.layout.remove(n);
                proof {
                    assert(self.layout@ =~= l0.take(n as int) + l0.skip(n as int + 1));
                }
                let mut j: usize = ret.len();
                while j > 0
                    invariant
                        j <= rv.len(),
                        ret@ == rv,
                        self.actno == old(self).actno,
                        self.distance == old(self).distance,
                        self.layout@ =~= l0.take(n as int) + rv.skip(j as int) + l0.skip(
                            n as int + 1,
                        ),
                        n as int <= l0.len(),
                    decreases j,
                {
                    j = j - 1;
                    self.layout.insert(n, ret[j]);
                    proof {
                        assert(self.layout@ =~= l0.take(n as int) + rv.skip(j as int) + l0.skip(
                            n as int + 1,
                        ));
                    }
                }
                proof {
                    assert(rv.skip(0) =~= rv);
                    let fin = self.layout@;
                    assert(fin =~= l0.take(n as int) + rv + l0.skip(n as int + 1));
                    lemma_total_size_concat(l0.take(n as int) + rv, l0.skip(n as int + 1));
                    lemma_total_size_concat(l0.take(n as int), rv);
                    assert(l0 =~= l0.take(n as int) + seq![l0[n as int]] + l0.skip(n as int + 1));
                    lemma_total_size_concat(
                        l0.take(n as int) + seq![l0[n as int]],
                        l0.skip(n as int + 1),
                    );
                    lemma_total_size_concat(l0.take(n as int), seq![l0[n as int]]);
                    lemma_total_size_singleton(l0[n as int]);
                    assert(total_size(fin) == total_size(l0));
                    // the new item sits at position n + k of the final layout
                    let k = choose|k: int|
                        0 <= k < rv.len() && rv[k] == item && total_size(l0.take(n as int))
                            + total_size(rv.take(k)) == offset as int;
                    assert(fin[n as int + k] == item);
                    assert(fin.take(n as int + k) =~= l0.take(n as int) + rv.take(k));
                    lemma_total_size_concat(l0.take(n as int), rv.take(k));
                    assert(total_size(fin.take(n as int + k)) == offset as int);
                }
                Some(())
            },
        }
    }

    /// Build the layout of a trigger record for `actno` actions with the
    /// given record stride: the fixed header, then every action's bit mask
    /// and field block, the terminators, the trigger flag, and the loop
    /// breakpoint, each wrapped at the stride.
    pub fn with_action_count_and_distance(actno: u16, distance: u16) -> (r: Option<Layout>)
        requires
            22 <= distance <= u16::MAX - 16,
            actno as int * 32 + 352 <= u16::MAX,
        ensures
            r is Some ==> total_size(r->Some_0.layout@) == distance as int,
            r is Some ==> r->Some_0.actno == actno && r->Some_0.distance == distance,
    {
        let mut items: Vec<Item> = Vec::new();
        items.push(Item::NextPtr);
        items.push(Item::Space(15));
        items.push(Item::NoCondType);
        items.push(Item::Space(1));
        items.push(Item::NoCondFlag);
        items.push(Item::Space(distance - 22));
        proof {
            let v = items@;
            lemma_total_size_empty();
            assert(v =~= Seq::<Item>::empty().push(Item::NextPtr).push(Item::Space(15)).push(
                Item::NoCondType,
            ).push(Item::Space(1)).push(Item::NoCondFlag).push(Item::Space((distance - 22) as u16)));
            lemma_total_size_push(Seq::<Item>::empty(), Item::NextPtr);
            lemma_total_size_push(Seq::<Item>::empty().push(Item::NextPtr), Item::Space(15));
            lemma_total_size_push(
                Seq::<Item>::empty().push(Item::NextPtr).push(Item::Space(15)),
                Item::NoCondType,
            );
            lemma_total_size_push(
                Seq::<Item>::empty().push(Item::NextPtr).push(Item::Space(15)).push(
                    Item::NoCondType,
                ),
                Item::Space(1),
            );
            lemma_total_size_push(
                Seq::<Item>::empty().push(Item::NextPtr).push(Item::Space(15)).push(
                    Item::NoCondType,
                ).push(Item::Space(1)),
                Item::NoCondFlag,
            );
            lemma_total_size_push(
                Seq::<Item>::empty().push(Item::NextPtr).push(Item::Space(15)).push(
                    Item::NoCondType,
                ).push(Item::Space(1)).push(Item::NoCondFlag),
                Item::Space((distance - 22) as u16),
            );
            assert(total_size(v) == distance as int);
        }
        let mut layout = Layout { layout: items, actno, distance };
        let mut k: u16 = 0;
        while k < actno
            invariant
                k <= actno,
                actno as int * 32 + 352 <= u16::MAX,
                22 <= distance <= u16::MAX - 16,
                total_size(layout.layout@) == distance as int,
                layout.actno == actno,
                layout.distance == distance,
            decreases actno - k,
        {
            match layout.insert((k * 32 + 324) % distance, Item::BitMask(k)) {
                Some(()) => {},
                None => {
                    return None;
                },
            }
            match layout.insert(
                (k * 32 + 340) % distance,
                Item::DestValueUnitActTypeModifierActFlagSC(k),
            ) {
                Some(()) => {},
                None => {
                    return None;
                },
            }
            k = k + 1;
        }
        if 1 <= actno && actno < 64 {
            match layout.insert((actno * 32 + 350) % distance, Item::NoActType) {
                Some(()) => {},
                None => {
                    return None;
                },
            }
            match layout.insert((actno * 32 + 352) % distance, Item::NoActFlag) {
                Some(()) => {},
                None => {
                    return None;
                },
            }
        }
        match layout.insert(2372 % distance, Item::TrgFlag) {
            Some(()) => {},
            None => {
                return None;
            },
        }
        if 2376 % distance != 0 {
            match layout.insert(2376 % distance, Item::Breakpoint) {
                Some(()) => {},
                None => {
                    return None;
                },
            }
        }
        Some(layout)
    }
}

} // verus!
