use eudalloc::layout::{Item, Layout};

fn total(items: &[Item]) -> u32 {
    items.iter().map(|i| i.size() as u32).sum()
}

#[test]
fn item_sizes() {
    assert_eq!(Item::Breakpoint.size(), 0);
    assert_eq!(Item::Space(7).size(), 7);
    assert_eq!(Item::NoCondType.size(), 1);
    assert_eq!(Item::NoCondFlag.size(), 1);
    assert_eq!(Item::NoActType.size(), 1);
    assert_eq!(Item::NoActFlag.size(), 1);
    assert_eq!(Item::TrgFlag.size(), 1);
    assert_eq!(Item::NextPtr.size(), 4);
    assert_eq!(Item::BitMask(3).size(), 4);
    assert_eq!(Item::DestValueUnitActTypeModifierActFlagSC(0).size(), 16);
}

#[test]
fn zero_writing_items() {
    assert!(Item::NoCondType.is_zero());
    assert!(Item::NoCondFlag.is_zero());
    assert!(Item::NoActType.is_zero());
    assert!(Item::NoActFlag.is_zero());
    assert!(!Item::TrgFlag.is_zero());
    assert!(!Item::Space(1).is_zero());
    assert!(!Item::Breakpoint.is_zero());
}

#[test]
fn find_insert_splits_padding() {
    let l = Layout { layout: vec![Item::Space(10)], actno: 0, distance: 10 };
    let (n, ret) = l.find_insert(2, Item::BitMask(0)).unwrap();
    assert_eq!(n, 0);
    assert_eq!(ret, vec![Item::Space(2), Item::BitMask(0), Item::Space(4)]);
    // at the very front no leading padding is produced
    let (n2, ret2) = l.find_insert(0, Item::TrgFlag).unwrap();
    assert_eq!(n2, 0);
    assert_eq!(ret2, vec![Item::TrgFlag, Item::Space(9)]);
    // a range that no item can host
    assert!(l.find_insert(8, Item::BitMask(1)).is_none());
}

#[test]
fn find_insert_zero_width_and_zero_bytes() {
    // a zero-width item lands at an item's trailing edge
    let l = Layout { layout: vec![Item::NextPtr, Item::Space(4)], actno: 0, distance: 8 };
    let (n, ret) = l.find_insert(4, Item::Breakpoint).unwrap();
    assert_eq!(n, 0);
    assert_eq!(ret, vec![Item::NextPtr, Item::Breakpoint]);
    // a zero-writing byte replaces another zero-writing byte in place
    let l2 = Layout { layout: vec![Item::NoCondType], actno: 0, distance: 1 };
    let (n2, ret2) = l2.find_insert(0, Item::NoActType).unwrap();
    assert_eq!(n2, 0);
    assert_eq!(ret2, vec![Item::NoActType]);
}

#[test]
fn insert_preserves_total_size() {
    let mut l = Layout { layout: vec![Item::Space(20)], actno: 0, distance: 20 };
    assert_eq!(l.insert(8, Item::BitMask(1)), Some(()));
    assert_eq!(total(&l.layout), 20);
    assert_eq!(
        l.layout,
        vec![Item::Space(8), Item::BitMask(1), Item::Space(8)]
    );
    // a second insertion splits the remaining padding again
    assert_eq!(l.insert(16, Item::TrgFlag), Some(()));
    assert_eq!(total(&l.layout), 20);
    assert_eq!(
        l.layout,
        vec![
            Item::Space(8),
            Item::BitMask(1),
            Item::Space(4),
            Item::TrgFlag,
            Item::Space(3),
        ]
    );
    // a failing insertion changes nothing
    let before = l.layout.clone();
    assert_eq!(l.insert(9, Item::BitMask(2)), None);
    assert_eq!(l.layout, before);
}

#[test]
fn layout_generation() {
    let l = Layout::with_action_count_and_distance(8, 292).unwrap();
    assert_eq!(l.actno, 8);
    assert_eq!(l.distance, 292);
    assert_eq!(total(&l.layout), 292);
    // the header is kept
    assert_eq!(l.layout[0], Item::NextPtr);
    // every action's mask and field block are present
    for k in 0..8 {
        assert!(l.layout.contains(&Item::BitMask(k)));
        assert!(l.layout.contains(&Item::DestValueUnitActTypeModifierActFlagSC(k)));
    }
    assert!(l.layout.contains(&Item::NoActType));
    assert!(l.layout.contains(&Item::TrgFlag));
    // a stride too small to host an action block fails
    assert!(Layout::with_action_count_and_distance(1, 22).is_none());
}
