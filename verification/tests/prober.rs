use eudalloc::prober::ObjAllocator;

#[test]
fn dword_writes_mark_one_dword_each() {
    let mut p = ObjAllocator::new();
    p.start_write();
    p.write_dword();
    p.write_dword();
    assert_eq!(p.end_write(), vec![true, true]);
}

#[test]
fn sub_dword_writes_accumulate() {
    let mut p = ObjAllocator::new();
    p.start_write();
    p.write_byte();
    p.write_byte();
    p.write_word();
    p.write_byte();
    let map = p.end_write();
    // four meaningful bytes flushed one occupied dword; the odd fifth byte
    // flushes as occupied too
    assert_eq!(map, vec![true, true]);
}

#[test]
fn space_never_marks_occupied() {
    let mut p = ObjAllocator::new();
    p.start_write();
    p.write_space(8);
    assert_eq!(p.end_write(), vec![false, false]);
    // a partially meaningful dword keeps its tag when space completes it
    p.start_write();
    p.write_byte();
    p.write_space(3);
    assert_eq!(p.end_write(), vec![true]);
    // space inside one dword only advances the cursor
    p.start_write();
    p.write_space(2);
    p.write_byte();
    p.write_byte();
    assert_eq!(p.end_write(), vec![true]);
}

#[test]
fn bytes_cover_whole_and_partial_dwords() {
    let mut p = ObjAllocator::new();
    p.start_write();
    p.write_bytes(10);
    let map = p.end_write();
    assert_eq!(map, vec![true, true, true]);
}

#[test]
fn pack_uses_the_total_byte_size() {
    let mut p = ObjAllocator::new();
    p.start_write();
    // three dwords, one word, five bytes: 19 bytes in all
    let widths: Vec<u8> = vec![4, 4, 4, 2, 1, 1, 1, 1, 2];
    let total = p.write_pack(&widths);
    assert_eq!(total, 20);
    assert_eq!(p.end_write(), vec![true, true, true, true, true]);
}

#[test]
fn trigger_probe_has_the_record_layout() {
    let mut p = ObjAllocator::new();
    p.start_write();
    p.write_trigger(1, 1);
    let map = p.end_write();
    // two pointers, 16 condition slots, 64 action slots, flags and tail
    assert_eq!(map.len(), 602);
    // the two pointers and the first condition are meaningful
    assert!(map[0] && map[1]);
    assert!(map[2]);
    // padding after the single condition is free
    assert!(!map[2 + 5 + 5]);
}

#[test]
fn probing_twice_yields_identical_maps() {
    let mut p = ObjAllocator::new();
    p.start_write();
    p.write_dword();
    p.write_space(4);
    p.write_bytes(3);
    let first = p.end_write();
    p.start_write();
    p.write_dword();
    p.write_space(4);
    p.write_bytes(3);
    let second = p.end_write();
    assert_eq!(first, second);
}
