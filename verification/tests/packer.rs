use eudalloc::packer::stack_objects;

#[test]
fn all_occupied_pack_back_to_back() {
    let maps: Vec<Vec<bool>> = vec![
        vec![true, true],
        vec![true],
        vec![true, true, true],
    ];
    let (bases, size_dw) = stack_objects(&maps);
    assert_eq!(bases, vec![0, 2, 3]);
    assert_eq!(size_dw, 6);
}

#[test]
fn padding_overlaps_payload() {
    // a fully free map and a fully occupied map coincide completely
    let maps: Vec<Vec<bool>> = vec![vec![false, false, false], vec![true, true]];
    let (bases, size_dw) = stack_objects(&maps);
    assert_eq!(bases, vec![0, 0]);
    assert_eq!(size_dw, 3);
    // the same in the other order
    let maps2: Vec<Vec<bool>> = vec![vec![true, true], vec![false, false, false]];
    let (bases2, size_dw2) = stack_objects(&maps2);
    assert_eq!(bases2, vec![0, 0]);
    assert_eq!(size_dw2, 3);
}

#[test]
fn three_object_overlap_scenario() {
    // sizes 1, 3 and 2 dwords; object 2's trailing free dword hosts object
    // 3's first occupied dword, so 4 dwords suffice instead of 6
    let maps: Vec<Vec<bool>> = vec![
        vec![true],
        vec![false, true, false],
        vec![true, true],
    ];
    let (bases, size_dw) = stack_objects(&maps);
    assert_eq!(bases, vec![0, 0, 2]);
    assert_eq!(size_dw, 4);
    assert_eq!(size_dw * 4, 16);
}

#[test]
fn candidate_base_never_goes_backwards() {
    // once an object lands, the next starts scanning from that base
    let maps: Vec<Vec<bool>> = vec![
        vec![true],
        vec![true],
        vec![true],
    ];
    let (bases, size_dw) = stack_objects(&maps);
    assert_eq!(bases, vec![0, 1, 2]);
    assert_eq!(size_dw, 3);
}

#[test]
fn conflict_scan_restarts_from_the_front() {
    // the second object's occupied tail conflicts until base 2
    let maps: Vec<Vec<bool>> = vec![
        vec![true, true],
        vec![true, false, true],
    ];
    let (bases, size_dw) = stack_objects(&maps);
    // base 0: slot 0 conflicts; base 1: slot 0 conflicts (abs 1);
    // base 2: slots 2 and 4 are free
    assert_eq!(bases, vec![0, 2]);
    assert_eq!(size_dw, 5);
}

#[test]
fn empty_input_packs_to_nothing() {
    let maps: Vec<Vec<bool>> = Vec::new();
    let (bases, size_dw) = stack_objects(&maps);
    assert_eq!(bases.len(), 0);
    assert_eq!(size_dw, 0);
}
