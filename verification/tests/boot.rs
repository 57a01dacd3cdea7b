use bootcore::caps::{BootError, CNode, CNodeEntry};
use bootcore::untyped::{MemBank, init_cspace_populate_untyped, initialize_init_cspace};
use bootcore::{
    INIT_CSPACE_SIZE, SLOT_INIT_CSPACE, SLOT_INIT_L1_PAGE_TABLE, SLOT_INIT_TCB,
    SLOT_IRQ_CONTROLLER, SLOT_MONITOR, SLOT_UNTYPED_START,
};

fn untyped_slots(cnode: &CNode, cur_free_slot: usize) -> Vec<(u64, u64)> {
    let mut out = Vec::new();
    for s in SLOT_UNTYPED_START..cur_free_slot {
        match cnode.slots[s] {
            CNodeEntry::Untyped {
                base,
                size_bits,
                is_device,
            } => {
                assert!(!is_device);
                out.push((base, size_bits));
            }
            ref other => panic!("slot {} is not untyped: {:?}", s, other),
        }
    }
    out
}

#[test]
fn single_gigabyte_bank_carves_above_kernel() {
    let mut cnode = CNode::new_init_cnode();
    let mut cur: usize = SLOT_UNTYPED_START;
    let banks = vec![MemBank {
        start: 0,
        size: 0x4000_0000,
    }];
    let r = initialize_init_cspace(&mut cnode, &mut cur, &banks, 0, 0x10_0000, 0x8_0000);
    assert!(r.is_ok());
    let blocks = untyped_slots(&cnode, cur);
    // The region above the kernel image starts at its top.
    assert_eq!(blocks[0], (0x10_0000, 20));
    // Doubling blocks while alignment allows, then halving down.
    assert_eq!(blocks[1], (0x20_0000, 21));
    assert_eq!(blocks[8], (0x1000_0000, 28));
    assert_eq!(blocks[9], (0x2000_0000, 28));
    assert_eq!(blocks[10], (0x3000_0000, 27));
    assert_eq!(blocks.last().copied(), Some((0x3FFF_FFC0, 5)));
    assert_eq!(blocks.len(), 33);
    assert_eq!(cur, SLOT_UNTYPED_START + 33);
}

#[test]
fn carving_is_a_partition() {
    let mut cnode = CNode::new_init_cnode();
    let mut cur: usize = SLOT_UNTYPED_START;
    let banks = vec![MemBank {
        start: 0,
        size: 0x4000_0000,
    }];
    initialize_init_cspace(&mut cnode, &mut cur, &banks, 0, 0x10_0000, 0).unwrap();
    let blocks = untyped_slots(&cnode, cur);
    let mut covered: u64 = 0;
    let mut prev_end: u64 = 0x10_0000;
    for &(base, bits) in &blocks {
        let size = 1u64 << bits;
        // in order, pairwise disjoint, aligned, above the threshold
        assert!(base >= prev_end);
        assert_eq!(base % size, 0);
        assert!(bits > 4);
        assert!(base + size <= 0x4000_0000);
        covered += size + (base - prev_end);
        prev_end = base + size;
    }
    covered += 0x4000_0000 - prev_end;
    // installed sizes plus dropped slivers cover the carved window
    assert_eq!(covered, 0x4000_0000 - 0x10_0000);
}

#[test]
fn carving_is_maximally_aligned() {
    let mut cnode = CNode::new_init_cnode();
    let mut cur: usize = SLOT_UNTYPED_START;
    let banks = vec![MemBank {
        start: 0,
        size: 0x4000_0000,
    }];
    initialize_init_cspace(&mut cnode, &mut cur, &banks, 0, 0x10_0000, 0).unwrap();
    let blocks = untyped_slots(&cnode, cur);
    for w in blocks.windows(2) {
        let (b1, s1) = w[0];
        let (b2, s2) = w[1];
        let adjacent = b1 + (1u64 << s1) == b2;
        // no two consecutive blocks merge into a larger aligned block
        if adjacent && s1 == s2 {
            assert_ne!(b1 % (1u64 << (s1 + 1)), 0, "mergeable pair at {:#x}", b1);
        }
    }
}

#[test]
fn tiny_bank_inside_kernel_window_installs_nothing() {
    let mut cnode = CNode::new_init_cnode();
    let mut cur: usize = SLOT_UNTYPED_START;
    let banks = vec![MemBank {
        start: 0x1000,
        size: 0x1000,
    }];
    let r = initialize_init_cspace(&mut cnode, &mut cur, &banks, 0, 0x10_0000, 0);
    // no untyped was installed, so retyping the init objects fails
    assert_eq!(r, Err(BootError::InvalidUntyped));
    assert_eq!(cur, SLOT_UNTYPED_START);
    assert_eq!(cnode.slots[SLOT_UNTYPED_START], CNodeEntry::Null);
}

#[test]
fn carver_slices_one_page_region() {
    let mut cnode = CNode::new_init_cnode();
    let mut cur: usize = SLOT_UNTYPED_START;
    init_cspace_populate_untyped(0x1000, 0x2000, &mut cnode, &mut cur, false);
    let blocks = untyped_slots(&cnode, cur);
    assert_eq!(
        blocks,
        vec![
            (0x1000, 11),
            (0x1800, 10),
            (0x1C00, 9),
            (0x1E00, 8),
            (0x1F00, 7),
            (0x1F80, 6),
            (0x1FC0, 5),
        ]
    );
}

#[test]
fn named_slots_are_populated() {
    let mut cnode = CNode::new_init_cnode();
    let mut cur: usize = SLOT_UNTYPED_START;
    let banks = vec![MemBank {
        start: 0,
        size: 0x4000_0000,
    }];
    initialize_init_cspace(&mut cnode, &mut cur, &banks, 0, 0x10_0000, 0xABC000).unwrap();
    assert_eq!(
        cnode.slots[SLOT_INIT_CSPACE],
        CNodeEntry::CNode {
            base: 0xABC000,
            radix_bits: 10,
            guard_bits: 54,
            guard: 0,
        }
    );
    assert_eq!(cnode.slots[SLOT_MONITOR], CNodeEntry::Monitor);
    assert_eq!(cnode.slots[SLOT_IRQ_CONTROLLER], CNodeEntry::InterruptController);
    assert_eq!(cnode.slots[SLOT_INIT_TCB], CNodeEntry::Tcb);
    assert_eq!(cnode.slots[SLOT_INIT_L1_PAGE_TABLE], CNodeEntry::VTable);
    assert_eq!(INIT_CSPACE_SIZE, 1024);
}

#[test]
fn untyped_count_matches_the_carve() {
    let banks = vec![MemBank {
        start: 0,
        size: 0x4000_0000,
    }];
    let n = bootcore::untyped::count_untypeds_within(&banks, 0, 0x10_0000, 1019).unwrap();
    assert_eq!(n, 33);
    // a cap below the true count reports exhaustion
    assert_eq!(
        bootcore::untyped::count_untypeds_within(&banks, 0, 0x10_0000, 32),
        None
    );
}

#[test]
fn next_power_of_two_rounds_up() {
    assert_eq!(bootcore::bits::next_power_of_two_u64(0), 1);
    assert_eq!(bootcore::bits::next_power_of_two_u64(1), 1);
    assert_eq!(bootcore::bits::next_power_of_two_u64(2), 2);
    assert_eq!(bootcore::bits::next_power_of_two_u64(0xE_8000), 0x10_0000);
    assert_eq!(bootcore::bits::next_power_of_two_u64(0x10_0000), 0x10_0000);
    assert_eq!(bootcore::bits::next_power_of_two_u64(0x10_0001), 0x20_0000);
}
