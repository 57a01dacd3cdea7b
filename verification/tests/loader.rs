use bootcore::caps::{BootError, CNode, CNodeEntry};
use bootcore::loader::load_init_thread;
use bootcore::sched::Scheduler;
use bootcore::untyped::MemBank;
use bootcore::vspace::{Permission, Tcb, map_frame};
use bootcore::{
    INIT_STACK_PAGES, INIT_STACK_TOP, SLOT_INIT_L1_PAGE_TABLE, SLOT_UNTYPED_START,
    SPSR_EL0_MASKED,
};

fn put_le16(b: &mut [u8], off: usize, v: u16) {
    b[off] = v as u8;
    b[off + 1] = (v >> 8) as u8;
}

fn put_le32(b: &mut [u8], off: usize, v: u32) {
    for i in 0..4 {
        b[off + i] = (v >> (8 * i)) as u8;
    }
}

fn put_le64(b: &mut [u8], off: usize, v: u64) {
    for i in 0..8 {
        b[off + i] = (v >> (8 * i)) as u8;
    }
}

fn elf_with_phs(entry: u64, phs: &[(u32, u32, u64, u64, u64, u64)], file_len: usize) -> Vec<u8> {
    let mut b = vec![0u8; file_len];
    b[0] = 0x7F;
    b[1] = 0x45;
    b[2] = 0x4C;
    b[3] = 0x46;
    b[4] = 2;
    put_le64(&mut b, 0x18, entry);
    put_le64(&mut b, 0x20, 64);
    put_le16(&mut b, 0x36, 56);
    put_le16(&mut b, 0x38, phs.len() as u16);
    for (i, &(ptype, flags, offset, vaddr, filesz, memsz)) in phs.iter().enumerate() {
        let base = 64 + 56 * i;
        put_le32(&mut b, base, ptype);
        put_le32(&mut b, base + 4, flags);
        put_le64(&mut b, base + 8, offset);
        put_le64(&mut b, base + 16, vaddr);
        put_le64(&mut b, base + 32, filesz);
        put_le64(&mut b, base + 40, memsz);
    }
    b
}

fn boot_ready() -> (Tcb, CNode, usize) {
    let mut cnode = CNode::new_init_cnode();
    cnode.slots[SLOT_UNTYPED_START] = CNodeEntry::Untyped {
        base: 0x10_0000,
        size_bits: 28,
        is_device: false,
    };
    cnode.slots[SLOT_INIT_L1_PAGE_TABLE] = CNodeEntry::VTable;
    let cnode_cap = CNodeEntry::CNode {
        base: 0,
        radix_bits: 10,
        guard_bits: 54,
        guard: 0,
    };
    let mut tcb = Tcb::new();
    tcb.install_cspace(&cnode_cap).unwrap();
    (tcb, cnode, SLOT_UNTYPED_START + 1)
}

const PT_LOAD: u32 = 1;
const PT_GNU_STACK: u32 = 0x6474_E551;
const PT_TLS: u32 = 7;

#[test]
fn load_segment_copies_and_zero_extends() {
    let (mut tcb, mut cnode, mut cur) = boot_ready();
    let mut elf = elf_with_phs(
        0x40_0000,
        &[(PT_LOAD, 0b101, 0x1000, 0x40_0000, 0x1800, 0x3000)],
        0x2800,
    );
    for i in 0x1000..0x2800usize {
        elf[i] = (i % 251) as u8;
    }
    load_init_thread(&mut tcb, &mut cnode, &elf, &mut cur).unwrap();
    let vs = tcb.vspace.as_ref().unwrap();
    assert_eq!(vs.pages.len(), 3);
    // three frames at consecutive pages of the segment base
    assert_eq!(vs.pages[0].vpn, 0x400);
    assert_eq!(vs.pages[1].vpn, 0x401);
    assert_eq!(vs.pages[2].vpn, 0x402);
    for p in &vs.pages {
        assert_eq!(
            p.perm,
            Permission {
                readable: true,
                writable: false,
                executable: true,
            }
        );
        assert_eq!(p.bytes.len(), 4096);
    }
    // first page: file bytes [0x1000, 0x2000)
    for j in 0..4096usize {
        assert_eq!(vs.pages[0].bytes[j], ((0x1000 + j) % 251) as u8);
    }
    // second page: file bytes [0x2000, 0x2800), then zeroes
    for j in 0..0x800usize {
        assert_eq!(vs.pages[1].bytes[j], ((0x2000 + j) % 251) as u8);
    }
    for j in 0x800..4096usize {
        assert_eq!(vs.pages[1].bytes[j], 0);
    }
    // third page: all zeroes
    assert!(vs.pages[2].bytes.iter().all(|&b| b == 0));
}

#[test]
fn trap_frame_is_programmed() {
    let (mut tcb, mut cnode, mut cur) = boot_ready();
    let elf = elf_with_phs(0x40_0000, &[], 64);
    load_init_thread(&mut tcb, &mut cnode, &elf, &mut cur).unwrap();
    assert_eq!(tcb.tf.elr, 0x40_0000);
    assert_eq!(tcb.tf.sp, INIT_STACK_TOP);
    assert_eq!(tcb.tf.spsr, 0x3C0);
    assert_eq!(SPSR_EL0_MASKED, 0x3C0);
}

#[test]
fn stack_pages_sit_below_stack_top() {
    let (mut tcb, mut cnode, mut cur) = boot_ready();
    let elf = elf_with_phs(0, &[(PT_GNU_STACK, 0b110, 0, 0, 0, 0)], 64 + 56);
    load_init_thread(&mut tcb, &mut cnode, &elf, &mut cur).unwrap();
    let vs = tcb.vspace.as_ref().unwrap();
    assert_eq!(INIT_STACK_PAGES, 4);
    assert_eq!(vs.pages.len(), 4);
    let expected = [0x0FFF_F000u64, 0x0FFF_E000, 0x0FFF_D000, 0x0FFF_C000];
    for (i, &va) in expected.iter().enumerate() {
        assert_eq!(vs.pages[i].vpn, va / 4096);
        assert_eq!(
            vs.pages[i].perm,
            Permission {
                readable: true,
                writable: true,
                executable: false,
            }
        );
    }
}

#[test]
fn unknown_program_type_is_fatal() {
    let (mut tcb, mut cnode, mut cur) = boot_ready();
    let elf = elf_with_phs(0, &[(PT_TLS, 0b110, 0, 0, 0, 0)], 64 + 56);
    let r = load_init_thread(&mut tcb, &mut cnode, &elf, &mut cur);
    assert_eq!(r, Err(BootError::UnsupportedProgramType { ptype: PT_TLS }));
}

#[test]
fn elf32_and_garbage_are_rejected() {
    let (mut tcb, mut cnode, mut cur) = boot_ready();
    let mut elf = elf_with_phs(0, &[], 64);
    elf[4] = 1;
    let r = load_init_thread(&mut tcb, &mut cnode, &elf, &mut cur);
    assert_eq!(r, Err(BootError::ElfNotElf64));

    let (mut tcb, mut cnode, mut cur) = boot_ready();
    let mut bad = elf_with_phs(0, &[], 64);
    bad[0] = 0x7E;
    assert_eq!(
        load_init_thread(&mut tcb, &mut cnode, &bad, &mut cur),
        Err(BootError::ElfBadMagic)
    );

    let (mut tcb, mut cnode, mut cur) = boot_ready();
    let short = vec![0x7Fu8, 0x45, 0x4C, 0x46];
    assert_eq!(
        load_init_thread(&mut tcb, &mut cnode, &short, &mut cur),
        Err(BootError::ElfTooShort)
    );
}

#[test]
fn segment_past_end_of_file_is_fatal() {
    let (mut tcb, mut cnode, mut cur) = boot_ready();
    let elf = elf_with_phs(0, &[(PT_LOAD, 0b101, 0x1000, 0x40_0000, 0x1800, 0x3000)], 0x1800);
    assert_eq!(
        load_init_thread(&mut tcb, &mut cnode, &elf, &mut cur),
        Err(BootError::SegmentOutOfFile)
    );
}

#[test]
fn mapper_reuses_tables_within_a_region() {
    let (mut tcb, mut cnode, mut cur) = boot_ready();
    tcb.install_vspace();
    let perm = Permission::new(true, true, false);
    let start = cur;
    // first mapping allocates PUD, PD, PT and the frame: four slots
    map_frame(&mut tcb, &mut cnode, 0x40_0000, perm, &mut cur).unwrap();
    assert_eq!(cur, start + 4);
    assert_eq!(cnode.slots[start], CNodeEntry::VTable);
    assert_eq!(cnode.slots[start + 1], CNodeEntry::VTable);
    assert_eq!(cnode.slots[start + 2], CNodeEntry::VTable);
    assert_eq!(cnode.slots[start + 3], CNodeEntry::Ram);
    // a second page in the same 2 MiB region reuses all three tables
    map_frame(&mut tcb, &mut cnode, 0x40_1000, perm, &mut cur).unwrap();
    assert_eq!(cur, start + 5);
    assert_eq!(cnode.slots[start + 4], CNodeEntry::Ram);
    let vs = tcb.vspace.as_ref().unwrap();
    assert_eq!(vs.pts.len(), 1);
    // remapping an already-mapped page is refused
    assert_eq!(
        map_frame(&mut tcb, &mut cnode, 0x40_1000, perm, &mut cur),
        Err(BootError::AlreadyMapped)
    );
    assert_eq!(cur, start + 5);
}

#[test]
fn handoff_restores_the_loaded_entry_point() {
    let banks = vec![MemBank {
        start: 0,
        size: 0x4000_0000,
    }];
    let mut elf = elf_with_phs(
        0x40_0000,
        &[
            (PT_LOAD, 0b101, 0x1000, 0x40_0000, 0x800, 0x1000),
            (PT_GNU_STACK, 0b110, 0, 0, 0, 0),
        ],
        0x1800,
    );
    for i in 0x1000..0x1800usize {
        elf[i] = 0xAA;
    }
    let out = bootcore::boot::boot_system(&banks, 0, 0x10_0000, 0x8_0000, &elf).unwrap();
    let mut sched = Scheduler::new();
    sched.init();
    sched.push(out.tcb);
    let tf = sched.activate().unwrap();
    assert_eq!(tf.elr, 0x40_0000);
    assert_eq!(tf.sp, INIT_STACK_TOP);
    assert_eq!(tf.spsr, 0x3C0);
}

#[test]
fn mapping_without_a_vspace_is_refused() {
    let (mut tcb, mut cnode, mut cur) = boot_ready();
    let perm = Permission::new(true, false, false);
    assert_eq!(
        map_frame(&mut tcb, &mut cnode, 0x40_0000, perm, &mut cur),
        Err(BootError::VSpaceMissing)
    );
}

#[test]
fn missing_cspace_or_pgd_cap_is_detected() {
    let mut cnode = CNode::new_init_cnode();
    let mut cur = SLOT_UNTYPED_START;
    let elf = elf_with_phs(0, &[], 64);
    let mut bare = Tcb::new();
    assert_eq!(
        load_init_thread(&mut bare, &mut cnode, &elf, &mut cur),
        Err(BootError::CSpaceMissing)
    );

    let (mut tcb, mut cnode, mut cur) = boot_ready();
    cnode.slots[SLOT_INIT_L1_PAGE_TABLE] = CNodeEntry::Null;
    assert_eq!(
        load_init_thread(&mut tcb, &mut cnode, &elf, &mut cur),
        Err(BootError::PgdCapMissing)
    );
}

#[test]
fn slot_exhaustion_is_detected() {
    let (mut tcb, mut cnode, _) = boot_ready();
    tcb.install_vspace();
    let mut cur = cnode.slots.len() - 1;
    let perm = Permission::new(true, false, false);
    assert_eq!(
        map_frame(&mut tcb, &mut cnode, 0x40_0000, perm, &mut cur),
        Err(BootError::CNodeSlotsExhausted)
    );
    assert_eq!(cur, cnode.slots.len() - 1);
}

#[test]
fn retyping_without_an_untyped_is_refused() {
    let (mut tcb, mut cnode, mut cur) = boot_ready();
    tcb.install_vspace();
    cnode.slots[SLOT_UNTYPED_START] = CNodeEntry::Null;
    let perm = Permission::new(true, false, false);
    assert_eq!(
        map_frame(&mut tcb, &mut cnode, 0x40_0000, perm, &mut cur),
        Err(BootError::InvalidUntyped)
    );
}

#[test]
fn wrapping_segment_address_is_fatal() {
    let (mut tcb, mut cnode, mut cur) = boot_ready();
    let elf = elf_with_phs(
        0,
        &[(PT_LOAD, 0b101, 0, u64::MAX - 0x100, 0, 0x1000)],
        64 + 56,
    );
    assert_eq!(
        load_init_thread(&mut tcb, &mut cnode, &elf, &mut cur),
        Err(BootError::AddressOverflow)
    );
}

#[test]
fn install_cspace_requires_a_cnode_cap() {
    let mut tcb = Tcb::new();
    assert_eq!(
        tcb.install_cspace(&CNodeEntry::Monitor),
        Err(BootError::InvalidCNodeCap)
    );
}

#[test]
fn note_headers_are_ignored() {
    let (mut tcb, mut cnode, mut cur) = boot_ready();
    let elf = elf_with_phs(0x1234, &[(4, 0b100, 0, 0, 0, 0)], 64 + 56);
    load_init_thread(&mut tcb, &mut cnode, &elf, &mut cur).unwrap();
    assert_eq!(tcb.vspace.as_ref().unwrap().pages.len(), 0);
    assert_eq!(tcb.tf.elr, 0x1234);
}

#[test]
fn note_headers_move_nothing() {
    let (mut tcb, mut cnode, mut cur) = boot_ready();
    let start = cur;
    let elf = elf_with_phs(0, &[(4, 0, 0, 0, 0, 0), (4, 0, 0, 0, 0, 0)], 64 + 2 * 56);
    load_init_thread(&mut tcb, &mut cnode, &elf, &mut cur).unwrap();
    // a NOTE-only image maps nothing and consumes no slot
    assert_eq!(tcb.vspace.as_ref().unwrap().pages.len(), 0);
    assert_eq!(cur, start);
}

#[test]
fn checked_boot_validates_its_inputs() {
    let banks = vec![MemBank {
        start: 0,
        size: 0x4000_0000,
    }];
    let elf = elf_with_phs(0x7700, &[(PT_GNU_STACK, 0b110, 0, 0, 0, 0)], 64 + 56);
    let out = bootcore::boot::try_boot_system(&banks, 0, 0x10_0000, 0x8_0000, &elf).unwrap();
    assert_eq!(out.tcb.tf.elr, 0x7700);
    assert_eq!(out.tcb.vspace.as_ref().unwrap().pages.len(), 4);

    // a bank whose range wraps is rejected before anything is carved
    let bad = vec![MemBank {
        start: u64::MAX - 0x1000,
        size: 0x2000,
    }];
    let r = bootcore::boot::try_boot_system(&bad, 0, 0x10_0000, 0x8_0000, &elf);
    assert!(matches!(r, Err(BootError::AddressOverflow)));
}
