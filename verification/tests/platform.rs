use bootcore::cstr::strlen;
use bootcore::entry::{AccessPermission, MemoryAttr, Shareability, block_entry, table_entry};
use bootcore::kvspace::init_kernel_vspace;
use bootcore::timer::{Registers, Timer};
use bootcore::vspace::Permission;

#[test]
fn timer_counter_combines_both_halves() {
    let t = Timer::new(Registers {
        cs: 0,
        clo: 2,
        chi: 1,
        compare: [0; 4],
    });
    assert_eq!(t.read(), 0x1_0000_0002);
}

#[test]
fn timer_tick_programs_compare_register() {
    let mut t = Timer::new(Registers {
        cs: 0,
        clo: 100,
        chi: 0,
        compare: [0; 4],
    });
    t.tick_in(50);
    assert_eq!(t.registers.compare[1], 150);
    assert_eq!(t.registers.cs & 0b10, 0b10);
    assert_eq!(t.registers.compare[0], 0);
}

#[test]
fn timer_tick_wraps_the_low_counter() {
    let mut t = Timer::new(Registers {
        cs: 0b10,
        clo: 0xFFFF_FFFF,
        chi: 7,
        compare: [9; 4],
    });
    t.tick_in(2);
    assert_eq!(t.registers.compare[1], 1);
    assert_eq!(t.registers.cs, 0b10);
    assert_eq!(t.registers.clo, 0xFFFF_FFFF);
    assert_eq!(t.registers.chi, 7);
}

#[test]
fn strlen_finds_the_first_nul() {
    assert_eq!(strlen(b"abc\0xyz"), 3);
    assert_eq!(strlen(b"\0"), 0);
    assert_eq!(strlen(b"hello\0"), 5);
}

#[test]
fn permission_bits_follow_the_elf_flag_layout() {
    let p = Permission::from_flags(0b101);
    assert!(p.readable && !p.writable && p.executable);
    let q = Permission::from_flags(0b110);
    assert!(q.readable && q.writable && !q.executable);
    let n = Permission::from_flags(0);
    assert!(!n.readable && !n.writable && !n.executable);
}

#[test]
fn descriptors_encode_address_and_attributes() {
    assert_eq!(table_entry(0x1000), 0x1003);
    let normal = block_entry(
        0x20_0000,
        true,
        Shareability::InnerShareable,
        AccessPermission::KernelOnly,
        MemoryAttr::Normal,
    );
    // valid block bit, attr index 0, AP kernel-only, inner-shareable, AF
    assert_eq!(normal, 0x20_0000 + 1 + 768 + 1024);
    let device = block_entry(
        0x4000_0000,
        true,
        Shareability::InnerShareable,
        AccessPermission::KernelOnly,
        MemoryAttr::DevicenGnRnE,
    );
    assert_eq!(device, 0x4000_0000 + 1 + 4 + 768 + 1024);
}

#[test]
fn kernel_tables_map_ram_then_mmio() {
    let vs = init_kernel_vspace(0x1000, 0x2000);
    assert_eq!(vs.pgd.len(), 512);
    assert_eq!(vs.pgd[0], 0x1003);
    assert!(vs.pgd[1..].iter().all(|&e| e == 0));
    assert_eq!(vs.pud[0], 0x2003);
    assert_eq!(vs.pud[1], 0x4000_0000 + 1 + 4 + 768 + 1024);
    assert!(vs.pud[2..].iter().all(|&e| e == 0));
    // normal cacheable blocks up to the MMIO base at entry 504
    assert_eq!(vs.pd[0], 1 + 768 + 1024);
    assert_eq!(vs.pd[503], 503 * 0x20_0000 + 1 + 768 + 1024);
    // device blocks from the MMIO base to the end
    assert_eq!(vs.pd[504], 504 * 0x20_0000 + 1 + 4 + 768 + 1024);
    assert_eq!(vs.pd[511], 511 * 0x20_0000 + 1 + 4 + 768 + 1024);
}
