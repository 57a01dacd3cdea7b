//! Boot-time bootstrap logic for a capability-based AArch64 microkernel.
//!
//! The crate models the post-reset boot path: building the kernel's own
//! page tables, carving firmware-reported RAM into power-of-two untyped
//! capabilities, populating the initial capability space, mapping frames
//! into the init thread's address space, loading its ELF image, and
//! preparing the hand-off to the scheduler.  Hardware access (MMIO, the
//! MMU enable sequence, the exception return) stays outside: these
//! functions compute over plain values that a platform layer feeds in.
use vstd::prelude::*;

pub mod bits;
pub mod boot;
pub mod caps;
pub mod cstr;
pub mod elf;
pub mod entry;
pub mod kvspace;
pub mod loader;
pub mod sched;
pub mod timer;
pub mod untyped;
pub mod vspace;

verus! {

/// Size in bytes of one 4 KiB page.
pub const PAGE_SIZE: u64 = 4096;

/// Linear offset between kernel-visible virtual addresses and physical ones.
pub const KERNEL_OFFSET: u64 = 0xFFFF_0000_0000_0000;

/// Lowest virtual address of the kernel's high-half mapping.
pub const KERNEL_BASE: u64 = 0xFFFF_0000_0000_0000;

/// Lowest usable physical address of system RAM.
pub const PHYS_BASE: u64 = 0;

/// Kernel virtual address where the MMIO region begins.
pub const IO_BASE: u64 = 0xFFFF_0000_3F00_0000;

/// Number of slots in the initial CNode.
pub const INIT_CSPACE_SIZE: usize = 1024;

/// Slot of the cap describing the initial CNode itself.
pub const SLOT_INIT_CSPACE: usize = 0;

/// Slot of the monitor cap.
pub const SLOT_MONITOR: usize = 1;

/// Slot of the interrupt-controller root cap.
pub const SLOT_IRQ_CONTROLLER: usize = 2;

/// Slot of the init thread's TCB cap.
pub const SLOT_INIT_TCB: usize = 3;

/// Slot of the init thread's root page-table cap.
pub const SLOT_INIT_L1_PAGE_TABLE: usize = 4;

/// First slot used for untyped caps; everything from here on is
/// assigned through the `cur_free_slot` cursor.
pub const SLOT_UNTYPED_START: usize = 5;

/// Top of the init thread's stack in its own address space.
pub const INIT_STACK_TOP: u64 = 0x1000_0000;

/// Number of stack pages mapped below [`INIT_STACK_TOP`].
pub const INIT_STACK_PAGES: u64 = 4;

/// SPSR value for the first exception return into the init thread:
/// DAIF masked, AArch64, EL0 with SP_EL0.
pub const SPSR_EL0_MASKED: u64 = 0x3C0;

} // verus!
