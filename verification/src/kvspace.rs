//! The kernel VSpace builder: fills the three statically allocated
//! kernel tables (PGD, PUD, PD) with the high-half mapping — normal
//! memory up to the MMIO base, device memory from there — exactly as
//! the MMU expects them before it is switched on.
use crate::entry::{AccessPermission, MemoryAttr, Shareability, block_entry, block_entry_spec,
    table_entry, table_entry_spec};
use crate::{IO_BASE, KERNEL_BASE, KERNEL_OFFSET};
use vstd::prelude::*;

verus! {

/// Index of the PGD entry translating `va` (bits 39 and up, 9 bits).
pub open spec fn pgd_index_spec(va: u64) -> int {
    (va as int / 0x80_0000_0000) % 512
}

/// Index of the PUD entry translating `va` (bits 30 and up, 9 bits).
pub open spec fn pud_index_spec(va: u64) -> int {
    (va as int / 0x4000_0000) % 512
}

/// Index of the PD entry translating `va` (bits 21 and up, 9 bits).
pub open spec fn pd_index_spec(va: u64) -> int {
    (va as int / 0x20_0000) % 512
}

pub fn pgd_index(va: u64) -> (r: usize)
    ensures
        r == pgd_index_spec(va),
        r < 512,
{
    ((va / 0x80_0000_0000) % 512) as usize
}

pub fn pud_index(va: u64) -> (r: usize)
    ensures
        r == pud_index_spec(va),
        r < 512,
{
    ((va / 0x4000_0000) % 512) as usize
}

pub fn pd_index(va: u64) -> (r: usize)
    ensures
        r == pd_index_spec(va),
        r < 512,
{
    ((va / 0x20_0000) % 512) as usize
}

/// The three kernel page tables, each of 512 descriptors.
pub struct KernelVSpace {
    pub pgd: Vec<u64>,
    pub pud: Vec<u64>,
    pub pd: Vec<u64>,
}

/// A zeroed table of 512 entries.
fn zero_table() -> (t: Vec<u64>)
    ensures
        t@.len() == 512,
        forall|i: int| 0 <= i < 512 ==> t@[i] == 0u64,
{
    let mut t: Vec<u64> = Vec::new();
    let mut i: usize = 0;
    while i < 512
        invariant
            i == t@.len(),
            i <= 512,
            forall|j: int| 0 <= j < i ==> t@[j] == 0u64,
        decreases 512 - i,
    {
        t.push(0u64);
        i = i + 1;
    }
    t
}

/// Builds the kernel's boot address space from zeroed tables: a table
/// descriptor chain PGD -> PUD -> PD for the kernel base, 2 MiB blocks
/// of cacheable normal memory from the kernel offset up to the MMIO
/// base, device blocks from there to the end of the PD, and one 1 GiB
/// device block covering the second gigabyte of MMIO.  `pud_paddr` and
/// `pd_paddr` are the physical addresses the descriptors point at; the
/// MMU enable sequence itself is hardware work and stays with the
/// platform layer.
pub fn init_kernel_vspace(pud_paddr: u64, pd_paddr: u64) -> (vs: KernelVSpace)
    requires
        pud_paddr % 4096 == 0,
        pd_paddr % 4096 == 0,
        pud_paddr < 0x1_0000_0000_0000,
        pd_paddr < 0x1_0000_0000_0000,
    ensures
        vs.pgd@.len() == 512 && vs.pud@.len() == 512 && vs.pd@.len() == 512,
        vs.pgd@[pgd_index_spec(KERNEL_BASE)] == table_entry_spec(pud_paddr),
        forall|i: int|
            0 <= i < 512 && i != pgd_index_spec(KERNEL_BASE) ==> vs.pgd@[i] == 0u64,
        vs.pud@[pud_index_spec(KERNEL_BASE)] == table_entry_spec(pd_paddr),
        vs.pud@[pud_index_spec(KERNEL_BASE) + 1] == block_entry_spec(
            0x4000_0000,
            true,
            Shareability::InnerShareable,
            AccessPermission::KernelOnly,
            MemoryAttr::DevicenGnRnE,
        ),
        forall|i: int|
            0 <= i < 512 && i != pud_index_spec(KERNEL_BASE) && i != pud_index_spec(KERNEL_BASE)
                + 1 ==> vs.pud@[i] == 0u64,
        forall|i: int|
            pd_index_spec(KERNEL_OFFSET) <= i < pd_index_spec(IO_BASE)
                ==> #[trigger] vs.pd@[i] == block_entry_spec(
                (i * 0x20_0000) as u64,
                true,
                Shareability::InnerShareable,
                AccessPermission::KernelOnly,
                MemoryAttr::Normal,
            ),
        forall|i: int|
            pd_index_spec(IO_BASE) <= i < 512 ==> #[trigger] vs.pd@[i] == block_entry_spec(
                (i * 0x20_0000) as u64,
                true,
                Shareability::InnerShareable,
                AccessPermission::KernelOnly,
                MemoryAttr::DevicenGnRnE,
            ),
{
    let mut pgd = zero_table();
    let mut pud = zero_table();
    let mut pd = zero_table();
    let gi = pgd_index(KERNEL_BASE);
    pgd[gi] = table_entry(pud_paddr);
    let ui = pud_index(KERNEL_BASE);
    pud[ui] = table_entry(pd_paddr);
    pud[ui + 1] = block_entry(
        0x4000_0000,
        true,
        Shareability::InnerShareable,
        AccessPermission::KernelOnly,
        MemoryAttr::DevicenGnRnE,
    );
    let lo = pd_index(KERNEL_OFFSET);
    let hi = pd_index(IO_BASE);
    let mut i: usize = lo;
    while i < hi
        invariant
            lo == pd_index_spec(KERNEL_OFFSET),
            hi == pd_index_spec(IO_BASE),
            lo <= i <= hi < 512,
            pd@.len() == 512,
            forall|j: int| 0 <= j < lo ==> pd@[j] == 0u64,
            forall|j: int| i <= j < 512 ==> pd@[j] == 0u64,
            forall|j: int|
                lo <= j < i ==> #[trigger] pd@[j] == block_entry_spec(
                    (j * 0x20_0000) as u64,
                    true,
                    Shareability::InnerShareable,
                    AccessPermission::KernelOnly,
                    MemoryAttr::Normal,
                ),
        decreases hi - i,
    {
        pd[i] = block_entry(
            (i as u64) * 0x20_0000,
            true,
            Shareability::InnerShareable,
            AccessPermission::KernelOnly,
            MemoryAttr::Normal,
        );
        i = i + 1;
    }
    let mut i2: usize = hi;
    while i2 < 512
        invariant
            lo == pd_index_spec(KERNEL_OFFSET),
            hi == pd_index_spec(IO_BASE),
            lo <= hi <= i2 <= 512,
            pd@.len() == 512,
            forall|j: int| 0 <= j < lo ==> pd@[j] == 0u64,
            forall|j: int| i2 <= j < 512 ==> pd@[j] == 0u64,
            forall|j: int|
                lo <= j < hi ==> #[trigger] pd@[j] == block_entry_spec(
                    (j * 0x20_0000) as u64,
                    true,
                    Shareability::InnerShareable,
                    AccessPermission::KernelOnly,
                    MemoryAttr::Normal,
                ),
            forall|j: int|
                hi <= j < i2 ==> #[trigger] pd@[j] == block_entry_spec(
                    (j * 0x20_0000) as u64,
                    true,
                    Shareability::InnerShareable,
                    AccessPermission::KernelOnly,
                    MemoryAttr::DevicenGnRnE,
                ),
        decreases 512 - i2,
    {
        pd[i2] = block_entry(
            (i2 as u64) * 0x20_0000,
            true,
            Shareability::InnerShareable,
            AccessPermission::KernelOnly,
            MemoryAttr::DevicenGnRnE,
        );
        i2 = i2 + 1;
    }
    KernelVSpace { pgd, pud, pd }
}

} // verus!
