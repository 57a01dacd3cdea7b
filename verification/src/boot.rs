//! The boot sequence's spine: builds the init CNode, carves the
//! untypeds, installs the init thread's CSpace, loads its program
//! image, and hands the results to the caller, who enqueues the thread
//! and performs the exception return.
use crate::caps::{BootError, CNode, CNodeEntry};
use crate::elf::{elf64_header_ok, le16, le64};
use crate::loader::{all_types_ok, image_mappable, lemma_pages_before_mono, load_init_thread,
    load_ready, loaded_state, pages_before, ph_count};
use crate::untyped::{MemBank, banks_installed, count_untypeds_within, initialize_init_cspace,
    untyped_cap};
use crate::vspace::Tcb;
use crate::{INIT_CSPACE_SIZE, INIT_STACK_TOP, SLOT_INIT_CSPACE, SLOT_INIT_L1_PAGE_TABLE,
    SLOT_INIT_TCB, SLOT_IRQ_CONTROLLER, SLOT_MONITOR, SLOT_UNTYPED_START, SPSR_EL0_MASKED};
use vstd::prelude::*;

verus! {

/// Everything the boot sequence produces: the populated init CNode,
/// the loaded init thread, and the slot cursor after all allocations.
pub struct BootOutcome {
    pub cnode: CNode,
    pub tcb: Tcb,
    pub cur_free_slot: usize,
}

/// Everything a successful boot guarantees: the carved untypeds and
/// the named caps in the init CNode, the init thread's CSpace bound,
/// its address space holding exactly the image's segments and stack,
/// and its trap frame ready for the first exception return.
pub open spec fn boot_ok_state(
    out: BootOutcome,
    banks: Seq<MemBank>,
    kernel_base: u64,
    kernel_top: u64,
    cnode_paddr: u64,
    elf: Seq<u8>,
) -> bool {
    let ins = banks_installed(banks, kernel_base, kernel_top);
    &&& out.cnode@.len() == INIT_CSPACE_SIZE
    &&& ins.len() > 0
    &&& forall|k: int|
        0 <= k < ins.len() ==> out.cnode@[SLOT_UNTYPED_START + k] == untyped_cap(ins[k], false)
    &&& out.cnode@[SLOT_INIT_CSPACE as int] == (CNodeEntry::CNode {
        base: cnode_paddr,
        radix_bits: crate::bits::align_bits(INIT_CSPACE_SIZE as u64) as u64,
        guard_bits: (64 - crate::bits::align_bits(INIT_CSPACE_SIZE as u64)) as u64,
        guard: 0,
    })
    &&& out.cnode@[SLOT_MONITOR as int] == CNodeEntry::Monitor
    &&& out.cnode@[SLOT_IRQ_CONTROLLER as int] == CNodeEntry::InterruptController
    &&& out.cnode@[SLOT_INIT_TCB as int] == CNodeEntry::Tcb
    &&& out.cnode@[SLOT_INIT_L1_PAGE_TABLE as int] == CNodeEntry::VTable
    &&& out.tcb.cspace is Some
    &&& out.tcb.vspace is Some
    &&& elf64_header_ok(elf)
    &&& all_types_ok(elf)
    &&& loaded_state(out.tcb.vspace.unwrap(), elf)
    &&& out.tcb.tf.elr as int == le64(elf, 0x18)
    &&& out.tcb.tf.sp == INIT_STACK_TOP
    &&& out.tcb.tf.spsr == SPSR_EL0_MASKED
    &&& SLOT_UNTYPED_START + ins.len() <= out.cur_free_slot <= INIT_CSPACE_SIZE
    &&& out.cur_free_slot <= SLOT_UNTYPED_START + ins.len() + 4 * pages_before(elf, ph_count(elf))
}

/// The boot is bound to succeed: the banks yield at least one untyped,
/// the image is mappable with only handled header types, and the CNode
/// has room for the untypeds and the worst case of the page mappings.
pub open spec fn boot_ready(
    banks: Seq<MemBank>,
    kernel_base: u64,
    kernel_top: u64,
    elf: Seq<u8>,
) -> bool {
    let ins = banks_installed(banks, kernel_base, kernel_top);
    &&& ins.len() > 0
    &&& image_mappable(elf)
    &&& all_types_ok(elf)
    &&& SLOT_UNTYPED_START + ins.len() + 4 * pages_before(elf, ph_count(elf)) <= INIT_CSPACE_SIZE
}

/// Runs the boot sequence over the firmware-reported banks and the
/// embedded ELF image: fresh CNode, untyped carving and named caps,
/// CSpace installation, program load.  On success the outcome is
/// exactly [`boot_ok_state`]; on a [`boot_ready`] input success is
/// guaranteed.
pub fn boot_system(
    banks: &Vec<MemBank>,
    kernel_base: u64,
    kernel_top: u64,
    cnode_paddr: u64,
    elf_file: &[u8],
) -> (r: Result<BootOutcome, BootError>)
    requires
        forall|i: int|
            0 <= i < banks@.len() ==> (#[trigger] banks@[i]).start + banks@[i].size
                <= 0x8000_0000_0000_0000,
        SLOT_UNTYPED_START + banks_installed(banks@, kernel_base, kernel_top).len()
            <= INIT_CSPACE_SIZE,
    ensures
        r matches Ok(out) ==> boot_ok_state(
            out,
            banks@,
            kernel_base,
            kernel_top,
            cnode_paddr,
            elf_file@,
        ),
        banks_installed(banks@, kernel_base, kernel_top).len() == 0 ==> r == Err::<
            BootOutcome,
            BootError,
        >(BootError::InvalidUntyped),
        r matches Err(e) ==> e != BootError::CSpaceMissing && e != BootError::PgdCapMissing && e
            != BootError::InvalidCNodeCap,
        boot_ready(banks@, kernel_base, kernel_top, elf_file@) ==> r is Ok,
        (banks_installed(banks@, kernel_base, kernel_top).len() > 0 && elf64_header_ok(elf_file@)
            && le16(elf_file@, 0x38) == 0) ==> r is Ok,
{
    let ghost ready = boot_ready(banks@, kernel_base, kernel_top, elf_file@);
    let mut cnode = CNode::new_init_cnode();
    let mut cur_free_slot: usize = SLOT_UNTYPED_START;
    match initialize_init_cspace(
        &mut cnode,
        &mut cur_free_slot,
        banks,
        kernel_base,
        kernel_top,
        cnode_paddr,
    ) {
        Ok(_) => {},
        Err(e) => {
            return Err(e);
        },
    }
    let mut tcb = Tcb::new();
    let cnode_cap = cnode.slots[SLOT_INIT_CSPACE];
    match tcb.install_cspace(&cnode_cap) {
        Ok(_) => {},
        Err(e) => {
            return Err(e);
        },
    }
    proof {
        if ready {
            lemma_pages_before_mono(elf_file@, 0, ph_count(elf_file@));
            assert(cnode@[SLOT_UNTYPED_START + 0] == untyped_cap(
                banks_installed(banks@, kernel_base, kernel_top)[0],
                false,
            ));
            assert(cnode@[SLOT_UNTYPED_START as int] is Untyped);
            assert(load_ready(tcb, cnode@, cur_free_slot as int, elf_file@));
        }
    }
    match load_init_thread(&mut tcb, &mut cnode, elf_file, &mut cur_free_slot) {
        Ok(_) => {},
        Err(e) => {
            proof {
                if ready {
                    assert(false);
                }
            }
            return Err(e);
        },
    }
    Ok(BootOutcome { cnode, tcb, cur_free_slot })
}

/// [`boot_system`] with every precondition checked at run time: the
/// banks' address ranges are validated and the untypeds they would
/// yield are counted before anything is carved, so a platform caller
/// can invoke it directly on firmware-reported values.
pub fn try_boot_system(
    banks: &Vec<MemBank>,
    kernel_base: u64,
    kernel_top: u64,
    cnode_paddr: u64,
    elf_file: &[u8],
) -> (r: Result<BootOutcome, BootError>)
    ensures
        r matches Ok(out) ==> boot_ok_state(
            out,
            banks@,
            kernel_base,
            kernel_top,
            cnode_paddr,
            elf_file@,
        ),
        r matches Err(e) ==> e != BootError::CSpaceMissing && e != BootError::PgdCapMissing && e
            != BootError::InvalidCNodeCap,
        ((forall|i: int|
            0 <= i < banks@.len() ==> (#[trigger] banks@[i]).start + banks@[i].size
                <= 0x8000_0000_0000_0000) && boot_ready(banks@, kernel_base, kernel_top, elf_file@))
            ==> r is Ok,
{
    let mut i: usize = 0;
    while i < banks.len()
        invariant
            i <= banks@.len(),
            forall|j: int|
                0 <= j < i ==> (#[trigger] banks@[j]).start + banks@[j].size
                    <= 0x8000_0000_0000_0000,
        decreases banks@.len() - i,
    {
        let bk = banks[i];
        if bk.size > 0x8000_0000_0000_0000 || bk.start > 0x8000_0000_0000_0000 - bk.size {
            return Err(BootError::AddressOverflow);
        }
        i = i + 1;
    }
    match count_untypeds_within(
        banks,
        kernel_base,
        kernel_top,
        INIT_CSPACE_SIZE - SLOT_UNTYPED_START,
    ) {
        Some(_) => {},
        None => {
            proof {
                if boot_ready(banks@, kernel_base, kernel_top, elf_file@) {
                    lemma_pages_before_mono(elf_file@, 0, ph_count(elf_file@));
                    assert(false);
                }
            }
            return Err(BootError::CNodeSlotsExhausted);
        },
    }
    boot_system(banks, kernel_base, kernel_top, cnode_paddr, elf_file)
}

} // verus!
