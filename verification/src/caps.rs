//! The initial capability space: capability values, the init CNode as an
//! arena of slots, and the retype primitive that turns untyped memory
//! into kernel objects.
use crate::INIT_CSPACE_SIZE;
use vstd::prelude::*;

verus! {

/// One capability slot value.  `Untyped` carries a power-of-two region
/// of physical memory; the object caps (`Tcb`, `VTable`, `Ram`) are the
/// results of retyping from an untyped.
#[derive(Clone, Copy, PartialEq, Eq, Structural, Debug)]
pub enum CNodeEntry {
    Null,
    Untyped { base: u64, size_bits: u64, is_device: bool },
    CNode { base: u64, radix_bits: u64, guard_bits: u64, guard: u64 },
    Monitor,
    InterruptController,
    Tcb,
    VTable,
    Ram,
}

/// Errors of the boot path.  Boot treats every one of them as fatal;
/// they are reported rather than recovered from.
#[derive(Clone, Copy, PartialEq, Eq, Structural, Debug)]
pub enum BootError {
    /// The source slot of a retype does not hold an untyped cap.
    InvalidUntyped,
    /// The slot cursor would run past the end of the CNode.
    CNodeSlotsExhausted,
    /// A frame is already mapped at the requested virtual address.
    AlreadyMapped,
    /// The TCB has no VSpace root installed.
    VSpaceMissing,
    /// The TCB has no CSpace root installed.
    CSpaceMissing,
    /// The given cap is not a CNode cap.
    InvalidCNodeCap,
    /// The root page-table cap slot does not hold a VTable cap.
    PgdCapMissing,
    /// The ELF image is too small for the structure read from it.
    ElfTooShort,
    /// The ELF image does not start with the ELF magic.
    ElfBadMagic,
    /// The ELF image is not 64-bit (ELF32 is unsupported).
    ElfNotElf64,
    /// A LOAD segment's file range lies outside the image.
    SegmentOutOfFile,
    /// A segment's virtual address range wraps around.
    AddressOverflow,
    /// A program header of a type the loader does not handle.
    UnsupportedProgramType { ptype: u32 },
}

/// The initial CNode: a fixed-size arena of capability slots.
pub struct CNode {
    pub slots: Vec<CNodeEntry>,
}

impl View for CNode {
    type V = Seq<CNodeEntry>;

    open spec fn view(&self) -> Seq<CNodeEntry> {
        self.slots@
    }
}

impl CNode {
    /// All slots of a fresh init CNode start out null.
    pub fn new_init_cnode() -> (c: CNode)
        ensures
            c@.len() == INIT_CSPACE_SIZE,
            forall|i: int| 0 <= i < c@.len() ==> c@[i] == CNodeEntry::Null,
    {
        let mut slots: Vec<CNodeEntry> = Vec::new();
        let mut i: usize = 0;
        while i < INIT_CSPACE_SIZE
            invariant
                i == slots@.len(),
                i <= INIT_CSPACE_SIZE,
                forall|j: int| 0 <= j < i ==> slots@[j] == CNodeEntry::Null,
            decreases INIT_CSPACE_SIZE - i,
        {
            slots.push(CNodeEntry::Null);
            i = i + 1;
        }
        CNode { slots }
    }
}

/// Kernel object types that boot retypes out of untyped memory.
#[derive(Clone, Copy, PartialEq, Eq, Structural, Debug)]
pub enum ObjType {
    Tcb,
    VTable,
    Ram,
}

/// The capability written for a freshly retyped object.
pub open spec fn cap_of(ty: ObjType) -> CNodeEntry {
    match ty {
        ObjType::Tcb => CNodeEntry::Tcb,
        ObjType::VTable => CNodeEntry::VTable,
        ObjType::Ram => CNodeEntry::Ram,
    }
}

/// Retypes an object of type `ty` with backing size `pow2(bit_sz)` out
/// of the untyped cap in `untyped_slot`, writing the object cap into
/// `dest_slot`.  Fails exactly when the source slot holds no untyped.
pub fn alloc_obj(
    cnode: &mut CNode,
    untyped_slot: usize,
    bit_sz: u64,
    dest_slot: usize,
    ty: ObjType,
) -> (r: Result<(), BootError>)
    requires
        untyped_slot < old(cnode)@.len(),
        dest_slot < old(cnode)@.len(),
    ensures
        final(cnode)@.len() == old(cnode)@.len(),
        r is Ok <==> old(cnode)@[untyped_slot as int] is Untyped,
        r is Ok ==> final(cnode)@ == old(cnode)@.update(dest_slot as int, cap_of(ty)),
        r is Err ==> final(cnode)@ == old(cnode)@ && r == Err::<(), BootError>(
            BootError::InvalidUntyped,
        ),
{
    match cnode.slots[untyped_slot] {
        CNodeEntry::Untyped { .. } => {
            cnode.slots[dest_slot] = cap_of_exec(ty);
            Ok(())
        },
        _ => Err(BootError::InvalidUntyped),
    }
}

/// Executable counterpart of [`cap_of`].
pub fn cap_of_exec(ty: ObjType) -> (c: CNodeEntry)
    ensures
        c == cap_of(ty),
{
    match ty {
        ObjType::Tcb => CNodeEntry::Tcb,
        ObjType::VTable => CNodeEntry::VTable,
        ObjType::Ram => CNodeEntry::Ram,
    }
}

} // verus!
