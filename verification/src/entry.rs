//! Page-table descriptors: the 64-bit table and block entries the
//! kernel writes while building its own address space, encoded
//! arithmetically so every field is visible to the contracts.
use vstd::prelude::*;

verus! {

/// Shareability of a block mapping.
#[derive(Clone, Copy, PartialEq, Eq, Structural, Debug)]
pub enum Shareability {
    NonShareable,
    InnerShareable,
}

/// Encoding of the SH field (bits 9:8 of a block descriptor).
pub open spec fn sh_bits(sh: Shareability) -> int {
    match sh {
        Shareability::NonShareable => 0,
        Shareability::InnerShareable => 3,
    }
}

/// Access permission of a block mapping.
#[derive(Clone, Copy, PartialEq, Eq, Structural, Debug)]
pub enum AccessPermission {
    KernelOnly,
    ReadWrite,
}

/// Encoding of the AP field (bits 7:6 of a block descriptor).
pub open spec fn ap_bits(ap: AccessPermission) -> int {
    match ap {
        AccessPermission::KernelOnly => 0,
        AccessPermission::ReadWrite => 1,
    }
}

/// Memory attribute index of a block mapping.
#[derive(Clone, Copy, PartialEq, Eq, Structural, Debug)]
pub enum MemoryAttr {
    Normal,
    DevicenGnRnE,
}

/// MAIR index used for the attribute (bits 4:2 of a block descriptor).
pub open spec fn attr_bits(attr: MemoryAttr) -> int {
    match attr {
        MemoryAttr::Normal => 0,
        MemoryAttr::DevicenGnRnE => 1,
    }
}

/// A table descriptor: the next-level table's physical address with
/// the valid and table bits set.
pub open spec fn table_entry_spec(pa: u64) -> u64 {
    (pa + 3) as u64
}

/// A block descriptor: the output physical address with the valid bit,
/// the attribute index, the access permission, the shareability and
/// the access flag.
pub open spec fn block_entry_spec(
    pa: u64,
    af: bool,
    sh: Shareability,
    ap: AccessPermission,
    attr: MemoryAttr,
) -> u64 {
    (pa + 1 + 4 * attr_bits(attr) + 64 * ap_bits(ap) + 256 * sh_bits(sh) + if af {
        1024int
    } else {
        0int
    }) as u64
}

/// Builds a table descriptor pointing at the 4 KiB-aligned table at
/// `pa`.
pub fn table_entry(pa: u64) -> (r: u64)
    requires
        pa % 4096 == 0,
        pa < 0x1_0000_0000_0000,
    ensures
        r == table_entry_spec(pa),
{
    pa + 3
}

/// Builds a block descriptor mapping the 2 MiB-aligned physical region
/// at `pa`.
pub fn block_entry(
    pa: u64,
    af: bool,
    sh: Shareability,
    ap: AccessPermission,
    attr: MemoryAttr,
) -> (r: u64)
    requires
        pa % 0x20_0000 == 0,
        pa < 0x1_0000_0000_0000,
    ensures
        r == block_entry_spec(pa, af, sh, ap, attr),
{
    let attr_v: u64 = match attr {
        MemoryAttr::Normal => 0,
        MemoryAttr::DevicenGnRnE => 1,
    };
    let ap_v: u64 = match ap {
        AccessPermission::KernelOnly => 0,
        AccessPermission::ReadWrite => 1,
    };
    let sh_v: u64 = match sh {
        Shareability::NonShareable => 0,
        Shareability::InnerShareable => 3,
    };
    let af_v: u64 = if af {
        1024
    } else {
        0
    };
    pa + 1 + 4 * attr_v + 64 * ap_v + 256 * sh_v + af_v
}

} // verus!
