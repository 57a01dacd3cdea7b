//! The init thread's address space: a model of the four-level page
//! table as the set of installed intermediate tables plus the mapped
//! leaf frames, and the VSpace mapper that extends it one frame at a
//! time, allocating intermediate tables on demand.
use crate::caps::{BootError, CNode, CNodeEntry};
use crate::{INIT_CSPACE_SIZE, PAGE_SIZE, SLOT_UNTYPED_START};
use vstd::prelude::*;

verus! {

/// A permission triple for a user mapping.
#[derive(Clone, Copy, PartialEq, Eq, Structural, Debug)]
pub struct Permission {
    pub readable: bool,
    pub writable: bool,
    pub executable: bool,
}

impl Permission {
    pub fn new(readable: bool, writable: bool, executable: bool) -> (p: Permission)
        ensures
            p.readable == readable,
            p.writable == writable,
            p.executable == executable,
    {
        Permission { readable, writable, executable }
    }

    /// The permission encoded by an ELF program header's `p_flags`:
    /// bit 2 is read, bit 1 is write, bit 0 is execute.
    pub open spec fn from_flags_spec(flags: u32) -> Permission {
        Permission {
            readable: (flags as int / 4) % 2 == 1,
            writable: (flags as int / 2) % 2 == 1,
            executable: flags as int % 2 == 1,
        }
    }

    /// Executable counterpart of [`Permission::from_flags_spec`].
    pub fn from_flags(flags: u32) -> (p: Permission)
        ensures
            p == Self::from_flags_spec(flags),
    {
        Permission::new((flags / 4) % 2 == 1, (flags / 2) % 2 == 1, flags % 2 == 1)
    }
}

/// A leaf mapping: one 4 KiB frame at virtual page number `vpn`, its
/// permission, the CNode slot of its RAM cap, and its contents.
pub struct PageFrame {
    pub vpn: u64,
    pub perm: Permission,
    pub slot: usize,
    pub bytes: Vec<u8>,
}

/// The init thread's page-table state.  An intermediate table is
/// identified by the virtual-address prefix it translates: `puds` holds
/// the PGD-level prefixes with a PUD installed, `pds` the PUD-level
/// prefixes with a PD, `pts` the PD-level prefixes with a PT.
pub struct VSpace {
    pub puds: Vec<u64>,
    pub pds: Vec<u64>,
    pub pts: Vec<u64>,
    pub pages: Vec<PageFrame>,
}

/// Prefix translated by a PGD entry: bits 39 and up.
pub open spec fn pgd_prefix_spec(va: u64) -> u64 {
    (va as int / 0x80_0000_0000) as u64
}

/// Prefix translated by a PUD entry: bits 30 and up.
pub open spec fn pud_prefix_spec(va: u64) -> u64 {
    (va as int / 0x4000_0000) as u64
}

/// Prefix translated by a PD entry: bits 21 and up.
pub open spec fn pd_prefix_spec(va: u64) -> u64 {
    (va as int / 0x20_0000) as u64
}

pub fn pgd_prefix(va: u64) -> (r: u64)
    ensures
        r == pgd_prefix_spec(va),
{
    va / 0x80_0000_0000
}

pub fn pud_prefix(va: u64) -> (r: u64)
    ensures
        r == pud_prefix_spec(va),
{
    va / 0x4000_0000
}

pub fn pd_prefix(va: u64) -> (r: u64)
    ensures
        r == pd_prefix_spec(va),
{
    va / 0x20_0000
}

/// The table set after ensuring a table for `prefix` exists: unchanged
/// when present, extended by exactly that prefix when not.
pub open spec fn tables_after(tables: Seq<u64>, prefix: u64) -> Seq<u64> {
    if tables.contains(prefix) {
        tables
    } else {
        tables.push(prefix)
    }
}

impl VSpace {
    pub fn new() -> (vs: VSpace)
        ensures
            vs.puds@ =~= Seq::<u64>::empty(),
            vs.pds@ =~= Seq::<u64>::empty(),
            vs.pts@ =~= Seq::<u64>::empty(),
            vs.pages@ =~= Seq::<PageFrame>::empty(),
    {
        VSpace { puds: Vec::new(), pds: Vec::new(), pts: Vec::new(), pages: Vec::new() }
    }

    /// Well-formedness: no virtual page is mapped twice.  Mapping
    /// only ever adds a page that was not present, so every VSpace
    /// boot builds satisfies this.
    pub open spec fn wf(self) -> bool {
        forall|i: int, j: int|
            0 <= i < j < self.pages@.len() ==> (#[trigger] self.pages@[i]).vpn
                != (#[trigger] self.pages@[j]).vpn
    }

    /// Whether a leaf frame is mapped at virtual page number `vpn`.
    pub open spec fn has_page(self, vpn: u64) -> bool {
        exists|i: int| 0 <= i < self.pages@.len() && self.pages@[i].vpn == vpn
    }

    /// Number of fresh CNode slots that mapping `va` consumes: one per
    /// missing intermediate table, plus one for the frame itself.
    pub open spec fn alloc_count(self, va: u64) -> nat {
        (if self.puds@.contains(pgd_prefix_spec(va)) {
            0nat
        } else {
            1nat
        }) + (if self.pds@.contains(pud_prefix_spec(va)) {
            0nat
        } else {
            1nat
        }) + (if self.pts@.contains(pd_prefix_spec(va)) {
            0nat
        } else {
            1nat
        }) + 1
    }
}

/// The saved exception-return state of a thread: return PC, stack
/// pointer and processor state.
#[derive(Clone, Copy, PartialEq, Eq, Structural, Debug)]
pub struct TrapFrame {
    pub elr: u64,
    pub sp: u64,
    pub spsr: u64,
}

/// A thread control block: the thread's CSpace root cap, its VSpace,
/// and its trap frame.
pub struct Tcb {
    pub cspace: Option<CNodeEntry>,
    pub vspace: Option<VSpace>,
    pub tf: TrapFrame,
}

impl Tcb {
    pub fn new() -> (t: Tcb)
        ensures
            t.cspace is None,
            t.vspace is None,
            t.tf == (TrapFrame { elr: 0, sp: 0, spsr: 0 }),
    {
        Tcb { cspace: None, vspace: None, tf: TrapFrame { elr: 0, sp: 0, spsr: 0 } }
    }

    /// Binds a CSpace root to the TCB; the cap must be a CNode cap.
    pub fn install_cspace(&mut self, cap: &CNodeEntry) -> (r: Result<(), BootError>)
        ensures
            r is Ok <==> *cap is CNode,
            r is Ok ==> final(self).cspace == Some(*cap),
            r is Err ==> *final(self) == *old(self) && r == Err::<(), BootError>(
                BootError::InvalidCNodeCap,
            ),
            final(self).vspace == old(self).vspace,
            final(self).tf == old(self).tf,
    {
        match cap {
            CNodeEntry::CNode { .. } => {
                self.cspace = Some(*cap);
                Ok(())
            },
            _ => Err(BootError::InvalidCNodeCap),
        }
    }

    /// Binds a fresh, empty VSpace to the TCB.
    pub fn install_vspace(&mut self)
        ensures
            final(self).vspace is Some,
            final(self).vspace.unwrap().puds@ =~= Seq::<u64>::empty(),
            final(self).vspace.unwrap().pds@ =~= Seq::<u64>::empty(),
            final(self).vspace.unwrap().pts@ =~= Seq::<u64>::empty(),
            final(self).vspace.unwrap().pages@ =~= Seq::<PageFrame>::empty(),
            final(self).cspace == old(self).cspace,
            final(self).tf == old(self).tf,
    {
        self.vspace = Some(VSpace::new());
    }
}

/// Whether `v` holds `x`; a linear scan.
pub fn vec_contains_u64(v: &Vec<u64>, x: u64) -> (b: bool)
    ensures
        b == v@.contains(x),
{
    let mut i: usize = 0;
    while i < v.len()
        invariant
            i <= v@.len(),
            forall|j: int| 0 <= j < i ==> v@[j] != x,
        decreases v@.len() - i,
    {
        if v[i] == x {
            return true;
        }
        i = i + 1;
    }
    false
}

/// A page of zeroes, as freshly retyped RAM reads.
pub fn zero_page() -> (bytes: Vec<u8>)
    ensures
        bytes@.len() == PAGE_SIZE,
        forall|j: int| 0 <= j < bytes@.len() ==> bytes@[j] == 0u8,
{
    let mut bytes: Vec<u8> = Vec::new();
    let mut i: usize = 0;
    while i < 4096
        invariant
            i == bytes@.len(),
            i <= 4096,
            forall|j: int| 0 <= j < i ==> bytes@[j] == 0u8,
        decreases 4096 - i,
    {
        bytes.push(0u8);
        i = i + 1;
    }
    bytes
}

/// Ensures `vaddr` in the init thread's address space is backed by a
/// fresh zero-filled 4 KiB frame with permission `perm`, allocating the
/// missing intermediate tables on demand.  Every allocation draws from
/// the untyped in [`SLOT_UNTYPED_START`] and writes its cap into the
/// slot at the cursor, which advances once per allocation.  Returns the
/// index of the new leaf among the VSpace's pages.
pub fn map_frame(
    tcb: &mut Tcb,
    cnode: &mut CNode,
    vaddr: u64,
    perm: Permission,
    cur_free_slot: &mut usize,
) -> (r: Result<usize, BootError>)
    requires
        old(cnode)@.len() == INIT_CSPACE_SIZE,
        SLOT_UNTYPED_START <= *old(cur_free_slot) <= old(cnode)@.len(),
    ensures
        final(cnode)@.len() == old(cnode)@.len(),
        final(tcb).cspace == old(tcb).cspace,
        final(tcb).tf == old(tcb).tf,
        *old(cur_free_slot) <= *final(cur_free_slot),
        old(tcb).vspace is Some && old(tcb).vspace.unwrap().wf() && r is Ok
            ==> final(tcb).vspace.unwrap().wf(),
        r is Ok <==> {
            &&& old(tcb).vspace is Some
            &&& *old(cur_free_slot) + old(tcb).vspace.unwrap().alloc_count(vaddr) <= old(
                cnode,
            )@.len()
            &&& old(cnode)@[SLOT_UNTYPED_START as int] is Untyped
            &&& !old(tcb).vspace.unwrap().has_page(vaddr / PAGE_SIZE)
        },
        r matches Ok(idx) ==> {
            let vs0 = old(tcb).vspace.unwrap();
            let vs1 = final(tcb).vspace.unwrap();
            &&& final(tcb).vspace is Some
            &&& vs1.puds@ == tables_after(vs0.puds@, pgd_prefix_spec(vaddr))
            &&& vs1.pds@ == tables_after(vs0.pds@, pud_prefix_spec(vaddr))
            &&& vs1.pts@ == tables_after(vs0.pts@, pd_prefix_spec(vaddr))
            &&& idx == vs0.pages@.len()
            &&& vs1.pages@.len() == vs0.pages@.len() + 1
            &&& forall|i: int| 0 <= i < vs0.pages@.len() ==> vs1.pages@[i] == vs0.pages@[i]
            &&& vs1.pages@[idx as int].vpn == vaddr / PAGE_SIZE
            &&& vs1.pages@[idx as int].perm == perm
            &&& vs1.pages@[idx as int].slot == *final(cur_free_slot) - 1
            &&& vs1.pages@[idx as int].bytes@.len() == PAGE_SIZE
            &&& forall|j: int|
                0 <= j < vs1.pages@[idx as int].bytes@.len() ==> vs1.pages@[idx as int].bytes@[j]
                    == 0u8
            &&& *final(cur_free_slot) == *old(cur_free_slot) + vs0.alloc_count(vaddr)
            &&& forall|s: int|
                *old(cur_free_slot) <= s < *final(cur_free_slot) - 1 ==> final(cnode)@[s]
                    == CNodeEntry::VTable
            &&& final(cnode)@[*final(cur_free_slot) - 1] == CNodeEntry::Ram
            &&& forall|s: int|
                0 <= s < final(cnode)@.len() && !(*old(cur_free_slot) <= s
                    < *final(cur_free_slot)) ==> final(cnode)@[s] == old(cnode)@[s]
        },
        r matches Err(e) ==> {
            &&& final(cnode)@ == old(cnode)@
            &&& *final(cur_free_slot) == *old(cur_free_slot)
            &&& old(tcb).vspace == final(tcb).vspace
            &&& (e == BootError::VSpaceMissing <==> old(tcb).vspace is None)
            &&& (e == BootError::CNodeSlotsExhausted <==> old(tcb).vspace is Some && *old(
                cur_free_slot,
            ) + old(tcb).vspace.unwrap().alloc_count(vaddr) > old(cnode)@.len())
            &&& (e == BootError::InvalidUntyped <==> {
                &&& old(tcb).vspace is Some
                &&& *old(cur_free_slot) + old(tcb).vspace.unwrap().alloc_count(vaddr) <= old(
                    cnode,
                )@.len()
                &&& !(old(cnode)@[SLOT_UNTYPED_START as int] is Untyped)
            })
            &&& (e == BootError::AlreadyMapped <==> {
                &&& old(tcb).vspace is Some
                &&& *old(cur_free_slot) + old(tcb).vspace.unwrap().alloc_count(vaddr) <= old(
                    cnode,
                )@.len()
                &&& old(cnode)@[SLOT_UNTYPED_START as int] is Untyped
                &&& old(tcb).vspace.unwrap().has_page(vaddr / PAGE_SIZE)
            })
        },
{
    let vpn = vaddr / PAGE_SIZE;
    let p0 = pgd_prefix(vaddr);
    let p1 = pud_prefix(vaddr);
    let p2 = pd_prefix(vaddr);
    match &mut tcb.vspace {
        None => Err(BootError::VSpaceMissing),
        Some(vs) => {
            let have_pud = vec_contains_u64(&vs.puds, p0);
            let have_pd = vec_contains_u64(&vs.pds, p1);
            let have_pt = vec_contains_u64(&vs.pts, p2);
            let mut needed: usize = 1;
            if !have_pud {
                needed = needed + 1;
            }
            if !have_pd {
                needed = needed + 1;
            }
            if !have_pt {
                needed = needed + 1;
            }
            if cnode.slots.len() - *cur_free_slot < needed {
                return Err(BootError::CNodeSlotsExhausted);
            }
            match cnode.slots[SLOT_UNTYPED_START] {
                CNodeEntry::Untyped { .. } => {},
                _ => {
                    return Err(BootError::InvalidUntyped);
                },
            }
            let mut i: usize = 0;
            let mut mapped: bool = false;
            while i < vs.pages.len()
                invariant
                    i <= vs.pages@.len(),
                    mapped == exists|j: int| 0 <= j < i && vs.pages@[j].vpn == vpn,
                decreases vs.pages@.len() - i,
            {
                if vs.pages[i].vpn == vpn {
                    mapped = true;
                }
                i = i + 1;
            }
            if mapped {
                return Err(BootError::AlreadyMapped);
            }
            if !have_pud {
                cnode.slots[*cur_free_slot] = CNodeEntry::VTable;
                vs.puds.push(p0);
                *cur_free_slot = *cur_free_slot + 1;
            }
            if !have_pd {
                cnode.slots[*cur_free_slot] = CNodeEntry::VTable;
                vs.pds.push(p1);
                *cur_free_slot = *cur_free_slot + 1;
            }
            if !have_pt {
                cnode.slots[*cur_free_slot] = CNodeEntry::VTable;
                vs.pts.push(p2);
                *cur_free_slot = *cur_free_slot + 1;
            }
            cnode.slots[*cur_free_slot] = CNodeEntry::Ram;
            let slot = *cur_free_slot;
            *cur_free_slot = *cur_free_slot + 1;
            let bytes = zero_page();
            let idx = vs.pages.len();
            vs.pages.push(PageFrame { vpn, perm, slot, bytes });
            Ok(idx)
        },
    }
}

/// Reusing intermediate tables is idempotent: once a mapping has
/// installed the table for a translation prefix, mapping any further
/// address with the same prefix installs no new table at that level.
/// In particular, two 4 KiB pages inside one 2 MiB region share one PT.
pub proof fn lemma_mapper_reuses_tables(tables: Seq<u64>, p: u64, q: u64)
    requires
        p == q,
    ensures
        tables_after(tables_after(tables, p), q) == tables_after(tables, p),
{
    if !tables.contains(p) {
        assert(tables.push(p)[tables.len() as int] == p);
        assert(tables_after(tables, p).contains(q));
    }
}

} // verus!
