//! The ELF loader: materializes LOAD segments page by page through the
//! VSpace mapper, copying file bytes and zero-extending up to the
//! segment's memory size, reserves the init thread's stack, and
//! programs its exception-return frame.
use crate::caps::{BootError, CNode, CNodeEntry};
use crate::elf::{PT_GNU_STACK, PT_LOAD, PT_NOTE, ProgramHeader, elf64_header_ok, le16, le64,
    parse_elf_header, parse_program_header, ph_spec};
use crate::vspace::{Permission, Tcb, VSpace, map_frame};
use crate::{INIT_CSPACE_SIZE, INIT_STACK_PAGES, INIT_STACK_TOP, PAGE_SIZE, SLOT_INIT_L1_PAGE_TABLE,
    SLOT_UNTYPED_START, SPSR_EL0_MASKED};
use vstd::arithmetic::div_mod::{lemma_div_is_ordered, lemma_div_multiples_vanish,
    lemma_div_multiples_vanish_fancy, lemma_div_pos_is_pos, lemma_fundamental_div_mod};
use vstd::prelude::*;

verus! {

/// Number of pages a segment of `memsz` bytes occupies.
pub open spec fn num_pages(memsz: u64) -> int {
    memsz as int / 4096 + if memsz as int % 4096 == 0 {
        0int
    } else {
        1int
    }
}

/// The byte that ends up at offset `k * 4096 + j` of a LOAD segment's
/// memory image: the corresponding file byte while inside `filesz`,
/// zero beyond it.
pub open spec fn segment_byte(b: Seq<u8>, ph: ProgramHeader, k: int, j: int) -> u8 {
    if k * 4096 + j < ph.filesz {
        b[ph.offset + k * 4096 + j]
    } else {
        0u8
    }
}


/// Number of program headers the image declares.
pub open spec fn ph_count(b: Seq<u8>) -> int {
    le16(b, 0x38)
}

/// The `i`-th program header of the image's header table.
pub open spec fn ph_at(b: Seq<u8>, i: int) -> ProgramHeader {
    ph_spec(b, le64(b, 0x20) + 56 * i)
}

/// Pages a header makes the loader map: the zero-extended file image
/// for LOAD, the stack reservation for GNU_STACK, nothing otherwise.
pub open spec fn ph_pages(ph: ProgramHeader) -> int {
    if ph.ptype == PT_LOAD {
        num_pages(ph.memsz)
    } else if ph.ptype == PT_GNU_STACK {
        INIT_STACK_PAGES as int
    } else {
        0
    }
}

/// Virtual page number of page `k` of a header's mapping.
pub open spec fn ph_page_vpn(ph: ProgramHeader, k: int) -> int {
    if ph.ptype == PT_GNU_STACK {
        INIT_STACK_TOP as int / 4096 - (k + 1)
    } else {
        ph.vaddr as int / 4096 + k
    }
}

/// Pages mapped for the headers before index `i`, in header order.
pub open spec fn pages_before(b: Seq<u8>, i: int) -> int
    decreases i,
{
    if i <= 0 {
        0
    } else {
        pages_before(b, i - 1) + ph_pages(ph_at(b, i - 1))
    }
}

/// A header type the loader handles.
pub open spec fn ph_type_ok(ph: ProgramHeader) -> bool {
    ph.ptype == PT_LOAD || ph.ptype == PT_GNU_STACK || ph.ptype == PT_NOTE
}

/// Every declared header is of a handled type.
pub open spec fn all_types_ok(b: Seq<u8>) -> bool {
    forall|i: int| 0 <= i < ph_count(b) ==> ph_type_ok(#[trigger] ph_at(b, i))
}

/// No two planned pages share a virtual page number.
pub open spec fn plan_disjoint(b: Seq<u8>) -> bool {
    forall|i1: int, k1: int, i2: int, k2: int|
        #![trigger ph_page_vpn(ph_at(b, i1), k1), ph_page_vpn(ph_at(b, i2), k2)]
        0 <= i1 < ph_count(b) && 0 <= k1 < ph_pages(ph_at(b, i1)) && 0 <= i2 < ph_count(b) && 0
            <= k2 < ph_pages(ph_at(b, i2)) && (i1 != i2 || k1 != k2) ==> ph_page_vpn(
            ph_at(b, i1),
            k1,
        ) != ph_page_vpn(ph_at(b, i2), k2)
}

/// The image can be mapped whatever its header types hold: ELF64, the
/// header table inside the image, every LOAD header's file range
/// inside the image with a non-wrapping address range, and no page
/// planned twice.
pub open spec fn image_mappable(b: Seq<u8>) -> bool {
    &&& elf64_header_ok(b)
    &&& le64(b, 0x20) + 56 * ph_count(b) <= b.len()
    &&& forall|i: int|
        0 <= i < ph_count(b) && (#[trigger] ph_at(b, i)).ptype == PT_LOAD ==> ph_at(b, i).offset
            + ph_at(b, i).filesz <= b.len() && ph_at(b, i).vaddr + ph_at(b, i).memsz
            <= 0xFFFF_FFFF_FFFF_FFFF
    &&& plan_disjoint(b)
}

/// What makes the loader bound to succeed: the caps it reads are in
/// place, the image is mappable, and the CNode has room for the worst
/// case of four slots per page at the cursor.
pub open spec fn load_ready(tcb: Tcb, cnode: Seq<CNodeEntry>, cursor: int, b: Seq<u8>) -> bool {
    &&& tcb.cspace is Some
    &&& cnode[SLOT_INIT_L1_PAGE_TABLE as int] is VTable
    &&& cnode[SLOT_UNTYPED_START as int] is Untyped
    &&& SLOT_UNTYPED_START < cursor
    &&& cursor + 4 * pages_before(b, ph_count(b)) <= cnode.len()
    &&& image_mappable(b)
}

/// The address space the headers before `upto` build: one run of
/// pages per header in header order — for LOAD the zero-extended file
/// image, for GNU_STACK zeroed stack pages — each page carrying its
/// header's flags-derived permission.
pub open spec fn loaded_prefix(vs: VSpace, b: Seq<u8>, upto: int) -> bool {
    &&& vs.pages@.len() == pages_before(b, upto)
    &&& forall|i: int, k: int|
        0 <= i < upto && 0 <= k < ph_pages(ph_at(b, i)) ==> (#[trigger] vs.pages@[pages_before(
            b,
            i,
        ) + k]).vpn == ph_page_vpn(ph_at(b, i), k)
    &&& forall|i: int, k: int|
        0 <= i < upto && 0 <= k < ph_pages(ph_at(b, i)) ==> (#[trigger] vs.pages@[pages_before(
            b,
            i,
        ) + k]).perm == Permission::from_flags_spec(ph_at(b, i).flags)
    &&& forall|i: int, k: int|
        0 <= i < upto && 0 <= k < ph_pages(ph_at(b, i)) ==> (#[trigger] vs.pages@[pages_before(
            b,
            i,
        ) + k]).bytes@.len() == 4096
    &&& forall|i: int, k: int, j: int|
        0 <= i < upto && 0 <= k < ph_pages(ph_at(b, i)) && 0 <= j < 4096
            ==> #[trigger] vs.pages@[pages_before(b, i) + k].bytes@[j] == (if ph_at(b, i).ptype
            == PT_LOAD {
            segment_byte(b, ph_at(b, i), k, j)
        } else {
            0u8
        })
}

/// The address space the whole image builds.
pub open spec fn loaded_state(vs: VSpace, b: Seq<u8>) -> bool {
    loaded_prefix(vs, b, ph_count(b))
}

/// A header never maps a negative number of pages.
proof fn lemma_ph_pages_nonneg(ph: ProgramHeader)
    ensures
        ph_pages(ph) >= 0,
{
}

/// `pages_before` starts at zero and never decreases.
pub proof fn lemma_pages_before_mono(b: Seq<u8>, i1: int, i2: int)
    requires
        0 <= i1 <= i2,
    ensures
        0 <= pages_before(b, i1) <= pages_before(b, i2),
    decreases i1 + i2,
{
    if i1 > 0 {
        lemma_pages_before_mono(b, i1 - 1, i1 - 1);
        lemma_ph_pages_nonneg(ph_at(b, i1 - 1));
    }
    if i1 < i2 {
        lemma_pages_before_mono(b, i1, i2 - 1);
        lemma_ph_pages_nonneg(ph_at(b, i2 - 1));
    }
}

/// Every planned page number fits a virtual page number: stack pages
/// sit just below the stack top, and a mappable LOAD header's pages
/// stay inside the address space.
proof fn lemma_ph_page_vpn_bounds(ph: ProgramHeader, k: int)
    requires
        0 <= k < ph_pages(ph),
        ph.ptype == PT_LOAD ==> ph.vaddr + ph.memsz <= 0xFFFF_FFFF_FFFF_FFFF,
    ensures
        0 <= ph_page_vpn(ph, k) < 0x1_0000_0000_0000_0000,
{
    if ph.ptype != PT_GNU_STACK {
        lemma_div_is_ordered(ph.vaddr as int, 0xFFFF_FFFF_FFFF_FFFF, 4096);
        lemma_div_is_ordered(ph.memsz as int, 0xFFFF_FFFF_FFFF_FFFF, 4096);
        lemma_div_pos_is_pos(ph.vaddr as int, 4096);
    }
}

/// Loading is content-preserving and zero-extending: the byte a LOAD
/// segment puts at offset `off` of its memory image — page `off / 4096`,
/// byte `off % 4096` — is the file byte at `offset + off` while `off`
/// lies inside `filesz`, and zero beyond it, up to `memsz`.
pub proof fn lemma_segment_byte_at(b: Seq<u8>, ph: ProgramHeader, off: int)
    requires
        0 <= off,
    ensures
        segment_byte(b, ph, off / 4096, off % 4096) == (if off < ph.filesz {
            b[ph.offset + off]
        } else {
            0u8
        }),
{
    lemma_fundamental_div_mod(off, 4096);
    assert((off / 4096) * 4096 + off % 4096 == off) by (nonlinear_arith)
        requires
            off == 4096 * (off / 4096) + off % 4096,
    ;
}

/// Adding whole multiples of the divisor shifts the quotient.
proof fn lemma_div_add_multiple(x: int, c: int, d: int)
    requires
        d > 0,
        x >= 0,
        c >= 0,
    ensures
        (x + c * d) / d == x / d + c,
{
    lemma_fundamental_div_mod(x, d);
    lemma_div_multiples_vanish_fancy(x / d + c, x % d, d);
    assert(x + c * d == d * (x / d + c) + x % d) by (nonlinear_arith)
        requires
            x == d * (x / d) + x % d,
    ;
}

/// Maps the pages of one LOAD segment and fills them: page `k` at
/// virtual address `vaddr + k * 4096` receives the file bytes at
/// `offset + k * 4096` onward while inside `filesz`, and zeroes beyond,
/// so the segment's memory image is the file image zero-extended to
/// `memsz`.  Every page carries the permission derived from the
/// header's flags.
pub fn load_segment(
    tcb: &mut Tcb,
    cnode: &mut CNode,
    elf_file: &[u8],
    ph: ProgramHeader,
    cur_free_slot: &mut usize,
) -> (r: Result<(), BootError>)
    requires
        old(cnode)@.len() == INIT_CSPACE_SIZE,
        SLOT_UNTYPED_START <= *old(cur_free_slot) <= old(cnode)@.len(),
        old(tcb).vspace is Some,
    ensures
        final(cnode)@.len() == old(cnode)@.len(),
        final(tcb).cspace == old(tcb).cspace,
        final(tcb).tf == old(tcb).tf,
        final(tcb).vspace is Some,
        SLOT_UNTYPED_START <= *old(cur_free_slot) <= *final(cur_free_slot) <= old(cnode)@.len(),
        *final(cur_free_slot) <= *old(cur_free_slot) + 4 * num_pages(ph.memsz),
        forall|s: int|
            0 <= s < final(cnode)@.len() && !(*old(cur_free_slot) <= s < *final(cur_free_slot))
                ==> final(cnode)@[s] == old(cnode)@[s],
        forall|s: int|
            *old(cur_free_slot) <= s < *final(cur_free_slot) ==> (final(cnode)@[s]
                == CNodeEntry::VTable || final(cnode)@[s] == CNodeEntry::Ram),
        r is Ok ==> ph.offset + ph.filesz <= elf_file@.len() && ph.vaddr + ph.memsz
            <= 0xFFFF_FFFF_FFFF_FFFF,
        r is Ok ==> ({
            let vs0 = old(tcb).vspace.unwrap();
            let vs1 = final(tcb).vspace.unwrap();
            let n = num_pages(ph.memsz);
            &&& vs1.pages@.len() == vs0.pages@.len() + n
            &&& forall|i: int| 0 <= i < vs0.pages@.len() ==> vs1.pages@[i] == vs0.pages@[i]
            &&& forall|k: int|
                0 <= k < n ==> (#[trigger] vs1.pages@[vs0.pages@.len() + k]).vpn == ph.vaddr as int
                    / 4096 + k
            &&& forall|k: int|
                0 <= k < n ==> (#[trigger] vs1.pages@[vs0.pages@.len() + k]).perm
                    == Permission::from_flags_spec(ph.flags)
            &&& forall|k: int|
                0 <= k < n ==> (#[trigger] vs1.pages@[vs0.pages@.len() + k]).bytes@.len() == 4096
            &&& forall|k: int, j: int|
                0 <= k < n && 0 <= j < 4096 ==> #[trigger] vs1.pages@[vs0.pages@.len()
                    + k].bytes@[j] == segment_byte(elf_file@, ph, k, j)
        }),
        r matches Err(e) ==> {
            &&& (e == BootError::SegmentOutOfFile <==> ph.offset + ph.filesz > elf_file@.len())
            &&& (e == BootError::AddressOverflow <==> ph.offset + ph.filesz <= elf_file@.len()
                && ph.vaddr + ph.memsz > 0xFFFF_FFFF_FFFF_FFFF)
            &&& (e == BootError::SegmentOutOfFile || e == BootError::AddressOverflow || e
                == BootError::CNodeSlotsExhausted || e == BootError::InvalidUntyped || e
                == BootError::AlreadyMapped)
        },
        ({
            let vs0 = old(tcb).vspace.unwrap();
            let n = num_pages(ph.memsz);
            (ph.offset + ph.filesz <= elf_file@.len() && ph.vaddr + ph.memsz
                <= 0xFFFF_FFFF_FFFF_FFFF && SLOT_UNTYPED_START < *old(cur_free_slot) && *old(
                cur_free_slot,
            ) + 4 * n <= old(cnode)@.len() && old(
                cnode,
            )@[SLOT_UNTYPED_START as int] is Untyped && (forall|k: int|
                0 <= k < n ==> !(#[trigger] vs0.has_page((ph.vaddr as int / 4096 + k) as u64))))
                ==> r is Ok
        }),
{
    let flen: usize = elf_file.len();
    if ph.filesz > u64::MAX - ph.offset {
        return Err(BootError::SegmentOutOfFile);
    }
    if ph.offset + ph.filesz > flen as u64 {
        return Err(BootError::SegmentOutOfFile);
    }
    if ph.memsz > u64::MAX - ph.vaddr {
        return Err(BootError::AddressOverflow);
    }
    let n: u64 = ph.memsz / 4096 + if ph.memsz % 4096 == 0 {
        0
    } else {
        1
    };
    let perm = Permission::from_flags(ph.flags);
    let ghost vs0 = old(tcb).vspace.unwrap();
    let ghost len0 = vs0.pages@.len() as int;
    let ghost cur0 = *cur_free_slot;
    let ghost owed = ph.offset + ph.filesz <= elf_file@.len() && ph.vaddr + ph.memsz
        <= 0xFFFF_FFFF_FFFF_FFFF && SLOT_UNTYPED_START < cur0 && cur0 + 4 * num_pages(ph.memsz)
        <= old(cnode)@.len() && old(
        cnode,
    )@[SLOT_UNTYPED_START as int] is Untyped && (forall|k: int|
        0 <= k < num_pages(ph.memsz) ==> !(#[trigger] vs0.has_page(
        (ph.vaddr as int / 4096 + k) as u64,
    )));
    proof {
        if owed {
            assert forall|i: int| 0 <= i < len0 implies ((#[trigger] vs0.pages@[i]).vpn
                < ph.vaddr as int / 4096 || vs0.pages@[i].vpn >= ph.vaddr as int / 4096
                + num_pages(ph.memsz)) by {
                let base = ph.vaddr as int / 4096;
                let vpn = vs0.pages@[i].vpn as int;
                if base <= vpn < base + num_pages(ph.memsz) {
                    assert(vs0.has_page(vs0.pages@[i].vpn));
                    assert(!vs0.has_page(((base + (vpn - base)) as u64)));
                }
            }
        }
    }
    let mut k: u64 = 0;
    while k < n
        invariant
            n == num_pages(ph.memsz),
            0 <= k <= n,
            old(tcb).vspace is Some,
            vs0 == old(tcb).vspace.unwrap(),
            len0 == vs0.pages@.len(),
            cur0 == *old(cur_free_slot),
            flen == elf_file@.len(),
            perm == Permission::from_flags_spec(ph.flags),
            ph.offset + ph.filesz <= elf_file@.len(),
            ph.vaddr + ph.memsz <= 0xFFFF_FFFF_FFFF_FFFF,
            cnode@.len() == INIT_CSPACE_SIZE,
            old(cnode)@.len() == INIT_CSPACE_SIZE,
            tcb.vspace is Some,
            tcb.cspace == old(tcb).cspace,
            tcb.tf == old(tcb).tf,
            SLOT_UNTYPED_START <= cur0 <= *cur_free_slot <= cnode@.len(),
            forall|s: int|
                0 <= s < cnode@.len() && !(cur0 <= s < *cur_free_slot) ==> cnode@[s] == old(
                    cnode,
                )@[s],
            forall|s: int|
                cur0 <= s < *cur_free_slot ==> (cnode@[s] == CNodeEntry::VTable || cnode@[s]
                    == CNodeEntry::Ram),
            tcb.vspace.unwrap().pages@.len() == len0 + k,
            forall|i: int| 0 <= i < len0 ==> tcb.vspace.unwrap().pages@[i] == vs0.pages@[i],
            forall|kk: int|
                0 <= kk < k ==> (#[trigger] tcb.vspace.unwrap().pages@[len0 + kk]).vpn
                    == ph.vaddr as int / 4096 + kk,
            forall|kk: int|
                0 <= kk < k ==> (#[trigger] tcb.vspace.unwrap().pages@[len0 + kk]).perm
                    == Permission::from_flags_spec(ph.flags),
            forall|kk: int|
                0 <= kk < k ==> (#[trigger] tcb.vspace.unwrap().pages@[len0 + kk]).bytes@.len()
                    == 4096,
            forall|kk: int, j: int|
                0 <= kk < k && 0 <= j < 4096 ==> #[trigger] tcb.vspace.unwrap().pages@[len0
                    + kk].bytes@[j] == segment_byte(elf_file@, ph, kk, j),
            owed == (ph.offset + ph.filesz <= elf_file@.len() && ph.vaddr + ph.memsz
                <= 0xFFFF_FFFF_FFFF_FFFF && SLOT_UNTYPED_START < cur0 && cur0 + 4 * num_pages(
                ph.memsz,
            ) <= old(cnode)@.len()
                && old(cnode)@[SLOT_UNTYPED_START as int] is Untyped && (forall|kk: int|
                0 <= kk < num_pages(ph.memsz) ==> !(#[trigger] vs0.has_page(
                    (ph.vaddr as int / 4096 + kk) as u64,
                )))),
            *cur_free_slot <= cur0 + 4 * k,
            num_pages(ph.memsz) >= 0,
            owed ==> cnode@[SLOT_UNTYPED_START as int] is Untyped,
            owed ==> forall|i: int|
                0 <= i < len0 + k ==> ((#[trigger] tcb.vspace.unwrap().pages@[i]).vpn
                    < ph.vaddr as int / 4096 + k || tcb.vspace.unwrap().pages@[i].vpn
                    >= ph.vaddr as int / 4096 + n),
        decreases n - k,
    {
        proof {
            lemma_fundamental_div_mod(ph.memsz as int, 4096);
            assert(k * 4096 < ph.memsz) by (nonlinear_arith)
                requires
                    0 <= k < n,
                    n == num_pages(ph.memsz),
                    ph.memsz == 4096 * (ph.memsz as int / 4096) + ph.memsz as int % 4096,
                    0 <= ph.memsz as int % 4096 < 4096,
            ;
        }
        let va = ph.vaddr + k * 4096;
        proof {
            lemma_div_add_multiple(ph.vaddr as int, k as int, 4096);
            assert(va as int / 4096 == ph.vaddr as int / 4096 + k);
        }
        let idx = match map_frame(tcb, cnode, va, perm, cur_free_slot) {
            Ok(idx) => idx,
            Err(e) => {
                proof {
                    if owed {
                        let vsc = tcb.vspace.unwrap();
                        assert(vsc.alloc_count(va) <= 4);
                        assert(*cur_free_slot + vsc.alloc_count(va) <= cnode@.len());
                        assert(forall|i: int|
                            0 <= i < vsc.pages@.len() ==> (#[trigger] vsc.pages@[i]).vpn != va
                                / PAGE_SIZE);
                        assert(!vsc.has_page(va / PAGE_SIZE));
                        assert(false);
                    }
                    assert(e != BootError::SegmentOutOfFile && e != BootError::AddressOverflow);
                }
                return Err(e);
            },
        };
        let copy_len: u64 = if ph.filesz > k * 4096 {
            let rem = ph.filesz - k * 4096;
            if rem >= 4096 {
                4096
            } else {
                rem
            }
        } else {
            0
        };
        match &mut tcb.vspace {
            Some(vs) => {
                let mut pf = match vs.pages.pop() {
                    Some(pf) => pf,
                    None => {
                        proof {
                            assert(false);
                        }
                        return Err(BootError::VSpaceMissing);
                    },
                };
                proof {
                    assert(pf.perm == perm);
                }
                let mut j: u64 = 0;
                while j < copy_len
                    invariant
                        0 <= j <= copy_len,
                        copy_len <= 4096,
                        copy_len > 0 ==> k * 4096 + copy_len <= ph.filesz,
                        copy_len < 4096 ==> k * 4096 + copy_len >= ph.filesz,
                        ph.offset + ph.filesz <= elf_file@.len(),
                        flen == elf_file@.len(),
                        pf.bytes@.len() == 4096,
                        pf.vpn == ph.vaddr as int / 4096 + k,
                        pf.perm == Permission::from_flags_spec(ph.flags),
                        forall|jj: int|
                            0 <= jj < j ==> pf.bytes@[jj] == segment_byte(
                                elf_file@,
                                ph,
                                k as int,
                                jj,
                            ),
                        forall|jj: int| j <= jj < 4096 ==> pf.bytes@[jj] == 0u8,
                    decreases copy_len - j,
                {
                    let src = (ph.offset + k * 4096 + j) as usize;
                    pf.bytes[j as usize] = elf_file[src];
                    j = j + 1;
                }
                proof {
                    assert forall|jj: int| 0 <= jj < 4096 implies pf.bytes@[jj] == segment_byte(
                        elf_file@,
                        ph,
                        k as int,
                        jj,
                    ) by {
                        if jj >= copy_len {
                            assert(k * 4096 + jj >= ph.filesz);
                        }
                    }
                }
                vs.pages.push(pf);
            },
            None => {
                proof {
                    assert(false);
                }
            },
        }
        k = k + 1;
    }
    Ok(())
}

/// Reserves the init thread's stack: maps [`INIT_STACK_PAGES`] fresh
/// frames at the page-aligned addresses immediately below
/// [`INIT_STACK_TOP`], in descending order, all with permission `perm`.
/// No content is copied.
pub fn map_stack(
    tcb: &mut Tcb,
    cnode: &mut CNode,
    perm: Permission,
    cur_free_slot: &mut usize,
) -> (r: Result<(), BootError>)
    requires
        old(cnode)@.len() == INIT_CSPACE_SIZE,
        SLOT_UNTYPED_START <= *old(cur_free_slot) <= old(cnode)@.len(),
        old(tcb).vspace is Some,
    ensures
        final(cnode)@.len() == old(cnode)@.len(),
        final(tcb).cspace == old(tcb).cspace,
        final(tcb).tf == old(tcb).tf,
        final(tcb).vspace is Some,
        SLOT_UNTYPED_START <= *old(cur_free_slot) <= *final(cur_free_slot) <= old(cnode)@.len(),
        *final(cur_free_slot) <= *old(cur_free_slot) + 4 * INIT_STACK_PAGES,
        forall|s: int|
            0 <= s < final(cnode)@.len() && !(*old(cur_free_slot) <= s < *final(cur_free_slot))
                ==> final(cnode)@[s] == old(cnode)@[s],
        forall|s: int|
            *old(cur_free_slot) <= s < *final(cur_free_slot) ==> (final(cnode)@[s]
                == CNodeEntry::VTable || final(cnode)@[s] == CNodeEntry::Ram),
        r is Ok ==> ({
            let vs0 = old(tcb).vspace.unwrap();
            let vs1 = final(tcb).vspace.unwrap();
            &&& vs1.pages@.len() == vs0.pages@.len() + INIT_STACK_PAGES
            &&& forall|i: int| 0 <= i < vs0.pages@.len() ==> vs1.pages@[i] == vs0.pages@[i]
            &&& forall|i: int|
                0 <= i < INIT_STACK_PAGES ==> (#[trigger] vs1.pages@[vs0.pages@.len() + i]).vpn
                    == INIT_STACK_TOP as int / 4096 - (i + 1)
            &&& forall|i: int|
                0 <= i < INIT_STACK_PAGES ==> (#[trigger] vs1.pages@[vs0.pages@.len() + i]).perm
                    == perm
            &&& forall|i: int|
                0 <= i < INIT_STACK_PAGES ==> (#[trigger] vs1.pages@[vs0.pages@.len()
                    + i]).bytes@.len() == 4096
            &&& forall|i: int, j: int|
                0 <= i < INIT_STACK_PAGES && 0 <= j < 4096 ==> #[trigger] vs1.pages@[vs0.pages@.len()
                    + i].bytes@[j] == 0u8
        }),
        r matches Err(e) ==> (e == BootError::CNodeSlotsExhausted || e == BootError::InvalidUntyped
            || e == BootError::AlreadyMapped),
        ({
            let vs0 = old(tcb).vspace.unwrap();
            (SLOT_UNTYPED_START < *old(cur_free_slot) && *old(cur_free_slot) + 4
                * INIT_STACK_PAGES <= old(cnode)@.len() && old(
                cnode,
            )@[SLOT_UNTYPED_START as int] is Untyped && (forall|i: int|
                0 <= i < INIT_STACK_PAGES ==> !(#[trigger] vs0.has_page(
                    (INIT_STACK_TOP as int / 4096 - (i + 1)) as u64,
                )))) ==> r is Ok
        }),
{
    let ghost vs0 = old(tcb).vspace.unwrap();
    let ghost len0 = vs0.pages@.len() as int;
    let ghost cur0 = *cur_free_slot;
    let ghost top = INIT_STACK_TOP as int / 4096;
    let ghost owed = SLOT_UNTYPED_START < cur0 && cur0 + 4 * INIT_STACK_PAGES <= old(
        cnode,
    )@.len() && old(cnode)@[SLOT_UNTYPED_START as int] is Untyped && (forall|i: int|
        0 <= i < INIT_STACK_PAGES ==> !(#[trigger] vs0.has_page((top - (i + 1)) as u64)));
    proof {
        if owed {
            assert forall|p: int| 0 <= p < len0 implies ((#[trigger] vs0.pages@[p]).vpn < top
                - INIT_STACK_PAGES || vs0.pages@[p].vpn >= top) by {
                let vpn = vs0.pages@[p].vpn as int;
                if top - INIT_STACK_PAGES <= vpn < top {
                    assert(vs0.has_page(vs0.pages@[p].vpn));
                    assert(!vs0.has_page(((top - ((top - vpn - 1) + 1)) as u64)));
                }
            }
        }
    }
    let mut i: u64 = 0;
    while i < 4
        invariant
            0 <= i <= 4,
            INIT_STACK_PAGES == 4,
            old(tcb).vspace is Some,
            vs0 == old(tcb).vspace.unwrap(),
            len0 == vs0.pages@.len(),
            cur0 == *old(cur_free_slot),
            top == INIT_STACK_TOP as int / 4096,
            cnode@.len() == INIT_CSPACE_SIZE,
            old(cnode)@.len() == INIT_CSPACE_SIZE,
            tcb.vspace is Some,
            tcb.cspace == old(tcb).cspace,
            tcb.tf == old(tcb).tf,
            SLOT_UNTYPED_START <= cur0 <= *cur_free_slot <= cnode@.len(),
            forall|s: int|
                0 <= s < cnode@.len() && !(cur0 <= s < *cur_free_slot) ==> cnode@[s] == old(
                    cnode,
                )@[s],
            forall|s: int|
                cur0 <= s < *cur_free_slot ==> (cnode@[s] == CNodeEntry::VTable || cnode@[s]
                    == CNodeEntry::Ram),
            tcb.vspace.unwrap().pages@.len() == len0 + i,
            forall|p: int| 0 <= p < len0 ==> tcb.vspace.unwrap().pages@[p] == vs0.pages@[p],
            forall|ii: int|
                0 <= ii < i ==> (#[trigger] tcb.vspace.unwrap().pages@[len0 + ii]).vpn == top - (ii
                    + 1),
            forall|ii: int|
                0 <= ii < i ==> (#[trigger] tcb.vspace.unwrap().pages@[len0 + ii]).perm == perm,
            forall|ii: int|
                0 <= ii < i ==> (#[trigger] tcb.vspace.unwrap().pages@[len0 + ii]).bytes@.len()
                    == 4096,
            forall|ii: int, j: int|
                0 <= ii < i && 0 <= j < 4096 ==> #[trigger] tcb.vspace.unwrap().pages@[len0
                    + ii].bytes@[j] == 0u8,
            *cur_free_slot <= cur0 + 4 * i,
            owed == (SLOT_UNTYPED_START < cur0 && cur0 + 4 * INIT_STACK_PAGES <= old(
                cnode,
            )@.len() && old(cnode)@[SLOT_UNTYPED_START as int] is Untyped && (forall|ii: int|
                0 <= ii < INIT_STACK_PAGES ==> !(#[trigger] vs0.has_page((top - (ii + 1)) as u64)))),
            owed ==> cnode@[SLOT_UNTYPED_START as int] is Untyped,
            owed ==> forall|p: int|
                0 <= p < len0 + i ==> ((#[trigger] tcb.vspace.unwrap().pages@[p]).vpn < top
                    - INIT_STACK_PAGES || tcb.vspace.unwrap().pages@[p].vpn >= top - i),
        decreases 4 - i,
    {
        let va = INIT_STACK_TOP - 4096 * (i + 1);
        proof {
            lemma_div_multiples_vanish(top - (i + 1), 4096);
            assert(va as int == 4096 * (top - (i + 1)));
            assert(va as int / 4096 == top - (i + 1));
        }
        match map_frame(tcb, cnode, va, perm, cur_free_slot) {
            Ok(_) => {},
            Err(e) => {
                proof {
                    if owed {
                        let vsc = tcb.vspace.unwrap();
                        assert(vsc.alloc_count(va) <= 4);
                        assert(*cur_free_slot + vsc.alloc_count(va) <= cnode@.len());
                        assert(forall|p: int|
                            0 <= p < vsc.pages@.len() ==> (#[trigger] vsc.pages@[p]).vpn != va
                                / PAGE_SIZE);
                        assert(!vsc.has_page(va / PAGE_SIZE));
                        assert(false);
                    }
                }
                return Err(e);
            },
        }
        i = i + 1;
    }
    Ok(())
}

/// Appending one header's run of pages extends the loaded prefix by
/// that header.
proof fn lemma_prefix_extend(vs0: VSpace, vs1: VSpace, b: Seq<u8>, i: int)
    requires
        0 <= i,
        loaded_prefix(vs0, b, i),
        vs1.pages@.len() == vs0.pages@.len() + ph_pages(ph_at(b, i)),
        forall|p: int| 0 <= p < vs0.pages@.len() ==> vs1.pages@[p] == vs0.pages@[p],
        forall|k: int|
            0 <= k < ph_pages(ph_at(b, i)) ==> (#[trigger] vs1.pages@[vs0.pages@.len() + k]).vpn
                == ph_page_vpn(ph_at(b, i), k),
        forall|k: int|
            0 <= k < ph_pages(ph_at(b, i)) ==> (#[trigger] vs1.pages@[vs0.pages@.len() + k]).perm
                == Permission::from_flags_spec(ph_at(b, i).flags),
        forall|k: int|
            0 <= k < ph_pages(ph_at(b, i)) ==> (#[trigger] vs1.pages@[vs0.pages@.len()
                + k]).bytes@.len() == 4096,
        forall|k: int, j: int|
            0 <= k < ph_pages(ph_at(b, i)) && 0 <= j < 4096 ==> #[trigger] vs1.pages@[vs0.pages@.len()
                + k].bytes@[j] == (if ph_at(b, i).ptype == PT_LOAD {
                segment_byte(b, ph_at(b, i), k, j)
            } else {
                0u8
            }),
    ensures
        loaded_prefix(vs1, b, i + 1),
{
    let len0 = vs0.pages@.len() as int;
    assert(len0 == pages_before(b, i));
    assert(pages_before(b, i + 1) == pages_before(b, i) + ph_pages(ph_at(b, i)));
    assert forall|i2: int, k: int| 0 <= i2 < i + 1 && 0 <= k < ph_pages(ph_at(b, i2)) implies (
    #[trigger] vs1.pages@[pages_before(b, i2) + k]).vpn == ph_page_vpn(ph_at(b, i2), k) by {
        lemma_pages_before_mono(b, 0, i2);
        if i2 < i {
            lemma_pages_before_mono(b, i2 + 1, i);
            assert(vs1.pages@[pages_before(b, i2) + k] == vs0.pages@[pages_before(b, i2) + k]);
        }
    }
    assert forall|i2: int, k: int| 0 <= i2 < i + 1 && 0 <= k < ph_pages(ph_at(b, i2)) implies (
    #[trigger] vs1.pages@[pages_before(b, i2) + k]).perm == Permission::from_flags_spec(
        ph_at(b, i2).flags,
    ) by {
        lemma_pages_before_mono(b, 0, i2);
        if i2 < i {
            lemma_pages_before_mono(b, i2 + 1, i);
            assert(vs1.pages@[pages_before(b, i2) + k] == vs0.pages@[pages_before(b, i2) + k]);
        }
    }
    assert forall|i2: int, k: int| 0 <= i2 < i + 1 && 0 <= k < ph_pages(ph_at(b, i2)) implies (
    #[trigger] vs1.pages@[pages_before(b, i2) + k]).bytes@.len() == 4096 by {
        lemma_pages_before_mono(b, 0, i2);
        if i2 < i {
            lemma_pages_before_mono(b, i2 + 1, i);
            assert(vs1.pages@[pages_before(b, i2) + k] == vs0.pages@[pages_before(b, i2) + k]);
        }
    }
    assert forall|i2: int, k: int, j: int|
        0 <= i2 < i + 1 && 0 <= k < ph_pages(ph_at(b, i2)) && 0 <= j
            < 4096 implies #[trigger] vs1.pages@[pages_before(b, i2) + k].bytes@[j] == (if ph_at(
        b,
        i2,
    ).ptype == PT_LOAD {
        segment_byte(b, ph_at(b, i2), k, j)
    } else {
        0u8
    }) by {
        lemma_pages_before_mono(b, 0, i2);
        if i2 < i {
            lemma_pages_before_mono(b, i2 + 1, i);
            assert(vs1.pages@[pages_before(b, i2) + k] == vs0.pages@[pages_before(b, i2) + k]);
        }
    }
}

/// Loads the init thread: binds its VSpace root from the
/// [`SLOT_INIT_L1_PAGE_TABLE`] cap, parses the embedded ELF64 image,
/// materializes each LOAD segment (file bytes then zeroes up to its
/// memory size), reserves the stack for a GNU_STACK header, ignores
/// NOTE headers, and rejects any other header type.  On success the
/// address space is exactly [`loaded_state`] — every header's pages
/// with their contents and permissions — and the trap frame holds the
/// image's entry point, the stack top, and the masked EL0 processor
/// state.  On a [`load_ready`] state the call succeeds exactly when
/// every header type is handled, and fails with the unsupported type
/// otherwise.
pub fn load_init_thread(
    tcb: &mut Tcb,
    cnode: &mut CNode,
    elf_file: &[u8],
    cur_free_slot: &mut usize,
) -> (r: Result<(), BootError>)
    requires
        old(cnode)@.len() == INIT_CSPACE_SIZE,
        SLOT_UNTYPED_START <= *old(cur_free_slot) <= old(cnode)@.len(),
    ensures
        final(cnode)@.len() == old(cnode)@.len(),
        final(tcb).cspace == old(tcb).cspace,
        SLOT_UNTYPED_START <= *old(cur_free_slot) <= *final(cur_free_slot) <= old(cnode)@.len(),
        forall|s: int|
            0 <= s < final(cnode)@.len() && !(*old(cur_free_slot) <= s < *final(cur_free_slot))
                ==> final(cnode)@[s] == old(cnode)@[s],
        forall|s: int|
            *old(cur_free_slot) <= s < *final(cur_free_slot) ==> (final(cnode)@[s]
                == CNodeEntry::VTable || final(cnode)@[s] == CNodeEntry::Ram),
        r is Ok ==> ({
            &&& final(tcb).vspace is Some
            &&& loaded_state(final(tcb).vspace.unwrap(), elf_file@)
            &&& final(tcb).tf.elr as int == le64(elf_file@, 0x18)
            &&& final(tcb).tf.sp == INIT_STACK_TOP
            &&& final(tcb).tf.spsr == SPSR_EL0_MASKED
            &&& elf64_header_ok(elf_file@)
            &&& all_types_ok(elf_file@)
            &&& old(tcb).cspace is Some
            &&& old(cnode)@[SLOT_INIT_L1_PAGE_TABLE as int] is VTable
            &&& *final(cur_free_slot) <= *old(cur_free_slot) + 4 * pages_before(
                elf_file@,
                ph_count(elf_file@),
            )
        }),
        r is Err ==> final(tcb).tf == old(tcb).tf,
        r matches Err(e) ==> {
            &&& e != BootError::InvalidCNodeCap
            &&& e != BootError::VSpaceMissing
            &&& (e == BootError::CSpaceMissing <==> old(tcb).cspace is None)
            &&& (e == BootError::PgdCapMissing <==> old(tcb).cspace is Some && !(old(
                cnode,
            )@[SLOT_INIT_L1_PAGE_TABLE as int] is VTable))
            &&& (e == BootError::ElfBadMagic ==> elf_file@.len() >= 64 && !crate::elf::elf_magic_ok(
                elf_file@,
            ))
            &&& (e == BootError::ElfNotElf64 ==> elf_file@.len() >= 64 && crate::elf::elf_magic_ok(
                elf_file@,
            ) && elf_file@[4] != 2)
            &&& (e matches BootError::UnsupportedProgramType { ptype } ==> exists|i: int|
                0 <= i < ph_count(elf_file@) && {
                    let p = (#[trigger] ph_at(elf_file@, i)).ptype;
                    p == ptype && !ph_type_ok(ph_at(elf_file@, i))
                })
        },
        load_ready(*old(tcb), old(cnode)@, *old(cur_free_slot) as int, elf_file@) && all_types_ok(
            elf_file@,
        ) ==> r is Ok,
        r matches Err(e) ==> (load_ready(*old(tcb), old(cnode)@, *old(cur_free_slot) as int,
        elf_file@) ==> e is UnsupportedProgramType),
        (old(tcb).cspace is Some && old(cnode)@[SLOT_INIT_L1_PAGE_TABLE as int] is VTable
            && elf64_header_ok(elf_file@) && le16(elf_file@, 0x38) == 0) ==> r is Ok,
{
    let ghost b = elf_file@;
    let ghost ready = load_ready(*old(tcb), old(cnode)@, *old(cur_free_slot) as int, b);
    match &tcb.cspace {
        Some(_) => {},
        None => {
            return Err(BootError::CSpaceMissing);
        },
    }
    match cnode.slots[SLOT_INIT_L1_PAGE_TABLE] {
        CNodeEntry::VTable => {},
        _ => {
            return Err(BootError::PgdCapMissing);
        },
    }
    tcb.install_vspace();
    let h = match parse_elf_header(elf_file) {
        Ok(h) => h,
        Err(e) => {
            proof {
                if ready {
                    assert(false);
                }
            }
            return Err(e);
        },
    };
    let ghost cur0 = *cur_free_slot;
    proof {
        assert(tcb.vspace.unwrap().pages@.len() == 0);
    }
    let mut i: u16 = 0;
    while i < h.phnum
        invariant
            0 <= i <= h.phnum,
            b == elf_file@,
            cnode@.len() == INIT_CSPACE_SIZE,
            old(cnode)@.len() == INIT_CSPACE_SIZE,
            cur0 == *old(cur_free_slot),
            ready == load_ready(*old(tcb), old(cnode)@, cur0 as int, b),
            elf64_header_ok(b),
            h.phoff as int == le64(b, 0x20),
            h.phnum as int == ph_count(b),
            h.entry as int == le64(b, 0x18),
            tcb.vspace is Some,
            tcb.cspace == old(tcb).cspace,
            tcb.tf == old(tcb).tf,
            old(tcb).cspace is Some,
            old(cnode)@[SLOT_INIT_L1_PAGE_TABLE as int] is VTable,
            SLOT_UNTYPED_START <= cur0 <= *cur_free_slot <= cnode@.len(),
            forall|s: int|
                0 <= s < cnode@.len() && !(cur0 <= s < *cur_free_slot) ==> cnode@[s] == old(
                    cnode,
                )@[s],
            forall|s: int|
                cur0 <= s < *cur_free_slot ==> (cnode@[s] == CNodeEntry::VTable || cnode@[s]
                    == CNodeEntry::Ram),
            loaded_prefix(tcb.vspace.unwrap(), b, i as int),
            forall|i2: int| 0 <= i2 < i ==> ph_type_ok(#[trigger] ph_at(b, i2)),
            *cur_free_slot <= cur0 + 4 * pages_before(b, i as int),
            ready ==> cnode@[SLOT_UNTYPED_START as int] is Untyped,
            ready ==> forall|i2: int, k2: int|
                #![trigger ph_page_vpn(ph_at(b, i2), k2)]
                i <= i2 < ph_count(b) && 0 <= k2 < ph_pages(ph_at(b, i2))
                    ==> !tcb.vspace.unwrap().has_page(ph_page_vpn(ph_at(b, i2), k2) as u64),
        decreases h.phnum - i,
    {
        let ghost vs_pre = tcb.vspace.unwrap();
        let ghost cur_pre = *cur_free_slot;
        let ph = match parse_program_header(elf_file, h.phoff, i) {
            Ok(p) => p,
            Err(e) => {
                proof {
                    if ready {
                        assert(56 * (i as int + 1) <= 56 * ph_count(b)) by (nonlinear_arith)
                            requires
                                i as int + 1 <= ph_count(b),
                        ;
                        assert(false);
                    }
                }
                return Err(e);
            },
        };
        proof {
            assert(ph == ph_at(b, i as int));
            lemma_pages_before_mono(b, 0, i as int);
            lemma_ph_pages_nonneg(ph_at(b, i as int));
            assert(pages_before(b, i as int + 1) == pages_before(b, i as int) + ph_pages(
                ph_at(b, i as int),
            ));
        }
        if ph.ptype == PT_LOAD {
            proof {
                if ready {
                    assert(ph.offset + ph.filesz <= b.len());
                    assert(ph.vaddr + ph.memsz <= 0xFFFF_FFFF_FFFF_FFFF);
                    assert(*cur_free_slot + 4 * num_pages(ph.memsz) <= cnode@.len()) by {
                        lemma_pages_before_mono(b, i as int + 1, ph_count(b));
                    };
                    assert forall|k: int|
                        0 <= k < num_pages(ph.memsz) implies !(#[trigger] tcb.vspace.unwrap().has_page(
                        ((ph.vaddr as int / 4096 + k) as u64),
                    )) by {
                        assert(ph_page_vpn(ph_at(b, i as int), k) == ph.vaddr as int / 4096 + k);
                        assert(!tcb.vspace.unwrap().has_page(
                            ph_page_vpn(ph_at(b, i as int), k) as u64,
                        ));
                    };
                }
            }
            match load_segment(tcb, cnode, elf_file, ph, cur_free_slot) {
                Ok(_) => {},
                Err(e) => {
                    proof {
                        if ready {
                            assert(false);
                        }
                    }
                    return Err(e);
                },
            }
        } else if ph.ptype == PT_GNU_STACK {
            let perm = Permission::from_flags(ph.flags);
            proof {
                if ready {
                    assert(*cur_free_slot + 4 * INIT_STACK_PAGES <= cnode@.len()) by {
                        lemma_pages_before_mono(b, i as int + 1, ph_count(b));
                    };
                    assert forall|k: int|
                        0 <= k < INIT_STACK_PAGES implies !(#[trigger] tcb.vspace.unwrap().has_page(
                        ((INIT_STACK_TOP as int / 4096 - (k + 1)) as u64),
                    )) by {
                        assert(ph_page_vpn(ph_at(b, i as int), k) == INIT_STACK_TOP as int / 4096
                            - (k + 1));
                        assert(!tcb.vspace.unwrap().has_page(
                            ph_page_vpn(ph_at(b, i as int), k) as u64,
                        ));
                    };
                }
            }
            match map_stack(tcb, cnode, perm, cur_free_slot) {
                Ok(_) => {},
                Err(e) => {
                    proof {
                        if ready {
                            assert(false);
                        }
                    }
                    return Err(e);
                },
            }
        } else if ph.ptype == PT_NOTE {
        } else {
            proof {
                if all_types_ok(b) {
                    assert(ph_type_ok(ph_at(b, i as int)));
                    assert(false);
                }
            }
            return Err(BootError::UnsupportedProgramType { ptype: ph.ptype });
        }
        proof {
            let vsc = tcb.vspace.unwrap();
            lemma_prefix_extend(vs_pre, vsc, b, i as int);
            if ready {
                assert forall|i2: int, k2: int|
                    #![trigger ph_page_vpn(ph_at(b, i2), k2)]
                    (i as int) + 1 <= i2 < ph_count(b) && 0 <= k2 < ph_pages(
                        ph_at(b, i2),
                    ) implies !vsc.has_page(ph_page_vpn(ph_at(b, i2), k2) as u64) by {
                    lemma_ph_page_vpn_bounds(ph_at(b, i2), k2);
                    let t = ph_page_vpn(ph_at(b, i2), k2);
                    assert(!vs_pre.has_page(t as u64));
                    assert forall|p: int| 0 <= p < vsc.pages@.len() implies (
                    #[trigger] vsc.pages@[p]).vpn != t as u64 by {
                        if p < vs_pre.pages@.len() {
                            assert(vsc.pages@[p] == vs_pre.pages@[p]);
                            if vsc.pages@[p].vpn == t as u64 {
                                assert(vs_pre.has_page(t as u64));
                            }
                        } else {
                            let k = p - vs_pre.pages@.len();
                            assert(vsc.pages@[vs_pre.pages@.len() + k].vpn == ph_page_vpn(
                                ph_at(b, i as int),
                                k,
                            ));
                            assert(ph_page_vpn(ph_at(b, i as int), k) != t);
                        }
                    }
                }
            }
        }
        i = i + 1;
    }
    proof {
        assert(loaded_prefix(tcb.vspace.unwrap(), b, ph_count(b)));
    }
    tcb.tf.elr = h.entry;
    tcb.tf.sp = INIT_STACK_TOP;
    tcb.tf.spsr = SPSR_EL0_MASKED;
    Ok(())
}

} // verus!
