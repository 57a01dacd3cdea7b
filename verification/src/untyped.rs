//! The untyped carver: slices firmware-reported RAM outside the kernel
//! image into maximally aligned power-of-two blocks and records each
//! block of more than 16 bytes as an untyped capability in the init
//! CNode.
use crate::bits::{align_bits, align_bits_u64, floor_log2, floor_log2_u64, lemma_align_bits,
    lemma_align_bits_divides, lemma_align_bits_exact, lemma_align_bits_of_sum, lemma_floor_log2,
    pow2_u64};
use crate::caps::{BootError, CNode, CNodeEntry, ObjType, alloc_obj};
use crate::{INIT_CSPACE_SIZE, SLOT_INIT_CSPACE, SLOT_INIT_L1_PAGE_TABLE, SLOT_INIT_TCB,
    SLOT_IRQ_CONTROLLER, SLOT_MONITOR, SLOT_UNTYPED_START};
use vstd::arithmetic::power2::*;
use vstd::prelude::*;

verus! {

/// One block produced by the carver: `pow2(bits)` bytes at `base`.
pub ghost struct UBlock {
    pub base: int,
    pub bits: nat,
}

/// The block size chosen at position `cur` of a region ending at `end`:
/// the minimum of the alignment of `cur` and the largest power of two
/// that still leaves room, i.e. that is strictly smaller than the
/// remainder.  When exactly one byte remains, only the alignment of
/// `cur` limits the block.
pub open spec fn step_bits(cur: u64, end: u64) -> nat
    recommends
        0 < cur < end,
{
    if end - cur == 1 {
        align_bits(cur)
    } else {
        let fit = floor_log2((end - cur - 1) as u64);
        if align_bits(cur) <= fit {
            align_bits(cur)
        } else {
            fit
        }
    }
}

/// The full sequence of blocks the greedy carver walks over `[cur, end)`,
/// the dropped slivers included.
pub open spec fn carve_seq(cur: u64, end: u64) -> Seq<UBlock>
    decreases end - cur,
    via carve_seq_decreases
{
    if 0 < cur < end {
        let b = step_bits(cur, end);
        let sz = pow2(b) as int;
        if cur + sz <= end {
            seq![UBlock { base: cur as int, bits: b }] + carve_seq((cur + sz) as u64, end)
        } else {
            seq![UBlock { base: cur as int, bits: b }]
        }
    } else {
        Seq::empty()
    }
}

#[via_fn]
proof fn carve_seq_decreases(cur: u64, end: u64) {
    if 0 < cur < end {
        lemma_pow2_pos(step_bits(cur, end));
    }
}

/// The blocks of a sequence that are large enough to install, in order.
pub open spec fn keep_blocks(s: Seq<UBlock>) -> Seq<UBlock>
    decreases s.len(),
{
    if s.len() == 0 {
        Seq::empty()
    } else {
        let rest = keep_blocks(s.drop_first());
        if s[0].bits > 4 {
            seq![s[0]] + rest
        } else {
            rest
        }
    }
}

/// The blocks the carver installs over `[cur, end)`: those of more
/// than 16 bytes.
pub open spec fn carve_installed(cur: u64, end: u64) -> Seq<UBlock> {
    keep_blocks(carve_seq(cur, end))
}

/// The untyped capability recorded for a block.
pub open spec fn untyped_cap(b: UBlock, is_device: bool) -> CNodeEntry {
    CNodeEntry::Untyped { base: b.base as u64, size_bits: b.bits as u64, is_device }
}

/// Splitting off the head commutes with [`keep_blocks`].
proof fn lemma_keep_unfold(h: UBlock, rest: Seq<UBlock>)
    ensures
        keep_blocks(seq![h] + rest) == if h.bits > 4 {
            seq![h] + keep_blocks(rest)
        } else {
            keep_blocks(rest)
        },
{
    let s = seq![h] + rest;
    assert(s.len() == 1 + rest.len());
    assert(s[0] == h);
    assert(s.drop_first() =~= rest);
}

/// Bounds on one carving step: the chosen block is aligned to its own
/// size, fits before `u64` overflows, and, when at least two bytes
/// remain, stays strictly inside the region.
pub proof fn lemma_step_bounds(cur: u64, end: u64)
    requires
        0 < cur < end,
        end <= 0x8000_0000_0000_0000,
    ensures
        1 <= pow2(step_bits(cur, end)),
        step_bits(cur, end) <= 63,
        cur + pow2(step_bits(cur, end)) <= u64::MAX,
        end - cur >= 2 ==> cur + pow2(step_bits(cur, end)) < end,
        cur as int % pow2(step_bits(cur, end)) as int == 0,
        step_bits(cur, end) <= align_bits(cur),
{
    let b = step_bits(cur, end);
    lemma_align_bits(cur);
    lemma_pow2_pos(b);
    if end - cur == 1 {
        assert(b == align_bits(cur));
        assert(pow2(b) <= cur);
    } else {
        let fit = floor_log2((end - cur - 1) as u64);
        lemma_floor_log2((end - cur - 1) as u64);
        if b < fit {
            lemma_pow2_strictly_increases(b, fit);
        }
        assert(pow2(b) <= pow2(fit));
        assert(pow2(fit) <= end - cur - 1);
        assert(b <= align_bits(cur));
        lemma_align_bits_divides(cur, b);
        if b < align_bits(cur) {
            lemma_pow2_strictly_increases(b, align_bits(cur));
        }
        assert(pow2(b) <= cur);
    }
    lemma_align_bits_divides(cur, b);
}

/// Executable counterpart of [`step_bits`].
pub fn block_bits(cur: u64, end: u64) -> (b: u64)
    requires
        0 < cur < end,
    ensures
        b as nat == step_bits(cur, end),
        b <= 63,
{
    let r = end - cur;
    let a = align_bits_u64(cur);
    if r == 1 {
        a
    } else {
        let f = floor_log2_u64(r - 1);
        if a <= f {
            a
        } else {
            f
        }
    }
}

/// The blocks too small to install: at most 16 bytes each.
pub open spec fn drop_blocks(s: Seq<UBlock>) -> Seq<UBlock>
    decreases s.len(),
{
    if s.len() == 0 {
        Seq::empty()
    } else {
        let rest = drop_blocks(s.drop_first());
        if s[0].bits > 4 {
            rest
        } else {
            seq![s[0]] + rest
        }
    }
}

/// Total number of bytes covered by a sequence of blocks.
pub open spec fn sum_sizes(s: Seq<UBlock>) -> int
    decreases s.len(),
{
    if s.len() == 0 {
        0
    } else {
        pow2(s[0].bits) as int + sum_sizes(s.drop_first())
    }
}

/// Every block is either kept or dropped: the two parts carry all the
/// bytes between them, the kept blocks exceed 16 bytes and the dropped
/// ones do not.
pub proof fn lemma_keep_drop_split(s: Seq<UBlock>)
    ensures
        sum_sizes(keep_blocks(s)) + sum_sizes(drop_blocks(s)) == sum_sizes(s),
        forall|i: int| 0 <= i < keep_blocks(s).len() ==> (#[trigger] keep_blocks(s)[i]).bits > 4,
        forall|i: int| 0 <= i < drop_blocks(s).len() ==> (#[trigger] drop_blocks(s)[i]).bits <= 4,
    decreases s.len(),
{
    if s.len() > 0 {
        let rest = s.drop_first();
        lemma_keep_drop_split(rest);
        if s[0].bits > 4 {
            let ks = seq![s[0]] + keep_blocks(rest);
            assert(keep_blocks(s) == ks);
            assert(ks.drop_first() =~= keep_blocks(rest));
            assert(sum_sizes(ks) == pow2(s[0].bits) as int + sum_sizes(keep_blocks(rest)));
        } else {
            let ds = seq![s[0]] + drop_blocks(rest);
            assert(drop_blocks(s) == ds);
            assert(ds.drop_first() =~= drop_blocks(rest));
            assert(sum_sizes(ds) == pow2(s[0].bits) as int + sum_sizes(drop_blocks(rest)));
        }
    }
}

/// The carver's blocks cover `[start, end)` exactly, byte for byte,
/// when the region's end is even (so that no final step can run past
/// the end).
pub proof fn lemma_carve_sum(start: u64, end: u64)
    requires
        0 < start <= end,
        end <= 0x8000_0000_0000_0000,
        end % 2 == 0,
    ensures
        sum_sizes(carve_seq(start, end)) == end - start,
    decreases end - start,
{
    if start < end {
        let b = step_bits(start, end);
        let sz = pow2(b) as int;
        lemma_step_bounds(start, end);
        if end - start == 1 {
            assert(start % 2 == 1);
            assert(align_bits(start) == 0);
            lemma2_to64();
            assert(sz == 1);
        }
        assert(start + sz <= end);
        let cur2 = (start + sz) as u64;
        lemma_carve_sum(cur2, end);
        let s = carve_seq(start, end);
        assert(s == seq![UBlock { base: start as int, bits: b }] + carve_seq(cur2, end));
        assert(s.drop_first() =~= carve_seq(cur2, end));
    }
}

/// The installed untyped blocks partition the carved region: together
/// with the dropped slivers they cover `[start, end)` exactly; each
/// installed block is larger than 16 bytes, aligned to its own size,
/// lies inside the region, and the blocks ascend without overlap; each
/// dropped sliver is at most 16 bytes.
pub proof fn lemma_untyped_carving_partition(start: u64, end: u64)
    requires
        0 < start <= end,
        end <= 0x8000_0000_0000_0000,
        end % 2 == 0,
    ensures
        ({
            let ins = carve_installed(start, end);
            let dropped = drop_blocks(carve_seq(start, end));
            &&& sum_sizes(ins) + sum_sizes(dropped) == end - start
            &&& forall|i: int| 0 <= i < ins.len() ==> (#[trigger] ins[i]).bits > 4
            &&& forall|i: int|
                0 <= i < dropped.len() ==> pow2((#[trigger] dropped[i]).bits) <= 16
            &&& forall|i: int|
                0 <= i < ins.len() ==> (#[trigger] ins[i]).base % (pow2(ins[i].bits) as int) == 0
            &&& forall|i: int|
                0 <= i < ins.len() ==> start <= (#[trigger] ins[i]).base && ins[i].base + pow2(
                    ins[i].bits,
                ) <= end
            &&& forall|i: int|
                0 <= i && i + 1 < ins.len() ==> (#[trigger] ins[i]).base + pow2(ins[i].bits)
                    <= ins[i + 1].base
        }),
{
    lemma_carve_sum(start, end);
    lemma_keep_drop_split(carve_seq(start, end));
    lemma_installed_props(start, end);
    let dropped = drop_blocks(carve_seq(start, end));
    assert forall|i: int| 0 <= i < dropped.len() implies pow2((#[trigger] dropped[i]).bits)
        <= 16 by {
        lemma2_to64();
        if dropped[i].bits < 4 {
            lemma_pow2_strictly_increases(dropped[i].bits, 4);
        }
    }
}

/// Position, alignment and ordering of the installed blocks.
proof fn lemma_installed_props(start: u64, end: u64)
    requires
        0 < start <= end,
        end <= 0x8000_0000_0000_0000,
        end % 2 == 0,
    ensures
        ({
            let ins = carve_installed(start, end);
            &&& forall|i: int|
                0 <= i < ins.len() ==> (#[trigger] ins[i]).base % (pow2(ins[i].bits) as int) == 0
            &&& forall|i: int|
                0 <= i < ins.len() ==> start <= (#[trigger] ins[i]).base && ins[i].base + pow2(
                    ins[i].bits,
                ) <= end
            &&& forall|i: int|
                0 <= i && i + 1 < ins.len() ==> (#[trigger] ins[i]).base + pow2(ins[i].bits)
                    <= ins[i + 1].base
        }),
    decreases end - start,
{
    if start < end {
        let b = step_bits(start, end);
        let sz = pow2(b) as int;
        let blk = UBlock { base: start as int, bits: b };
        lemma_step_bounds(start, end);
        if end - start == 1 {
            assert(start % 2 == 1);
            assert(align_bits(start) == 0);
            lemma2_to64();
            assert(sz == 1);
        }
        assert(start + sz <= end);
        let cur2 = (start + sz) as u64;
        lemma_installed_props(cur2, end);
        let rest = carve_seq(cur2, end);
        assert(carve_seq(start, end) == seq![blk] + rest);
        lemma_keep_unfold(blk, rest);
        let ins = carve_installed(start, end);
        let rest_ins = carve_installed(cur2, end);
        if cur2 < end && rest_ins.len() > 0 {
            lemma_installed_head(cur2, end);
        }
        if b > 4 {
            assert(ins == seq![blk] + rest_ins);
            assert(forall|i: int| 1 <= i < ins.len() ==> ins[i] == rest_ins[i - 1]);
        } else {
            assert(ins == rest_ins);
        }
    }
}

/// The first installed block, when one exists, starts no earlier than
/// the region.
proof fn lemma_installed_head(start: u64, end: u64)
    requires
        0 < start <= end,
        end <= 0x8000_0000_0000_0000,
        carve_installed(start, end).len() > 0,
    ensures
        carve_installed(start, end)[0].base >= start,
    decreases end - start,
{
    if start < end {
        let b = step_bits(start, end);
        let sz = pow2(b) as int;
        let blk = UBlock { base: start as int, bits: b };
        lemma_step_bounds(start, end);
        let rest = if start + sz <= end {
            carve_seq((start + sz) as u64, end)
        } else {
            Seq::<UBlock>::empty()
        };
        assert(carve_seq(start, end) == seq![blk] + rest);
        lemma_keep_unfold(blk, rest);
        if !(start + sz <= end) {
            assert(keep_blocks(rest) =~= Seq::<UBlock>::empty());
        }
        if !(b > 4) {
            let cur2 = (start + sz) as u64;
            assert(start + sz <= end) by {
                if end - start >= 2 {
                } else {
                    assert(pow2(b) <= start);
                }
            }
            lemma_installed_head(cur2, end);
        }
    }
}

/// Maximal alignment: no two consecutive carved blocks of equal size
/// can be merged into one aligned block of twice that size, so the
/// greedy carve is optimal within each region.  Installed blocks that
/// are adjacent in memory are consecutive in the carve (every carved
/// block has a positive size), so this covers them in particular.
pub proof fn lemma_untyped_carving_maximal(start: u64, end: u64)
    requires
        0 < start <= end,
        end <= 0x8000_0000_0000_0000,
        end % 2 == 0,
    ensures
        ({
            let s = carve_seq(start, end);
            forall|i: int|
                0 <= i && i + 1 < s.len() && (#[trigger] s[i]).bits == s[i + 1].bits && s[i].bits
                    >= 1 ==> s[i].base % (pow2((s[i].bits + 1) as nat) as int) != 0
        }),
    decreases end - start,
{
    if start < end {
        let b = step_bits(start, end);
        let sz = pow2(b) as int;
        let blk = UBlock { base: start as int, bits: b };
        lemma_step_bounds(start, end);
        if end - start == 1 {
            assert(start % 2 == 1);
            assert(align_bits(start) == 0);
            lemma2_to64();
            assert(sz == 1);
        }
        assert(start + sz <= end);
        let cur2 = (start + sz) as u64;
        lemma_untyped_carving_maximal(cur2, end);
        let rest = carve_seq(cur2, end);
        let s = carve_seq(start, end);
        assert(s == seq![blk] + rest);
        assert(forall|i: int| 1 <= i < s.len() ==> s[i] == rest[i - 1]);
        if rest.len() > 0 && b >= 1 && rest[0].bits == b {
            lemma_head_pair_not_mergeable(start, end);
        }
    }
}

/// The head pair of a carve cannot merge: if the first two blocks have
/// the same size, the first is not aligned to twice that size.
proof fn lemma_head_pair_not_mergeable(start: u64, end: u64)
    requires
        0 < start < end,
        end <= 0x8000_0000_0000_0000,
        end % 2 == 0,
        step_bits(start, end) >= 1,
        ({
            let sz = pow2(step_bits(start, end)) as int;
            &&& start + sz < end
            &&& step_bits((start + sz) as u64, end) == step_bits(start, end)
        }),
    ensures
        start as int % (pow2((step_bits(start, end) + 1) as nat) as int) != 0,
{
    let b = step_bits(start, end);
    let sz = pow2(b) as int;
    let cur2 = (start + sz) as u64;
    lemma_step_bounds(start, end);
    lemma_align_bits(start);
    if start as int % (pow2((b + 1) as nat) as int) == 0 {
        // `start` is aligned beyond `b`, so the block size was limited
        // by the fit: the remainder lies strictly below `pow2(b + 1)`.
        assert(b < align_bits(start)) by {
            if b == align_bits(start) {
                lemma_align_bits_exact(start);
            }
        }
        assert(end - start >= 2) by {
            if end - start == 1 {
                assert(b == align_bits(start));
            }
        }
        let fit = floor_log2((end - start - 1) as u64);
        assert(b == fit);
        lemma_floor_log2((end - start - 1) as u64);
        assert(end - start - 1 < pow2(fit + 1));
        lemma_align_bits_of_sum(start, b);
        assert(align_bits(cur2) == b);
        // The next block starts at an address of alignment exactly
        // `b`, with fewer than `pow2(b)` bytes left in front of it.
        let r2 = end - cur2;
        assert(r2 >= 1);
        if r2 == 1 {
            assert(cur2 % 2 == 1);
            assert(align_bits(cur2) == 0);
        } else {
            let fit2 = floor_log2((r2 - 1) as u64);
            lemma_floor_log2((r2 - 1) as u64);
            lemma_pow2_unfold(b + 1);
            assert(r2 - 1 < pow2(b));
            assert(fit2 < b) by {
                if fit2 >= b {
                    if fit2 > b {
                        lemma_pow2_strictly_increases(b, fit2);
                    }
                    assert(pow2(b) <= pow2(fit2));
                }
            }
            assert(step_bits(cur2, end) == fit2);
        }
        assert(false);
    }
}

/// The first installed block of a carve starts at or after the carve
/// position; when it starts exactly there, it is the first carved
/// block, so its size is the one [`step_bits`] chose.
proof fn lemma_installed_head_shape(start: u64, end: u64)
    requires
        0 < start <= end,
        end <= 0x8000_0000_0000_0000,
        end % 2 == 0,
        carve_installed(start, end).len() > 0,
    ensures
        carve_installed(start, end)[0].base >= start,
        carve_installed(start, end)[0].base == start ==> carve_installed(start, end)[0].bits
            == step_bits(start, end),
    decreases end - start,
{
    if start < end {
        let b = step_bits(start, end);
        let sz = pow2(b) as int;
        let blk = UBlock { base: start as int, bits: b };
        lemma_step_bounds(start, end);
        if end - start == 1 {
            assert(start % 2 == 1);
            assert(align_bits(start) == 0);
            lemma2_to64();
            assert(sz == 1);
        }
        assert(start + sz <= end);
        let cur2 = (start + sz) as u64;
        let rest = carve_seq(cur2, end);
        assert(carve_seq(start, end) == seq![blk] + rest);
        lemma_keep_unfold(blk, rest);
        if !(b > 4) {
            lemma_installed_head_shape(cur2, end);
        }
    }
}

/// Maximality carried over to the installed blocks themselves: two
/// installed untyped blocks that sit side by side in memory with equal
/// sizes never merge into one aligned block of twice that size.  (A
/// dropped sliver between two installed blocks breaks their adjacency,
/// so only carve-consecutive pairs can be adjacent at all.)
pub proof fn lemma_untyped_installed_maximal(start: u64, end: u64)
    requires
        0 < start <= end,
        end <= 0x8000_0000_0000_0000,
        end % 2 == 0,
    ensures
        ({
            let ins = carve_installed(start, end);
            forall|i: int|
                0 <= i && i + 1 < ins.len() && (#[trigger] ins[i]).base + pow2(ins[i].bits)
                    == ins[i + 1].base && ins[i].bits == ins[i + 1].bits ==> ins[i].base % (pow2(
                    (ins[i].bits + 1) as nat,
                ) as int) != 0
        }),
    decreases end - start,
{
    if start < end {
        let b = step_bits(start, end);
        let sz = pow2(b) as int;
        let blk = UBlock { base: start as int, bits: b };
        lemma_step_bounds(start, end);
        if end - start == 1 {
            assert(start % 2 == 1);
            assert(align_bits(start) == 0);
            lemma2_to64();
            assert(sz == 1);
        }
        assert(start + sz <= end);
        let cur2 = (start + sz) as u64;
        lemma_untyped_installed_maximal(cur2, end);
        let rest = carve_seq(cur2, end);
        assert(carve_seq(start, end) == seq![blk] + rest);
        lemma_keep_unfold(blk, rest);
        let ins = carve_installed(start, end);
        let rest_ins = carve_installed(cur2, end);
        if b > 4 {
            assert(ins == seq![blk] + rest_ins);
            assert(forall|i: int| 1 <= i < ins.len() ==> ins[i] == rest_ins[i - 1]);
            if rest_ins.len() > 0 {
                assert(cur2 < end) by {
                    if cur2 >= end {
                        assert(carve_seq(cur2, end) =~= Seq::<UBlock>::empty());
                        assert(rest_ins =~= Seq::<UBlock>::empty());
                    }
                }
                lemma_installed_head_shape(cur2, end);
                if ins[1].base == start + sz && ins[1].bits == b {
                    assert(rest_ins[0].base == cur2);
                    assert(rest_ins[0].bits == step_bits(cur2, end));
                    lemma_head_pair_not_mergeable(start, end);
                }
            }
        } else {
            assert(ins == rest_ins);
        }
    }
}

/// Carves `[addr_start, addr_end)` greedily from low to high into
/// maximally aligned power-of-two blocks and writes an untyped cap for
/// each block larger than 16 bytes into the slot at the cursor, which
/// advances once per installed block.  The blocks are exactly
/// [`carve_installed`]`(addr_start, addr_end)`, in ascending order.
pub fn init_cspace_populate_untyped(
    addr_start: u64,
    addr_end: u64,
    cnode: &mut CNode,
    cptr: &mut usize,
    is_device: bool,
)
    requires
        0 < addr_start,
        addr_end <= 0x8000_0000_0000_0000,
        old(cnode)@.len() == INIT_CSPACE_SIZE,
        SLOT_UNTYPED_START <= *old(cptr),
        *old(cptr) + carve_installed(addr_start, addr_end).len() <= old(cnode)@.len(),
    ensures
        final(cnode)@.len() == old(cnode)@.len(),
        *final(cptr) == *old(cptr) + carve_installed(addr_start, addr_end).len(),
        forall|k: int|
            0 <= k < carve_installed(addr_start, addr_end).len() ==> final(cnode)@[*old(cptr) + k]
                == untyped_cap(carve_installed(addr_start, addr_end)[k], is_device),
        forall|s: int|
            0 <= s < final(cnode)@.len() && !(*old(cptr) <= s < *final(cptr)) ==> final(cnode)@[s]
                == old(cnode)@[s],
{
    let ghost total = carve_installed(addr_start, addr_end);
    let ghost cptr0 = *cptr;
    let mut cur: u64 = addr_start;
    while cur < addr_end
        invariant
            0 < cur,
            addr_end <= 0x8000_0000_0000_0000,
            cnode@.len() == INIT_CSPACE_SIZE,
            old(cnode)@.len() == INIT_CSPACE_SIZE,
            cptr0 <= *cptr,
            total == carve_installed(addr_start, addr_end),
            *cptr - cptr0 + carve_installed(cur, addr_end).len() == total.len(),
            carve_installed(cur, addr_end) == total.skip(*cptr - cptr0),
            *cptr + carve_installed(cur, addr_end).len() <= cnode@.len(),
            forall|k: int|
                0 <= k < *cptr - cptr0 ==> cnode@[cptr0 + k] == untyped_cap(total[k], is_device),
            forall|s: int|
                0 <= s < cnode@.len() && !(cptr0 <= s < *cptr) ==> cnode@[s] == old(cnode)@[s],
        decreases addr_end - cur,
    {
        let ghost w = *cptr - cptr0;
        let bit_sz = block_bits(cur, addr_end);
        proof {
            lemma_step_bounds(cur, addr_end);
        }
        let sz = pow2_u64(bit_sz);
        let ghost blk = UBlock { base: cur as int, bits: bit_sz as nat };
        let ghost rest_all = if cur + sz <= addr_end {
            carve_seq((cur + sz) as u64, addr_end)
        } else {
            Seq::<UBlock>::empty()
        };
        proof {
            assert(carve_seq(cur, addr_end) == seq![blk] + rest_all);
            lemma_keep_unfold(blk, rest_all);
            if !(cur + sz <= addr_end) {
                assert(keep_blocks(rest_all) =~= carve_installed((cur + sz) as u64, addr_end));
            }
            assert(carve_installed(cur, addr_end) == if blk.bits > 4 {
                seq![blk] + carve_installed((cur + sz) as u64, addr_end)
            } else {
                carve_installed((cur + sz) as u64, addr_end)
            });
        }
        if sz > 16 {
            proof {
                lemma2_to64();
                if bit_sz <= 4 {
                    lemma_pow2_strictly_increases(bit_sz as nat, 5);
                }
                assert(blk.bits > 4);
                assert(carve_installed(cur, addr_end)[0] == blk);
                assert(total[w as int] == blk);
            }
            assert(cur % sz == 0);
            cnode.slots[*cptr] = CNodeEntry::Untyped {
                base: cur,
                size_bits: bit_sz,
                is_device,
            };
            *cptr = *cptr + 1;
            proof {
                assert(carve_installed(cur, addr_end).drop_first() =~= carve_installed(
                    (cur + sz) as u64,
                    addr_end,
                ));
                assert(total.skip(w as int).drop_first() =~= total.skip(w + 1));
            }
        } else {
            proof {
                if bit_sz > 4 {
                    lemma_pow2_strictly_increases(4, bit_sz as nat);
                    lemma2_to64();
                }
                assert(!(blk.bits > 4));
            }
        }
        if addr_end - cur > sz {
            cur = cur + sz;
        } else {
            cur = addr_end;
        }
    }
    proof {
        assert(carve_installed(cur, addr_end) =~= Seq::<UBlock>::empty());
    }
}

/// One firmware-reported bank of physical RAM.
#[derive(Clone, Copy, PartialEq, Eq, Structural, Debug)]
pub struct MemBank {
    pub start: u64,
    pub size: u64,
}

/// A bank's usable start: its first 4 KiB are reserved against null
/// dereferences and firmware stubs.
pub open spec fn bank_mem_start(b: MemBank) -> u64 {
    if b.start < 0x1000 {
        0x1000
    } else {
        b.start
    }
}

/// The untyped blocks installed for one bank: the part strictly below
/// the kernel image, then the part strictly above it.
pub open spec fn bank_installed(b: MemBank, kernel_base: u64, kernel_top: u64) -> Seq<UBlock> {
    let ms = bank_mem_start(b);
    let me = (b.start + b.size) as u64;
    let below = if ms < kernel_base {
        carve_installed(
            ms,
            if me < kernel_base {
                me
            } else {
                kernel_base
            },
        )
    } else {
        Seq::<UBlock>::empty()
    };
    let above = if me > kernel_top {
        carve_installed(
            if ms > kernel_top {
                ms
            } else {
                kernel_top
            },
            me,
        )
    } else {
        Seq::<UBlock>::empty()
    };
    below + above
}

/// The untyped blocks installed for a list of banks, in bank order.
pub open spec fn banks_installed(banks: Seq<MemBank>, kernel_base: u64, kernel_top: u64) -> Seq<
    UBlock,
>
    decreases banks.len(),
{
    if banks.len() == 0 {
        Seq::empty()
    } else {
        bank_installed(banks[0], kernel_base, kernel_top) + banks_installed(
            banks.drop_first(),
            kernel_base,
            kernel_top,
        )
    }
}

/// Builds the initial CSpace: carves every bank outside the kernel
/// image `[kernel_base, kernel_top)` into untyped caps from
/// [`SLOT_UNTYPED_START`] on, then writes the named slots — the
/// self-describing CNode cap, the monitor cap, the interrupt-controller
/// cap — and retypes the init TCB and its root page table out of the
/// first untyped.  Fails exactly when no untyped was installed.
pub fn initialize_init_cspace(
    cnode: &mut CNode,
    cur_free_slot: &mut usize,
    banks: &Vec<MemBank>,
    kernel_base: u64,
    kernel_top: u64,
    cnode_paddr: u64,
) -> (r: Result<(), BootError>)
    requires
        old(cnode)@.len() == INIT_CSPACE_SIZE,
        *old(cur_free_slot) == SLOT_UNTYPED_START,
        old(cnode)@[SLOT_UNTYPED_START as int] is Null,
        forall|i: int|
            0 <= i < banks@.len() ==> (#[trigger] banks@[i]).start + banks@[i].size
                <= 0x8000_0000_0000_0000,
        SLOT_UNTYPED_START + banks_installed(banks@, kernel_base, kernel_top).len()
            <= INIT_CSPACE_SIZE,
    ensures
        final(cnode)@.len() == INIT_CSPACE_SIZE,
        ({
            let ins = banks_installed(banks@, kernel_base, kernel_top);
            &&& *final(cur_free_slot) == SLOT_UNTYPED_START + ins.len()
            &&& forall|k: int|
                0 <= k < ins.len() ==> final(cnode)@[SLOT_UNTYPED_START + k] == untyped_cap(
                    ins[k],
                    false,
                )
            &&& (r is Ok <==> ins.len() > 0)
            &&& final(cnode)@[SLOT_INIT_CSPACE as int] == (CNodeEntry::CNode {
                base: cnode_paddr,
                radix_bits: crate::bits::align_bits(INIT_CSPACE_SIZE as u64) as u64,
                guard_bits: (64 - crate::bits::align_bits(INIT_CSPACE_SIZE as u64)) as u64,
                guard: 0,
            })
            &&& final(cnode)@[SLOT_MONITOR as int] == CNodeEntry::Monitor
            &&& final(cnode)@[SLOT_IRQ_CONTROLLER as int] == CNodeEntry::InterruptController
            &&& (r is Ok ==> final(cnode)@[SLOT_INIT_TCB as int] == CNodeEntry::Tcb
                && final(cnode)@[SLOT_INIT_L1_PAGE_TABLE as int] == CNodeEntry::VTable)
            &&& (r is Err ==> r == Err::<(), BootError>(BootError::InvalidUntyped)
                && final(cnode)@[SLOT_INIT_TCB as int] == old(cnode)@[SLOT_INIT_TCB as int]
                && final(cnode)@[SLOT_INIT_L1_PAGE_TABLE as int] == old(
                cnode,
            )@[SLOT_INIT_L1_PAGE_TABLE as int])
            &&& forall|s: int|
                SLOT_UNTYPED_START + ins.len() <= s < INIT_CSPACE_SIZE ==> final(cnode)@[s] == old(
                    cnode,
                )@[s]
        }),
{
    let ghost total = banks_installed(banks@, kernel_base, kernel_top);
    let ghost cptr0 = *cur_free_slot;
    proof {
        assert(banks@.skip(0) =~= banks@);
        assert(total.skip(0) =~= total);
    }
    let mut i: usize = 0;
    while i < banks.len()
        invariant
            i <= banks@.len(),
            cnode@.len() == INIT_CSPACE_SIZE,
            old(cnode)@.len() == INIT_CSPACE_SIZE,
            total == banks_installed(banks@, kernel_base, kernel_top),
            forall|j: int|
                0 <= j < banks@.len() ==> (#[trigger] banks@[j]).start + banks@[j].size
                    <= 0x8000_0000_0000_0000,
            SLOT_UNTYPED_START == cptr0,
            cptr0 <= *cur_free_slot,
            *cur_free_slot - cptr0 + banks_installed(
                banks@.skip(i as int),
                kernel_base,
                kernel_top,
            ).len() == total.len(),
            banks_installed(banks@.skip(i as int), kernel_base, kernel_top) == total.skip(
                *cur_free_slot - cptr0,
            ),
            cptr0 + total.len() <= INIT_CSPACE_SIZE,
            forall|k: int|
                0 <= k < *cur_free_slot - cptr0 ==> cnode@[cptr0 + k] == untyped_cap(
                    total[k],
                    false,
                ),
            forall|s: int|
                0 <= s < cnode@.len() && !(cptr0 <= s < *cur_free_slot) ==> cnode@[s] == old(
                    cnode,
                )@[s],
        decreases banks@.len() - i,
    {
        let bank = banks[i];
        let mem_start = if bank.start < 0x1000 {
            0x1000
        } else {
            bank.start
        };
        let mem_end = bank.start + bank.size;
        let ghost rem = banks_installed(banks@.skip(i as int), kernel_base, kernel_top);
        let ghost bank_blocks = bank_installed(banks@[i as int], kernel_base, kernel_top);
        let ghost rest_banks = banks_installed(banks@.skip(i as int + 1), kernel_base, kernel_top);
        let ghost below = if bank_mem_start(banks@[i as int]) < kernel_base {
            carve_installed(
                bank_mem_start(banks@[i as int]),
                if mem_end < kernel_base {
                    mem_end
                } else {
                    kernel_base
                },
            )
        } else {
            Seq::<UBlock>::empty()
        };
        let ghost above = if mem_end > kernel_top {
            carve_installed(
                if mem_start > kernel_top {
                    mem_start
                } else {
                    kernel_top
                },
                mem_end,
            )
        } else {
            Seq::<UBlock>::empty()
        };
        proof {
            assert(banks@.skip(i as int)[0] == banks@[i as int]);
            assert(banks@.skip(i as int).drop_first() =~= banks@.skip(i as int + 1));
            assert(rem == bank_blocks + rest_banks);
            assert(bank_mem_start(banks@[i as int]) == mem_start);
            assert(bank_blocks == below + above);
        }
        let ghost w0 = *cur_free_slot;
        if mem_start < kernel_base {
            let w_end = if mem_end < kernel_base {
                mem_end
            } else {
                kernel_base
            };
            proof {
                assert(below.len() <= rem.len());
                assert(*cur_free_slot + rem.len() <= INIT_CSPACE_SIZE);
            }
            init_cspace_populate_untyped(mem_start, w_end, cnode, cur_free_slot, false);
        }
        proof {
            assert(*cur_free_slot == w0 + below.len());
            assert forall|j: int| 0 <= j < below.len() implies #[trigger] cnode@[w0 + j]
                == untyped_cap(total[w0 - cptr0 + j], false) by {
                assert(total.skip(w0 - cptr0)[j] == total[w0 - cptr0 + j]);
                assert(rem[j] == below[j]);
            }
        }
        let ghost w1 = *cur_free_slot;
        if mem_end > kernel_top {
            let w_start = if mem_start > kernel_top {
                mem_start
            } else {
                kernel_top
            };
            proof {
                assert(below.len() + above.len() <= rem.len());
                assert(*cur_free_slot + above.len() <= INIT_CSPACE_SIZE);
            }
            init_cspace_populate_untyped(w_start, mem_end, cnode, cur_free_slot, false);
        }
        proof {
            assert(*cur_free_slot == w1 + above.len());
            assert forall|j: int| 0 <= j < above.len() implies #[trigger] cnode@[w1 + j]
                == untyped_cap(total[w1 - cptr0 + j], false) by {
                assert(total.skip(w0 - cptr0)[below.len() + j] == total[w0 - cptr0 + below.len()
                    + j]);
                assert(rem[below.len() + j] == above[j]);
            }
            assert forall|k: int| 0 <= k < *cur_free_slot - cptr0 implies #[trigger] cnode@[cptr0
                + k] == untyped_cap(total[k], false) by {
                if k >= w1 - cptr0 {
                    assert(cnode@[w1 + (k - (w1 - cptr0))] == untyped_cap(total[k], false));
                } else if k >= w0 - cptr0 {
                    assert(cnode@[w0 + (k - (w0 - cptr0))] == untyped_cap(total[k], false));
                }
            }
            assert(banks_installed(banks@.skip(i as int + 1), kernel_base, kernel_top) =~= total
                .skip(*cur_free_slot - cptr0)) by {
                assert(rem == total.skip(w0 - cptr0));
                assert(rem.skip(bank_blocks.len() as int) =~= rest_banks);
                assert(total.skip(w0 - cptr0).skip(bank_blocks.len() as int) =~= total.skip(
                    w0 - cptr0 + bank_blocks.len(),
                ));
            }
        }
        i = i + 1;
    }
    proof {
        assert(banks@.skip(banks@.len() as int) =~= Seq::<MemBank>::empty());
        assert(banks_installed(banks@.skip(banks@.len() as int), kernel_base, kernel_top)
            =~= Seq::<UBlock>::empty());
        assert(*cur_free_slot == cptr0 + total.len());
    }
    let radix = crate::bits::align_bits_u64(cnode.slots.len() as u64);
    cnode.slots[SLOT_INIT_CSPACE] = CNodeEntry::CNode {
        base: cnode_paddr,
        radix_bits: radix,
        guard_bits: 64 - radix,
        guard: 0,
    };
    cnode.slots[SLOT_MONITOR] = CNodeEntry::Monitor;
    cnode.slots[SLOT_IRQ_CONTROLLER] = CNodeEntry::InterruptController;
    proof {
        if total.len() > 0 {
            assert(cnode@[cptr0 + 0] == untyped_cap(total[0], false));
            assert(cnode@[SLOT_UNTYPED_START as int] is Untyped);
        } else {
            assert(cnode@[SLOT_UNTYPED_START as int] == old(cnode)@[SLOT_UNTYPED_START as int]);
        }
    }
    match alloc_obj(cnode, SLOT_UNTYPED_START, 12, SLOT_INIT_TCB, ObjType::Tcb) {
        Ok(()) => {},
        Err(e) => {
            return Err(e);
        },
    }
    match alloc_obj(cnode, SLOT_UNTYPED_START, 12, SLOT_INIT_L1_PAGE_TABLE, ObjType::VTable) {
        Ok(()) => {},
        Err(e) => {
            return Err(e);
        },
    }
    Ok(())
}

/// Counts the blocks the carver would install over `[addr_start,
/// addr_end)`, giving up as soon as the count exceeds `cap`.
fn count_window_untypeds(addr_start: u64, addr_end: u64, cap: usize) -> (r: Option<usize>)
    requires
        0 < addr_start,
        addr_end <= 0x8000_0000_0000_0000,
    ensures
        r matches Some(n) ==> n == carve_installed(addr_start, addr_end).len() && n <= cap,
        r is None ==> carve_installed(addr_start, addr_end).len() > cap,
{
    let ghost total = carve_installed(addr_start, addr_end);
    let mut c: usize = 0;
    let mut cur: u64 = addr_start;
    while cur < addr_end
        invariant
            0 < cur,
            addr_end <= 0x8000_0000_0000_0000,
            total == carve_installed(addr_start, addr_end),
            c + carve_installed(cur, addr_end).len() == total.len(),
            c <= cap,
        decreases addr_end - cur,
    {
        let bit_sz = block_bits(cur, addr_end);
        proof {
            lemma_step_bounds(cur, addr_end);
        }
        let sz = pow2_u64(bit_sz);
        let ghost blk = UBlock { base: cur as int, bits: bit_sz as nat };
        let ghost rest_all = if cur + sz <= addr_end {
            carve_seq((cur + sz) as u64, addr_end)
        } else {
            Seq::<UBlock>::empty()
        };
        proof {
            assert(carve_seq(cur, addr_end) == seq![blk] + rest_all);
            lemma_keep_unfold(blk, rest_all);
            if !(cur + sz <= addr_end) {
                assert(keep_blocks(rest_all) =~= carve_installed((cur + sz) as u64, addr_end));
            }
            assert(carve_installed(cur, addr_end) == if blk.bits > 4 {
                seq![blk] + carve_installed((cur + sz) as u64, addr_end)
            } else {
                carve_installed((cur + sz) as u64, addr_end)
            });
        }
        if sz > 16 {
            proof {
                lemma2_to64();
                if bit_sz <= 4 {
                    lemma_pow2_strictly_increases(bit_sz as nat, 5);
                }
                assert(blk.bits > 4);
            }
            if c == cap {
                return None;
            }
            c = c + 1;
        } else {
            proof {
                if bit_sz > 4 {
                    lemma_pow2_strictly_increases(4, bit_sz as nat);
                    lemma2_to64();
                }
                assert(!(blk.bits > 4));
            }
        }
        if addr_end - cur > sz {
            cur = cur + sz;
        } else {
            cur = addr_end;
        }
    }
    proof {
        assert(carve_installed(cur, addr_end) =~= Seq::<UBlock>::empty());
    }
    Some(c)
}

/// Counts the untyped caps that carving `banks` outside the kernel
/// image would install, giving up as soon as the count exceeds `cap`:
/// the executable test for the slot capacity that
/// [`initialize_init_cspace`] requires of its caller.
pub fn count_untypeds_within(
    banks: &Vec<MemBank>,
    kernel_base: u64,
    kernel_top: u64,
    cap: usize,
) -> (r: Option<usize>)
    requires
        forall|i: int|
            0 <= i < banks@.len() ==> (#[trigger] banks@[i]).start + banks@[i].size
                <= 0x8000_0000_0000_0000,
    ensures
        r matches Some(n) ==> n == banks_installed(banks@, kernel_base, kernel_top).len() && n
            <= cap,
        r is None ==> banks_installed(banks@, kernel_base, kernel_top).len() > cap,
{
    let ghost total = banks_installed(banks@, kernel_base, kernel_top);
    proof {
        assert(banks@.skip(0) =~= banks@);
    }
    let mut c: usize = 0;
    let mut i: usize = 0;
    while i < banks.len()
        invariant
            i <= banks@.len(),
            total == banks_installed(banks@, kernel_base, kernel_top),
            forall|j: int|
                0 <= j < banks@.len() ==> (#[trigger] banks@[j]).start + banks@[j].size
                    <= 0x8000_0000_0000_0000,
            c + banks_installed(banks@.skip(i as int), kernel_base, kernel_top).len()
                == total.len(),
            c <= cap,
        decreases banks@.len() - i,
    {
        let bank = banks[i];
        let mem_start = if bank.start < 0x1000 {
            0x1000
        } else {
            bank.start
        };
        let mem_end = bank.start + bank.size;
        let ghost rem = banks_installed(banks@.skip(i as int), kernel_base, kernel_top);
        let ghost bank_blocks = bank_installed(banks@[i as int], kernel_base, kernel_top);
        let ghost below = if bank_mem_start(banks@[i as int]) < kernel_base {
            carve_installed(
                bank_mem_start(banks@[i as int]),
                if mem_end < kernel_base {
                    mem_end
                } else {
                    kernel_base
                },
            )
        } else {
            Seq::<UBlock>::empty()
        };
        let ghost above = if mem_end > kernel_top {
            carve_installed(
                if mem_start > kernel_top {
                    mem_start
                } else {
                    kernel_top
                },
                mem_end,
            )
        } else {
            Seq::<UBlock>::empty()
        };
        proof {
            assert(banks@.skip(i as int)[0] == banks@[i as int]);
            assert(banks@.skip(i as int).drop_first() =~= banks@.skip(i as int + 1));
            assert(rem == bank_blocks + banks_installed(
                banks@.skip(i as int + 1),
                kernel_base,
                kernel_top,
            ));
            assert(bank_mem_start(banks@[i as int]) == mem_start);
            assert(bank_blocks == below + above);
        }
        if mem_start < kernel_base {
            let w_end = if mem_end < kernel_base {
                mem_end
            } else {
                kernel_base
            };
            match count_window_untypeds(mem_start, w_end, cap) {
                Some(n) => {
                    if n > cap - c {
                        return None;
                    }
                    c = c + n;
                },
                None => {
                    return None;
                },
            }
        }
        if mem_end > kernel_top {
            let w_start = if mem_start > kernel_top {
                mem_start
            } else {
                kernel_top
            };
            match count_window_untypeds(w_start, mem_end, cap) {
                Some(n) => {
                    if n > cap - c {
                        return None;
                    }
                    c = c + n;
                },
                None => {
                    return None;
                },
            }
        }
        i = i + 1;
    }
    proof {
        assert(banks@.skip(banks@.len() as int) =~= Seq::<MemBank>::empty());
        assert(banks_installed(banks@.skip(banks@.len() as int), kernel_base, kernel_top)
            =~= Seq::<UBlock>::empty());
    }
    Some(c)
}

} // verus!
