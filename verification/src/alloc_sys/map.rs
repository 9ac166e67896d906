//! The arena: one contiguous memory region split into a payload sub-region
//! and a descriptor sub-region, with the allocate/free/resize algorithm over
//! the sorted table of live blocks.
//!
//! Addresses are carried as plain integers. The arena owns the payload bytes
//! and performs the same address arithmetic the kernel performs on the raw
//! region: the base is rounded up to the maximum supported alignment, a tenth
//! of the aligned length is reserved as descriptor storage placed directly
//! behind the payload (never obtained through the allocator itself), and the
//! rest is the payload addressed by block offsets.

use vstd::prelude::*;

use crate::alloc_sys::block::MemoryBlock;
use crate::utils::heap_array::HeapArray;
use crate::utils::heap_vec::HeapVec;
use crate::utils::non_zero_rem::NonZeroRem;

verus! {

use vstd::arithmetic::div_mod::{lemma_fundamental_div_mod, lemma_mod_multiples_basic};
use vstd::arithmetic::power::pow;
use vstd::arithmetic::power2::{
    is_pow2,
    is_pow2_equiv,
    lemma2_to64,
    lemma_pow2_adds,
    lemma_pow2_strictly_increases,
    pow2,
};

/// The largest alignment the allocator honors.
pub const MAX_ALIGN: usize = 4096;

/// The reserved descriptor sub-region is this fraction (one tenth) of the
/// aligned region length.
pub const BLOCKS_BUFFER_DIVISOR: usize = 10;

/// Bytes one block descriptor occupies in the descriptor sub-region on the
/// 64-bit target: a flag plus two machine words, padded to word alignment.
pub const BLOCK_DESCRIPTOR_BYTES: usize = 24;

/// Adjacent or not, any two descriptors of the table are strictly ascending
/// by start and non-overlapping.
pub open spec fn table_ordered(blocks: Seq<MemoryBlock>) -> bool {
    forall|i: int, j: int|
        0 <= i < j < blocks.len() ==> (#[trigger] blocks[i]).end_spec()
            <= (#[trigger] blocks[j]).start && blocks[i].start < blocks[j].start
}

/// The table invariant: sorted, non-overlapping, every descriptor live and
/// inside the payload region.
pub open spec fn table_wf(blocks: Seq<MemoryBlock>, plen: int) -> bool {
    &&& table_ordered(blocks)
    &&& forall|i: int| 0 <= i < blocks.len() ==> (#[trigger] blocks[i]).is_active
    &&& forall|i: int| 0 <= i < blocks.len() ==> (#[trigger] blocks[i]).start < plen
    &&& forall|i: int| 0 <= i < blocks.len() ==> (#[trigger] blocks[i]).end_spec() <= plen
}

/// Number of descriptors whose start lies strictly below `start`: in a sorted
/// table, the slot at which a block with that start is inserted.
pub open spec fn insert_position(blocks: Seq<MemoryBlock>, start: int) -> int
    decreases blocks.len(),
{
    if blocks.len() == 0 {
        0
    } else if blocks[0].start < start {
        1 + insert_position(blocks.drop_first(), start)
    } else {
        0
    }
}

/// Index of the first descriptor with the given start, where one exists.
pub open spec fn index_of_start(blocks: Seq<MemoryBlock>, start: int) -> Option<int>
    decreases blocks.len(),
{
    if blocks.len() == 0 {
        None
    } else if blocks[0].start == start {
        Some(0)
    } else {
        match index_of_start(blocks.drop_first(), start) {
            None => None,
            Some(i) => Some(i + 1),
        }
    }
}

/// Dropping the head of a sorted table leaves a sorted table.
proof fn lemma_ordered_drop_first(blocks: Seq<MemoryBlock>)
    requires
        table_ordered(blocks),
        blocks.len() > 0,
    ensures
        table_ordered(blocks.drop_first()),
{
    let rest = blocks.drop_first();
    assert forall|a: int, b: int|
        0 <= a < b < rest.len() implies (#[trigger] rest[a]).end_spec() <= (
    #[trigger] rest[b]).start && rest[a].start < rest[b].start by {
        assert(rest[a] == blocks[a + 1]);
        assert(rest[b] == blocks[b + 1]);
    }
}

/// `insert_position` counts a prefix of the table, so it lies within the
/// table bounds.
proof fn lemma_insert_position_bounds(blocks: Seq<MemoryBlock>, start: int)
    ensures
        0 <= insert_position(blocks, start) <= blocks.len(),
    decreases blocks.len(),
{
    if blocks.len() > 0 && blocks[0].start < start {
        lemma_insert_position_bounds(blocks.drop_first(), start);
    }
}

/// The slot a search narrowed the sorted table down to is the insertion
/// position, and holds the searched start exactly when some descriptor does.
proof fn lemma_search_characterizes(blocks: Seq<MemoryBlock>, start: int, idx: int)
    requires
        table_ordered(blocks),
        0 <= idx <= blocks.len(),
        forall|i: int| 0 <= i < idx ==> (#[trigger] blocks[i]).start < start,
        forall|i: int| idx <= i < blocks.len() ==> (#[trigger] blocks[i]).start >= start,
    ensures
        insert_position(blocks, start) == idx,
        idx < blocks.len() && blocks[idx].start == start ==> index_of_start(blocks, start)
            == Some(idx),
        !(idx < blocks.len() && blocks[idx].start == start) ==> index_of_start(blocks, start)
            is None,
    decreases blocks.len(),
{
    if blocks.len() > 0 {
        let rest = blocks.drop_first();
        lemma_ordered_drop_first(blocks);
        assert(forall|i: int| 0 <= i < rest.len() ==> rest[i] == blocks[i + 1]);
        if blocks[0].start < start {
            assert(blocks[0].start < start);
            assert(idx >= 1);
            assert(forall|i: int| 0 <= i < idx - 1 ==> (#[trigger] rest[i]).start < start);
            assert(forall|i: int|
                idx - 1 <= i < rest.len() ==> (#[trigger] rest[i]).start >= start);
            lemma_search_characterizes(rest, start, idx - 1);
            if idx < blocks.len() {
                assert(blocks[idx] == rest[idx - 1]);
            }
        } else if blocks[0].start == start {
            assert(idx == 0);
        } else {
            assert(idx == 0);
            assert forall|i: int| 0 <= i < rest.len() implies (#[trigger] rest[i]).start
                >= start by {
                assert(blocks[0].start < blocks[i + 1].start);
            }
            lemma_search_characterizes(rest, start, 0);
            assert(rest.len() > 0 ==> rest[0].start > start);
        }
    }
}

/// Where `index_of_start` finds a slot, that slot holds the searched start;
/// where it finds none, no slot holds it.
proof fn lemma_index_of_start_found(blocks: Seq<MemoryBlock>, start: int)
    ensures
        index_of_start(blocks, start) matches Some(i) ==> 0 <= i < blocks.len()
            && blocks[i].start == start,
        index_of_start(blocks, start) is None ==> forall|i: int|
            0 <= i < blocks.len() ==> (#[trigger] blocks[i]).start != start,
    decreases blocks.len(),
{
    if blocks.len() > 0 && blocks[0].start != start {
        lemma_index_of_start_found(blocks.drop_first(), start);
        assert forall|i: int|
            index_of_start(blocks, start) is None && 0 <= i < blocks.len() implies (
        #[trigger] blocks[i]).start != start by {
            if i > 0 {
                assert(blocks.drop_first()[i - 1] == blocks[i]);
            }
        }
    }
}

/// Worst-case request size used by every fit check: the requested size plus
/// the padding a worst-placed start could need for `align`.
pub open spec fn padded_size(size: int, align: int) -> int {
    size + align - 1
}

/// Offset `end` rounded up to the smallest multiple of `align` at or above
/// it; an already aligned end stays where it is.
pub open spec fn align_up(end: int, align: int) -> int {
    if end % align == 0 {
        end
    } else {
        end + align - end % align
    }
}

/// A placement candidate survives only where the block it describes starts
/// strictly past the block it was rounded up from, strictly below `bound`,
/// and ends at or before `bound`. A candidate that fails this (possible only
/// for zero-size requests at exact boundaries) is treated as exhaustion
/// rather than letting a block collide or escape its gap.
pub open spec fn checked_start(start: int, size: int, prev_start: int, bound: int) -> Option<
    int,
> {
    if prev_start < start && start < bound && start + size <= bound {
        Some(start)
    } else {
        None
    }
}

/// The last adjacent pair, among the first `k`, whose inter-block gap admits
/// the padded size. The scan keeps overwriting its candidate, so the last
/// sufficiently large gap in ascending order wins, not the first.
pub open spec fn last_fitting_gap(blocks: Seq<MemoryBlock>, k: int, padded: int) -> Option<int>
    decreases k,
{
    if k <= 0 {
        None
    } else if blocks[k].start - blocks[k - 1].end_spec() >= padded {
        Some(k - 1)
    } else {
        last_fitting_gap(blocks, k - 1, padded)
    }
}

/// Where `alloc` places a request, as an offset into the payload region:
/// offset zero on an empty table, else after the last block, else before the
/// first block, else in the last fitting inter-block gap. `None` stands for
/// a rejected request (too large, or alignment beyond `MAX_ALIGN`) or for
/// exhaustion.
pub open spec fn placement(blocks: Seq<MemoryBlock>, plen: int, size: int, align: int) -> Option<
    int,
> {
    if size >= plen || align > MAX_ALIGN {
        None
    } else if blocks.len() == 0 {
        Some(0)
    } else {
        let padded = padded_size(size, align);
        let lastb = blocks.last();
        if plen - lastb.end_spec() >= padded {
            checked_start(align_up(lastb.end_spec(), align), size, lastb.start as int, plen)
        } else if blocks[0].start >= padded {
            if blocks[0].start > 0 {
                Some(0)
            } else {
                None
            }
        } else {
            match last_fitting_gap(blocks, blocks.len() - 1, padded) {
                None => None,
                Some(g) => checked_start(
                    align_up(blocks[g].end_spec(), align),
                    size,
                    blocks[g].start as int,
                    blocks[g + 1].start as int,
                ),
            }
        }
    }
}

/// The gap index the scan settles on really is a window of the table, and
/// its gap admits the padded size.
proof fn lemma_last_fitting_gap_props(blocks: Seq<MemoryBlock>, k: int, padded: int)
    requires
        k < blocks.len(),
    ensures
        last_fitting_gap(blocks, k, padded) matches Some(g) ==> 0 <= g < k && blocks[g
            + 1].start - blocks[g].end_spec() >= padded,
    decreases k,
{
    if k > 0 && blocks[k].start - blocks[k - 1].end_spec() < padded {
        lemma_last_fitting_gap_props(blocks, k - 1, padded);
    }
}

/// Rounding an offset up to an `align` boundary lands on a multiple of
/// `align`, at or above the offset and less than a full step beyond it.
proof fn lemma_align_up(end: int, align: int)
    requires
        end >= 0,
        align >= 1,
    ensures
        align_up(end, align) % align == 0,
        end <= align_up(end, align) < end + align,
{
    vstd::arithmetic::div_mod::lemma_mod_division_less_than_divisor(end, align);
    lemma_fundamental_div_mod(end, align);
    let q = end / align;
    if end % align != 0 {
        assert(align * (q + 1) == align * q + align) by (nonlinear_arith);
        assert(align_up(end, align) == align * (q + 1));
        lemma_mod_multiples_basic(q + 1, align);
    }
}

/// Validity of the placement decision over a well-formed table: the chosen
/// offset is aligned, the block it describes lies inside the payload, and it
/// collides and overlaps with no live block.
pub proof fn lemma_placement_valid(blocks: Seq<MemoryBlock>, plen: int, size: int, align: int)
    requires
        table_wf(blocks, plen),
        size >= 0,
        align >= 1,
    ensures
        placement(blocks, plen, size, align) matches Some(s) ==> {
            &&& 0 <= s < plen
            &&& s + size <= plen
            &&& s % align == 0
            &&& forall|i: int| 0 <= i < blocks.len() ==> (#[trigger] blocks[i]).start != s
            &&& forall|i: int|
                0 <= i < blocks.len() ==> ((#[trigger] blocks[i]).start < s ==> blocks[i].end_spec() <= s)
            &&& forall|i: int|
                0 <= i < blocks.len() ==> ((#[trigger] blocks[i]).start > s ==> s + size
                    <= blocks[i].start)
        },
{
    if size >= plen || align > MAX_ALIGN {
    } else if blocks.len() == 0 {
        vstd::arithmetic::div_mod::lemma_small_mod(0, align as nat);
    } else {
        let padded = padded_size(size, align);
        let n = blocks.len() - 1;
        let lastb = blocks[n];
        if plen - lastb.end_spec() >= padded {
            let s0 = align_up(lastb.end_spec(), align);
            lemma_align_up(lastb.end_spec(), align);
            if lastb.start < s0 && s0 < plen && s0 + size <= plen {
                assert forall|i: int| 0 <= i < blocks.len() implies (
                #[trigger] blocks[i]).end_spec() <= s0 && blocks[i].start < s0 by {
                    if i < n {
                        assert(blocks[i].end_spec() <= blocks[n].start);
                        assert(blocks[i].start < blocks[n].start);
                    }
                    assert(blocks[i].end_spec() <= lastb.end_spec());
                }
            }
        } else if blocks[0].start >= padded {
            if blocks[0].start > 0 {
                vstd::arithmetic::div_mod::lemma_small_mod(0, align as nat);
                assert forall|i: int| 0 <= i < blocks.len() implies (#[trigger] blocks[i]).start
                    >= padded && blocks[i].start > 0 by {
                    if i > 0 {
                        assert(blocks[0].start < blocks[i].start);
                    }
                }
            }
        } else {
            match last_fitting_gap(blocks, n, padded) {
                None => {},
                Some(g) => {
                    lemma_last_fitting_gap_props(blocks, n, padded);
                    let s0 = align_up(blocks[g].end_spec(), align);
                    lemma_align_up(blocks[g].end_spec(), align);
                    if blocks[g].start < s0 && s0 < blocks[g + 1].start && s0 + size <= blocks[g
                        + 1].start {
                        assert forall|i: int|
                            0 <= i <= g implies (#[trigger] blocks[i]).end_spec() <= s0 && blocks[i].start < s0 by {
                            if i < g {
                                assert(blocks[i].end_spec() <= blocks[g as int].start);
                                assert(blocks[i].start < blocks[g as int].start);
                            }
                            assert(blocks[i].end_spec() <= blocks[g as int].end_spec());
                        }
                        assert forall|i: int|
                            g < i < blocks.len() implies (#[trigger] blocks[i]).start >= blocks[g
                            + 1].start by {
                            if i > g + 1 {
                                assert(blocks[g + 1].start < blocks[i].start);
                            }
                        }
                    }
                },
            }
        }
    }
}

/// The caller's base address rounded up to the next `MAX_ALIGN` boundary;
/// an already aligned base stays where it is, since the zero-free remainder
/// makes the padding zero there.
pub open spec fn aligned_region_base(ptr: int) -> int {
    if ptr % (MAX_ALIGN as int) == 0 {
        ptr
    } else {
        ptr + MAX_ALIGN - ptr % (MAX_ALIGN as int)
    }
}

/// Region length left once the base is aligned.
pub open spec fn region_aligned_len(ptr: int, len: int) -> int {
    len - (aligned_region_base(ptr) - ptr)
}

/// Bytes reserved at the region tail as descriptor storage.
pub open spec fn region_reserved_len(ptr: int, len: int) -> int {
    region_aligned_len(ptr, len) / (BLOCKS_BUFFER_DIVISOR as int)
}

/// Byte length of the payload sub-region.
pub open spec fn region_payload_len(ptr: int, len: int) -> int {
    region_aligned_len(ptr, len) - region_reserved_len(ptr, len)
}

/// Descriptor slots the reserved bytes hold.
pub open spec fn region_table_cap(ptr: int, len: int) -> int {
    region_reserved_len(ptr, len) / (BLOCK_DESCRIPTOR_BYTES as int)
}

/// A region the arena can be built from: nonzero base, address arithmetic
/// within the machine word, and room left past the aligned base. The
/// constructor halts on anything smaller, so these inputs are excluded.
pub open spec fn valid_region(ptr: int, len: int) -> bool {
    &&& ptr >= 1
    &&& ptr + len <= usize::MAX
    &&& aligned_region_base(ptr) < ptr + len
}

/// The sub-region split never moves: base, payload length and descriptor
/// capacity are fixed at construction.
pub open spec fn same_region(pre: MemoryMap, post: MemoryMap) -> bool {
    &&& post.payload_base() == pre.payload_base()
    &&& post.payload_len() == pre.payload_len()
    &&& post.table_cap() == pre.table_cap()
}

/// Everything `alloc` does: where the placement decision rejects the request
/// or finds no room, nothing changes and no pointer comes back; where it
/// yields an offset, the new descriptor enters the table at its sorted slot,
/// a zeroed request clears exactly the placed bytes, and the returned
/// pointer is the payload base plus the offset.
pub open spec fn alloc_spec(
    pre: MemoryMap,
    post: MemoryMap,
    size: int,
    align: int,
    zeroed: bool,
    r: Option<usize>,
) -> bool {
    &&& same_region(pre, post)
    &&& match placement(pre.table(), pre.payload_len(), size, align) {
        None => r is None && post.table() == pre.table() && post.payload() == pre.payload(),
        Some(start) => {
            &&& r == Some((pre.payload_base() + start) as usize)
            &&& post.table() == pre.table().insert(
                insert_position(pre.table(), start),
                MemoryBlock { is_active: true, start: start as usize, size: size as usize },
            )
            &&& if zeroed {
                &&& post.payload().len() == pre.payload().len()
                &&& forall|j: int| start <= j < start + size ==> post.payload()[j] == 0
                &&& forall|j: int|
                    0 <= j < pre.payload().len() && !(start <= j < start + size)
                        ==> post.payload()[j] == pre.payload()[j]
            } else {
                post.payload() == pre.payload()
            }
        },
    }
}

/// Everything `dealloc` does: a pointer below the payload base is foreign
/// and ignored; otherwise the descriptor whose start matches the pointer's
/// offset leaves the table, and a start the table never tracked is ignored.
pub open spec fn dealloc_spec(pre: MemoryMap, post: MemoryMap, ptr: int) -> bool {
    &&& same_region(pre, post)
    &&& post.payload() == pre.payload()
    &&& if ptr < pre.payload_base() {
        post.table() == pre.table()
    } else {
        match index_of_start(pre.table(), ptr - pre.payload_base()) {
            Some(i) => post.table() == pre.table().remove(i),
            None => post.table() == pre.table(),
        }
    }
}

/// The table after a relocating resize: the new block enters at its sorted
/// slot while the old descriptor at `pos` leaves, its index shifted by one
/// where the insert landed at or before it.
pub open spec fn relocated_table(blocks: Seq<MemoryBlock>, pos: int, nb: MemoryBlock) -> Seq<
    MemoryBlock,
> {
    let ip = insert_position(blocks, nb.start as int);
    let inserted = blocks.insert(ip, nb);
    if ip <= pos {
        inserted.remove(pos + 1)
    } else {
        inserted.remove(pos)
    }
}

/// Everything `realloc` does. A foreign or untracked pointer is ignored.
/// Where the span from the block's start up to the next block (or the
/// payload end) covers the new size, the descriptor alone is resized in
/// place and the pointer comes back unchanged. Otherwise a fresh block is
/// placed as `alloc` places it, the smaller of the old and new sizes is
/// copied forward, and the old block is released; where nothing fits, the
/// original block stands untouched.
pub open spec fn realloc_spec(
    pre: MemoryMap,
    post: MemoryMap,
    ptr: int,
    size: int,
    align: int,
    r: Option<usize>,
) -> bool {
    &&& same_region(pre, post)
    &&& if ptr < pre.payload_base() {
        r is None && post.table() == pre.table() && post.payload() == pre.payload()
    } else {
        let s = ptr - pre.payload_base();
        match index_of_start(pre.table(), s) {
            None => r is None && post.table() == pre.table() && post.payload() == pre.payload(),
            Some(pos) => {
                let oldb = pre.table()[pos];
                let bound = if pos + 1 < pre.table().len() {
                    pre.table()[pos + 1].start as int
                } else {
                    pre.payload_len()
                };
                if bound - s >= size {
                    &&& r == Some(ptr as usize)
                    &&& post.table() == pre.table().update(
                        pos,
                        MemoryBlock { is_active: true, start: s as usize, size: size as usize },
                    )
                    &&& post.payload() == pre.payload()
                } else {
                    match placement(pre.table(), pre.payload_len(), size, align) {
                        None => r is None && post.table() == pre.table() && post.payload()
                            == pre.payload(),
                        Some(ns) => {
                            let copy = if oldb.size <= size {
                                oldb.size as int
                            } else {
                                size
                            };
                            &&& r == Some((pre.payload_base() + ns) as usize)
                            &&& post.table() == relocated_table(
                                pre.table(),
                                pos,
                                MemoryBlock {
                                    is_active: true,
                                    start: ns as usize,
                                    size: size as usize,
                                },
                            )
                            &&& post.payload().len() == pre.payload().len()
                            &&& forall|j: int|
                                0 <= j < copy ==> #[trigger] post.payload()[ns + j]
                                    == pre.payload()[s + j]
                            &&& forall|j: int|
                                0 <= j < pre.payload().len() && !(ns <= j < ns + copy)
                                    ==> post.payload()[j] == pre.payload()[j]
                        },
                    }
                }
            },
        }
    }
}

/// In a sorted table the descriptor holding a given start is unique, so
/// `index_of_start` finds exactly the slot known to hold it.
proof fn lemma_index_of_unique(blocks: Seq<MemoryBlock>, start: int, p: int)
    requires
        table_ordered(blocks),
        0 <= p < blocks.len(),
        blocks[p].start == start,
    ensures
        index_of_start(blocks, start) == Some(p),
{
    lemma_index_of_start_found(blocks, start);
    match index_of_start(blocks, start) {
        None => {
            assert(blocks[p].start != start);
        },
        Some(i0) => {
            if i0 < p {
                assert(blocks[i0].start < blocks[p].start);
            } else if i0 > p {
                assert(blocks[p].start < blocks[i0].start);
            }
        },
    }
}

/// The arena: payload bytes standing at an aligned base address, plus the
/// sorted table of live blocks.
pub struct MemoryMap {
    buffer: HeapArray<u8>,
    blocks: HeapVec<MemoryBlock>,
}

impl MemoryMap {
    /// Address of the first payload byte.
    pub closed spec fn payload_base(&self) -> int {
        self.buffer.base_spec() as int
    }

    /// Byte length of the payload sub-region.
    pub closed spec fn payload_len(&self) -> int {
        self.buffer@.len() as int
    }

    /// The payload bytes, indexed by block offset.
    pub closed spec fn payload(&self) -> Seq<u8> {
        self.buffer@
    }

    /// The live block descriptors, ascending by start.
    pub closed spec fn table(&self) -> Seq<MemoryBlock> {
        self.blocks@
    }

    /// Fixed descriptor capacity carved out at construction.
    pub closed spec fn table_cap(&self) -> int {
        self.blocks.cap_spec() as int
    }

    /// The arena invariant: a well-formed table over a payload that stands at
    /// a nonzero, maximally aligned base, with all address arithmetic free of
    /// overflow.
    pub open spec fn wf(&self) -> bool {
        &&& table_wf(self.table(), self.payload_len())
        &&& self.table().len() <= self.table_cap()
        &&& self.payload_len() == self.payload().len()
        &&& self.payload_base() % (MAX_ALIGN as int) == 0
        &&& self.payload_base() >= MAX_ALIGN
        &&& self.payload_base() + self.payload_len() <= usize::MAX
    }

    /// Binary search over the sorted table: the insertion slot for `start`,
    /// and whether that slot already holds a descriptor with that start.
    fn find_slot(&self, start: usize) -> (r: (bool, usize))
        requires
            table_ordered(self.table()),
        ensures
            r.1 as int == insert_position(self.table(), start as int),
            r.0 <==> index_of_start(self.table(), start as int) is Some,
            r.0 ==> index_of_start(self.table(), start as int) == Some(r.1 as int),
    {
        let mut lo: usize = 0;
        let mut hi: usize = self.blocks.len();
        while lo < hi
            invariant
                table_ordered(self.table()),
                0 <= lo <= hi <= self.table().len(),
                forall|i: int| 0 <= i < lo ==> (#[trigger] self.table()[i]).start < start,
                forall|i: int|
                    hi <= i < self.table().len() ==> (#[trigger] self.table()[i]).start > start,
            decreases hi - lo,
        {
            let mid = lo + (hi - lo) / 2;
            let b = self.blocks.get(mid).unwrap();
            if b.start < start {
                assert forall|i: int| 0 <= i < mid + 1 implies (#[trigger] self.table()[i]).start
                    < start by {
                    if i < mid {
                        assert(self.table()[i].end_spec() <= self.table()[mid as int].start);
                    }
                }
                lo = mid + 1;
            } else if b.start > start {
                assert forall|i: int|
                    mid <= i < self.table().len() implies (#[trigger] self.table()[i]).start
                    > start by {
                    if i > mid {
                        assert(self.table()[mid as int].start < self.table()[i].start);
                    }
                }
                hi = mid;
            } else {
                proof {
                    assert forall|i: int| 0 <= i < mid implies (#[trigger] self.table()[i]).start
                        < start by {
                        assert(self.table()[i].start < self.table()[mid as int].start);
                    }
                    assert forall|i: int|
                        mid <= i < self.table().len() implies (
                    #[trigger] self.table()[i]).start >= start by {
                        if i > mid {
                            assert(self.table()[mid as int].start < self.table()[i].start);
                        }
                    }
                    lemma_search_characterizes(self.table(), start as int, mid as int);
                }
                return (true, mid);
            }
        }
        proof {
            lemma_search_characterizes(self.table(), start as int, lo as int);
        }
        (false, lo)
    }

    /// Sorted insert. A start that collides with a live descriptor would be a
    /// fatal invariant violation (addresses never collide under correct arena
    /// logic), so colliding starts are excluded by precondition, as is a full
    /// table.
    fn insert_block(&mut self, block: MemoryBlock)
        requires
            old(self).wf(),
            old(self).table().len() < old(self).table_cap(),
            block.is_active,
            block.start < old(self).payload_len(),
            block.end_spec() <= old(self).payload_len(),
            forall|i: int|
                0 <= i < old(self).table().len() ==> (#[trigger] old(self).table()[i]).start
                    != block.start,
            forall|i: int|
                0 <= i < old(self).table().len() ==> ((#[trigger] old(self).table()[i]).start
                    < block.start ==> old(self).table()[i].end_spec() <= block.start),
            forall|i: int|
                0 <= i < old(self).table().len() ==> ((#[trigger] old(self).table()[i]).start
                    > block.start ==> block.end_spec() <= old(self).table()[i].start),
        ensures
            final(self).wf(),
            final(self).table() == old(self).table().insert(
                insert_position(old(self).table(), block.start as int),
                block,
            ),
            final(self).payload() == old(self).payload(),
            final(self).payload_base() == old(self).payload_base(),
            final(self).payload_len() == old(self).payload_len(),
            final(self).table_cap() == old(self).table_cap(),
    {
        let (found, position) = self.find_slot(block.start);
        proof {
            lemma_index_of_start_found(old(self).table(), block.start as int);
            assert(!found);
            lemma_insert_position_bounds(old(self).table(), block.start as int);
        }
        self.blocks.insert(position, block);
        proof {
            let pre = old(self).table();
            let post = self.table();
            let p = position as int;
            assert forall|i: int, j: int|
                0 <= i < j < post.len() implies (#[trigger] post[i]).end_spec() <= (
            #[trigger] post[j]).start && post[i].start < post[j].start by {
                let pi = if i < p {
                    pre[i]
                } else if i == p {
                    block
                } else {
                    pre[i - 1]
                };
                let pj = if j < p {
                    pre[j]
                } else if j == p {
                    block
                } else {
                    pre[j - 1]
                };
                assert(post[i] == pi);
                assert(post[j] == pj);
                if i < p && j == p {
                    assert(pre[i].start < block.start) by {
                        lemma_search_characterizes_converse(pre, block.start as int, p, i);
                    }
                } else if i == p && j > p {
                    assert(pre[j - 1].start >= block.start) by {
                        lemma_search_characterizes_converse(pre, block.start as int, p, j - 1);
                    }
                }
            }
            assert forall|i: int| 0 <= i < post.len() implies (#[trigger] post[i]).is_active
                && post[i].start < self.payload_len() && post[i].end_spec()
                <= self.payload_len() by {
                if i < p {
                    assert(post[i] == pre[i]);
                } else if i == p {
                    assert(post[i] == block);
                } else {
                    assert(post[i] == pre[i - 1]);
                }
            }
        }
    }

    /// Sorted remove. A start the table never tracked is a legitimate
    /// request and leaves the table untouched.
    fn remove_block(&mut self, block: MemoryBlock)
        requires
            old(self).wf(),
        ensures
            final(self).wf(),
            match index_of_start(old(self).table(), block.start as int) {
                Some(i) => final(self).table() == old(self).table().remove(i),
                None => final(self).table() == old(self).table(),
            },
            final(self).payload() == old(self).payload(),
            final(self).payload_base() == old(self).payload_base(),
            final(self).payload_len() == old(self).payload_len(),
            final(self).table_cap() == old(self).table_cap(),
    {
        let (found, position) = self.find_slot(block.start);
        if found {
            proof {
                lemma_index_of_start_found(old(self).table(), block.start as int);
            }
            self.blocks.remove(position);
            proof {
                let pre = old(self).table();
                let post = self.table();
                let p = position as int;
                assert forall|i: int, j: int|
                    0 <= i < j < post.len() implies (#[trigger] post[i]).end_spec() <= (
                #[trigger] post[j]).start && post[i].start < post[j].start by {
                    let i0 = if i < p {
                        i
                    } else {
                        i + 1
                    };
                    let j0 = if j < p {
                        j
                    } else {
                        j + 1
                    };
                    assert(post[i] == pre[i0]);
                    assert(post[j] == pre[j0]);
                }
                assert forall|i: int| 0 <= i < post.len() implies (#[trigger] post[i]).is_active
                    && post[i].start < self.payload_len() && post[i].end_spec()
                    <= self.payload_len() by {
                    if i < p {
                        assert(post[i] == pre[i]);
                    } else {
                        assert(post[i] == pre[i + 1]);
                    }
                }
            }
        }
    }
}

impl MemoryMap {
    /// Builds the arena over the caller's region: rounds the base up to the
    /// next `MAX_ALIGN` boundary, reserves the tail tenth of the aligned
    /// length as descriptor storage placed directly behind the payload by
    /// address arithmetic (never through the allocator itself), and leaves
    /// the rest as a zero-filled payload.
    pub fn new(ptr: usize, len: usize) -> (r: Self)
        requires
            valid_region(ptr as int, len as int),
        ensures
            r.wf(),
            r.payload_base() == aligned_region_base(ptr as int),
            r.payload_len() == region_payload_len(ptr as int, len as int),
            r.table_cap() == region_table_cap(ptr as int, len as int),
            r.table().len() == 0,
            forall|j: int| 0 <= j < r.payload().len() ==> r.payload()[j] == 0,
    {
        let rem = ptr.non_zero_rem(MAX_ALIGN);
        assert(1 <= rem <= MAX_ALIGN);
        let aligned_diff = MAX_ALIGN - rem;
        assert(ptr + aligned_diff == aligned_region_base(ptr as int));
        let aligned_ptr_addr = ptr + aligned_diff;
        let len_aligned = len - aligned_diff;
        let blocks_bytes_len = len_aligned / BLOCKS_BUFFER_DIVISOR;
        let payload_len = len_aligned - blocks_bytes_len;
        let blocks_ptr = aligned_ptr_addr + payload_len;
        let cap = blocks_bytes_len / BLOCK_DESCRIPTOR_BYTES;
        let mut storage: Vec<u8> = Vec::new();
        while storage.len() < payload_len
            invariant
                storage@.len() <= payload_len,
                forall|j: int| 0 <= j < storage@.len() ==> storage@[j] == 0,
            decreases payload_len - storage@.len(),
        {
            storage.push(0);
        }
        let r = Self {
            buffer: HeapArray::new_with_ptr(aligned_ptr_addr, storage),
            blocks: HeapVec::new_with_ptr(blocks_ptr, cap),
        };
        proof {
            let base = aligned_region_base(ptr as int);
            if ptr as int % (MAX_ALIGN as int) != 0 {
                lemma_fundamental_div_mod(ptr as int, MAX_ALIGN as int);
                let q = (ptr as int) / (MAX_ALIGN as int);
                assert((MAX_ALIGN as int) * (q + 1) == (MAX_ALIGN as int) * q + MAX_ALIGN)
                    by (nonlinear_arith);
                assert(base == (MAX_ALIGN as int) * (q + 1));
                lemma_mod_multiples_basic(q + 1, MAX_ALIGN as int);
            }
            assert(base % (MAX_ALIGN as int) == 0);
            if base < MAX_ALIGN {
                vstd::arithmetic::div_mod::lemma_small_mod(base as nat, MAX_ALIGN as nat);
                assert(false);
            }
        }
        r
    }

    /// Address of the payload byte at offset `start`.
    fn ptr_for_start(&self, start: usize) -> (r: usize)
        requires
            self.wf(),
            start < self.payload_len(),
        ensures
            r as int == self.payload_base() + start,
    {
        self.buffer.ptr() + start
    }

    /// Offset of the payload byte the pointer addresses; nothing for a
    /// pointer below the payload base.
    fn start_for_ptr(&self, ptr: usize) -> (r: Option<usize>)
        ensures
            (ptr as int) < self.payload_base() <==> r is None,
            r matches Some(s) ==> s as int == ptr - self.payload_base(),
    {
        let base = self.buffer.ptr();
        if ptr < base {
            None
        } else {
            Some(ptr - base)
        }
    }

    /// Places a request of `size` bytes at alignment `align`: at offset zero
    /// on an empty table, after the last block where the trailing span
    /// admits the padded size, else before the first block, else in the last
    /// fitting inter-block gap. Records the block, zero-fills it on request,
    /// and returns its address; a request at least as large as the payload,
    /// an alignment beyond `MAX_ALIGN`, or exhaustion yields nothing and
    /// changes nothing.
    pub fn allocate(&mut self, size: usize, align: usize, zeroed: bool) -> (r: Option<usize>)
        requires
            old(self).wf(),
            align >= 1,
            old(self).table().len() < old(self).table_cap(),
        ensures
            final(self).wf(),
            alloc_spec(*old(self), *final(self), size as int, align as int, zeroed, r),
            r matches Some(p) ==> old(self).payload_base() <= p < old(self).payload_base()
                + old(self).payload_len(),
            r matches Some(p) ==> ((MAX_ALIGN as int) % (align as int) == 0 ==> p as int % (
            align as int) == 0),
    {
        if size >= self.buffer.len() || align > MAX_ALIGN {
            return None;
        }
        assert(size + align - 1 <= usize::MAX);
        let padded = size + (align - 1);
        let candidate: Option<MemoryBlock> = match self.blocks.last() {
            None => Some(MemoryBlock::new(0, size)),
            Some(lastb) => {
                let end = lastb.end();
                let free_space = self.buffer.len() - end;
                if free_space >= padded {
                    let start = if end % align == 0 {
                        end
                    } else {
                        end + align - end % align
                    };
                    if lastb.start < start && start < self.buffer.len() && size
                        <= self.buffer.len() - start {
                        Some(MemoryBlock::new(start, size))
                    } else {
                        None
                    }
                } else {
                    let firstb = self.blocks.first().unwrap();
                    if firstb.start >= padded {
                        if firstb.start > 0 {
                            Some(MemoryBlock::new(0, size))
                        } else {
                            None
                        }
                    } else {
                        match self.find_last_gap(padded) {
                            None => None,
                            Some(g) => {
                                proof {
                                    lemma_last_fitting_gap_props(
                                        self.table(),
                                        self.table().len() - 1,
                                        padded as int,
                                    );
                                }
                                let b0 = self.blocks.get(g).unwrap();
                                let b1 = self.blocks.get(g + 1).unwrap();
                                let gend = b0.end();
                                let start = if gend % align == 0 {
                                    gend
                                } else {
                                    gend + align - gend % align
                                };
                                if b0.start < start && start < b1.start && size <= b1.start
                                    - start {
                                    Some(MemoryBlock::new(start, size))
                                } else {
                                    None
                                }
                            },
                        }
                    }
                }
            },
        };
        match candidate {
            None => {
                assert(placement(
                    self.table(),
                    self.payload_len(),
                    size as int,
                    align as int,
                ) is None);
                None
            },
            Some(block) => {
                proof {
                    lemma_placement_valid(
                        self.table(),
                        self.payload_len(),
                        size as int,
                        align as int,
                    );
                    assert(placement(self.table(), self.payload_len(), size as int, align as int)
                        == Some(block.start as int));
                }
                self.insert_block(block);
                if zeroed {
                    let mut idx = block.start;
                    let bend = block.end();
                    while idx < bend
                        invariant
                            self.wf(),
                            block.start <= idx <= bend,
                            bend == block.start + block.size,
                            bend <= self.payload_len(),
                            self.table() == old(self).table().insert(
                                insert_position(old(self).table(), block.start as int),
                                block,
                            ),
                            self.payload_base() == old(self).payload_base(),
                            self.payload_len() == old(self).payload_len(),
                            self.table_cap() == old(self).table_cap(),
                            self.payload().len() == old(self).payload().len(),
                            forall|j: int| block.start <= j < idx ==> self.payload()[j] == 0,
                            forall|j: int|
                                0 <= j < self.payload().len() && !(block.start <= j < idx)
                                    ==> self.payload()[j] == old(self).payload()[j],
                        decreases bend - idx,
                    {
                        self.buffer.set(idx, 0);
                        idx += 1;
                    }
                }
                proof {
                    lemma_base_alignment_carries(
                        old(self).payload_base(),
                        block.start as int,
                        align as int,
                    );
                }
                Some(self.ptr_for_start(block.start))
            },
        }
    }

    /// Scans every adjacent descriptor pair in ascending order and keeps
    /// overwriting its candidate, so the last gap admitting `padded` wins.
    fn find_last_gap(&self, padded: usize) -> (r: Option<usize>)
        requires
            self.wf(),
            self.table().len() >= 1,
        ensures
            match last_fitting_gap(self.table(), self.table().len() - 1, padded as int) {
                None => r is None,
                Some(g) => r == Some(g as usize),
            },
    {
        let blocks_len = self.blocks.len();
        let mut chosen_gap: Option<usize> = None;
        let mut i: usize = 0;
        while i + 1 < blocks_len
            invariant
                self.wf(),
                blocks_len == self.table().len(),
                1 <= blocks_len,
                i + 1 <= blocks_len,
                match last_fitting_gap(self.table(), i as int, padded as int) {
                    None => chosen_gap is None,
                    Some(g) => chosen_gap == Some(g as usize),
                },
            decreases blocks_len - i,
        {
            let b0 = self.blocks.get(i).unwrap();
            let b1 = self.blocks.get(i + 1).unwrap();
            let inter_size = b1.start - b0.end();
            if inter_size >= padded {
                chosen_gap = Some(i);
            }
            i += 1;
        }
        chosen_gap
    }

    /// Number of live blocks the table tracks.
    pub fn block_count(&self) -> (r: usize)
        ensures
            r == self.table().len(),
    {
        self.blocks.len()
    }

    /// Fixed number of descriptor slots carved out at construction.
    pub fn block_capacity(&self) -> (r: usize)
        ensures
            r == self.table_cap(),
    {
        self.blocks.cap()
    }

    /// The payload byte a pointer addresses, as a caller reading through a
    /// pointer this arena returned would see it; nothing for an address
    /// outside the payload region.
    pub fn read_byte(&self, ptr: usize) -> (r: Option<u8>)
        requires
            self.wf(),
        ensures
            self.payload_base() <= ptr < self.payload_base() + self.payload_len() ==> r == Some(
                self.payload()[ptr - self.payload_base()],
            ),
            !(self.payload_base() <= ptr < self.payload_base() + self.payload_len()) ==> r
                is None,
    {
        if ptr < self.buffer.ptr() {
            return None;
        }
        let off = ptr - self.buffer.ptr();
        self.buffer.get(off)
    }

    /// Stores a byte through a pointer, as a caller writing through a
    /// pointer this arena returned would. Reports whether the address lay
    /// inside the payload region, and touches nothing else.
    pub fn write_byte(&mut self, ptr: usize, value: u8) -> (r: bool)
        requires
            old(self).wf(),
        ensures
            final(self).wf(),
            same_region(*old(self), *final(self)),
            final(self).table() == old(self).table(),
            old(self).payload_base() <= ptr < old(self).payload_base()
                + old(self).payload_len() ==> r && final(self).payload()
                == old(self).payload().update(ptr - old(self).payload_base(), value),
            !(old(self).payload_base() <= ptr < old(self).payload_base()
                + old(self).payload_len()) ==> !r && final(self).payload()
                == old(self).payload(),
    {
        if ptr < self.buffer.ptr() {
            return false;
        }
        let off = ptr - self.buffer.ptr();
        self.buffer.set(off, value)
    }

    /// Releases the block the pointer addresses. A pointer below the payload
    /// base is foreign and silently ignored, as is an offset the table never
    /// tracked; a caller cannot detect an invalid free this way.
    pub fn dealloc(&mut self, ptr: usize)
        requires
            old(self).wf(),
        ensures
            final(self).wf(),
            dealloc_spec(*old(self), *final(self), ptr as int),
    {
        match self.start_for_ptr(ptr) {
            Some(start) => self.remove_block(MemoryBlock::new(start, 0)),
            None => {},
        }
    }

    /// Resizes the allocation the pointer addresses, locating its descriptor
    /// by a linear scan. Where the span from the block's start to the next
    /// block (or the payload end) covers the new size, only the descriptor's
    /// size changes and the pointer comes back unchanged — the existing
    /// start is not re-checked against the new alignment. Otherwise a fresh
    /// block is placed, the smaller of the old and new sizes is copied
    /// forward, and the old block is released; a failed placement leaves the
    /// original block untouched.
    #[verifier::rlimit(50)]
    pub fn realloc(&mut self, ptr: usize, size: usize, align: usize) -> (r: Option<usize>)
        requires
            old(self).wf(),
            align >= 1,
            old(self).table().len() < old(self).table_cap(),
        ensures
            final(self).wf(),
            realloc_spec(*old(self), *final(self), ptr as int, size as int, align as int, r),
    {
        let start = match self.start_for_ptr(ptr) {
            None => {
                return None;
            },
            Some(s) => s,
        };
        let blocks_len = self.blocks.len();
        let mut pos_found: Option<usize> = None;
        let mut i: usize = 0;
        while i < blocks_len
            invariant
                self.wf(),
                blocks_len == self.table().len(),
                i <= blocks_len,
                match pos_found {
                    Some(p) => p < i && self.table()[p as int].start == start,
                    None => forall|j: int|
                        0 <= j < i ==> (#[trigger] self.table()[j]).start != start,
                },
            decreases blocks_len - i,
        {
            if pos_found.is_none() && self.blocks.get(i).unwrap().start == start {
                pos_found = Some(i);
            }
            i += 1;
        }
        let position = match pos_found {
            None => {
                proof {
                    lemma_index_of_start_found(self.table(), start as int);
                }
                return None;
            },
            Some(p) => p,
        };
        proof {
            lemma_index_of_unique(self.table(), start as int, position as int);
        }
        let free_space_end = if position + 1 < blocks_len {
            self.blocks.get(position + 1).unwrap().start
        } else {
            self.buffer.len()
        };
        let block = self.blocks.get(position).unwrap();
        if free_space_end - block.start >= size {
            let new_ptr = self.ptr_for_start(block.start);
            self.blocks.set(position, MemoryBlock::new(block.start, size));
            proof {
                let pre = old(self).table();
                let post = self.table();
                let p = position as int;
                assert forall|a: int, b: int|
                    0 <= a < b < post.len() implies (#[trigger] post[a]).end_spec() <= (
                #[trigger] post[b]).start && post[a].start < post[b].start by {
                    if b == p && p + 1 < pre.len() {
                    } else if a == p && p + 1 < post.len() {
                        assert(pre[p + 1].start <= post[b].start);
                    }
                }
            }
            Some(new_ptr)
        } else {
            let new_ptr = match self.allocate(size, align, false) {
                None => {
                    return None;
                },
                Some(p) => p,
            };
            proof {
                lemma_placement_valid(
                    old(self).table(),
                    old(self).payload_len(),
                    size as int,
                    align as int,
                );
            }
            let base = self.buffer.ptr();
            let new_start = new_ptr - base;
            let copy_len = if block.size <= size {
                block.size
            } else {
                size
            };
            proof {
                // the fresh block collides with no live block, so source and
                // target of the copy are disjoint
                assert(start + copy_len <= new_start || new_start + copy_len <= start);
            }
            let mut j: usize = 0;
            while j < copy_len
                invariant
                    self.wf(),
                    j <= copy_len,
                    new_start + copy_len <= self.payload_len(),
                    start + copy_len <= self.payload_len(),
                    start + copy_len <= new_start || new_start + copy_len <= start,
                    self.table() == old(self).table().insert(
                        insert_position(old(self).table(), new_start as int),
                        (MemoryBlock { is_active: true, start: new_start, size }),
                    ),
                    self.payload_base() == old(self).payload_base(),
                    self.payload_len() == old(self).payload_len(),
                    self.table_cap() == old(self).table_cap(),
                    self.payload().len() == old(self).payload().len(),
                    forall|k: int|
                        0 <= k < j
                            ==> #[trigger] self.payload()[new_start + k]
                                == old(self).payload()[start + k],
                    forall|k: int|
                        0 <= k < self.payload().len() && !(new_start <= k < new_start + j)
                            ==> self.payload()[k] == old(self).payload()[k],
                decreases copy_len - j,
            {
                let byte = self.buffer.get(start + j).unwrap();
                self.buffer.set(new_start + j, byte);
                j += 1;
            }
            let ghost mid = *self;
            self.dealloc(ptr);
            proof {
                let nb = MemoryBlock { is_active: true, start: new_start, size };
                let ip = insert_position(old(self).table(), new_start as int);
                let p = position as int;
                let shifted = if ip <= p {
                    p + 1
                } else {
                    p
                };
                lemma_insert_position_bounds(old(self).table(), new_start as int);
                assert(mid.table()[shifted] == old(self).table()[p]);
                lemma_index_of_unique(mid.table(), start as int, shifted);
            }
            Some(new_ptr)
        }
    }
}

/// A payload base aligned to `MAX_ALIGN` is aligned to everything that
/// divides `MAX_ALIGN`, so an offset aligned to such an `align` stays
/// aligned once the base is added.
proof fn lemma_base_alignment_carries(base: int, start: int, align: int)
    requires
        base >= 0,
        start >= 0,
        align >= 1,
        base % (MAX_ALIGN as int) == 0,
        start % align == 0,
    ensures
        (MAX_ALIGN as int) % align == 0 ==> (base + start) % align == 0,
{
    if (MAX_ALIGN as int) % align == 0 {
        lemma_fundamental_div_mod(base, MAX_ALIGN as int);
        lemma_fundamental_div_mod(MAX_ALIGN as int, align);
        let k = base / (MAX_ALIGN as int);
        let m = (MAX_ALIGN as int) / align;
        assert(base == (align * m) * k);
        assert((align * m) * k == align * (m * k)) by (nonlinear_arith);
        lemma_mod_multiples_basic(m * k, align);
        assert(base % align == 0);
        vstd::arithmetic::div_mod::lemma_add_mod_noop(base, start, align);
        vstd::arithmetic::div_mod::lemma_small_mod(0, align as nat);
    }
}

/// Alignment: every power of two not above `MAX_ALIGN` divides `MAX_ALIGN`,
/// so by the allocation postconditions every successfully returned address
/// is a multiple of every such requested alignment.
pub proof fn lemma_power_of_two_divides_max_align(align: int)
    requires
        is_pow2(align),
        align <= MAX_ALIGN,
    ensures
        (MAX_ALIGN as int) % align == 0,
{
    is_pow2_equiv(align);
    assert(vstd::arithmetic::power2::is_pow2_exists(align));
    let k = choose|i: nat| pow(2, i) == align;
    assert(pow(2, k) == align);
    vstd::arithmetic::power::lemma_pow_positive(2, k);
    assert(pow2(k) == align);
    lemma2_to64();
    if k > 12 {
        lemma_pow2_strictly_increases(12, k);
        assert(false);
    }
    lemma_pow2_adds(k, (12 - k) as nat);
    let rest = pow2((12 - k) as nat) as int;
    assert(pow2(12) == pow2(k) * pow2((12 - k) as nat));
    assert((MAX_ALIGN as int) == rest * align);
    lemma_mod_multiples_basic(rest, align);
    assert((rest * align) % align == 0);
}

/// Non-overlap: at any point, any two distinct live blocks of a well-formed
/// arena are disjoint — one ends at or before the other starts.
pub proof fn lemma_live_blocks_disjoint(m: MemoryMap, i: int, j: int)
    requires
        m.wf(),
        0 <= i < m.table().len(),
        0 <= j < m.table().len(),
        i != j,
    ensures
        m.table()[i].end_spec() <= m.table()[j].start || m.table()[j].end_spec()
            <= m.table()[i].start,
{
}

/// Sort invariant: the table of a well-formed arena is strictly ascending by
/// start, and every operation leaves the arena well-formed.
pub proof fn lemma_table_sorted(m: MemoryMap, i: int, j: int)
    requires
        m.wf(),
        0 <= i < j < m.table().len(),
    ensures
        m.table()[i].start < m.table()[j].start,
{
}

/// In a table whose prefix below `idx` lies under `start` and whose suffix
/// from `idx` lies at or above it, each slot's side is known from its index.
proof fn lemma_search_characterizes_converse(
    blocks: Seq<MemoryBlock>,
    start: int,
    idx: int,
    i: int,
)
    requires
        table_ordered(blocks),
        0 <= idx <= blocks.len(),
        insert_position(blocks, start) == idx,
        0 <= i < blocks.len(),
    ensures
        i < idx ==> blocks[i].start < start,
        i >= idx ==> blocks[i].start >= start,
    decreases blocks.len(),
{
    if blocks.len() > 0 {
        let rest = blocks.drop_first();
        lemma_ordered_drop_first(blocks);
        if blocks[0].start < start {
            lemma_insert_position_bounds(rest, start);
            assert(insert_position(blocks, start) == 1 + insert_position(rest, start));
            if i > 0 {
                lemma_search_characterizes_converse(rest, start, idx - 1, i - 1);
                assert(blocks[i] == rest[i - 1]);
            }
        } else {
            assert(idx == 0);
            if i == 0 {
            } else {
                assert(blocks[0].start < blocks[i].start);
                assert(blocks[i].start >= start);
            }
        }
    }
}

} // verus!
