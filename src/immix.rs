use vstd::prelude::*;

use crate::address::{Address, ObjectReference};
use crate::forwarding::{
    after_attempt, attempt_to_forward, lemma_settle_claim, none_being_forwarded, clear_forwarding_bits, forward_object, forwarded_word,
    pointer_of, spin_and_get_forwarded_object, spin_result, state_is_forwarded_or_being_forwarded,
    state_of, ObjectCopier, BEING_FORWARDED, FORWARDING_NOT_TRIGGERED_YET,
};
use crate::layout::BYTES_IN_PAGE;
use crate::page_resource::{
    first_fit, granted, lemma_first_fit_aligned, lemma_grant_keeps_runs, lemma_granule_start,
    lemma_release_keeps_runs, lemma_runs_same, lemma_runs_when_empty, run_free, runs_of,
    PageResourceKind,
};
use crate::plan::{Allocator, GcContext};
use crate::space::{
    collection_due, layout_error, request_extent, AbstractSpace, AcquireOutcome, CommonSpace,
    HeapMeta, VMRequest,
};
use crate::word_table::{word_at, WordTable};

verus! {

pub const BYTES_IN_LINE: u64 = 256;
pub const BYTES_IN_BLOCK: u64 = 32768;
pub const LINES_IN_BLOCK: usize = 128;
pub const PAGES_IN_BLOCK: u64 = 8;
pub const LINES_IN_PAGE: u64 = 16;
/// The first value that line marks take after a reset.
pub const RESET_MARK_STATE: u8 = 1;
/// The last value that line marks take before they start over.
pub const MAX_MARK_STATE: u8 = 127;
pub const UNMARKED_STATE: u64 = 0;
pub const MARKED_STATE: u64 = 1;
/// Whether objects may be evacuated out of fragmented blocks.
pub const DEFRAG: bool = true;
/// Lines are marked when objects are scanned, not when they are traced.
pub const MARK_LINE_AT_SCAN_TIME: bool = true;
pub const DEFRAG_HEADROOM_PERCENT: u64 = 2;
/// Blocks in one chunk of the address space.
pub const BLOCKS_IN_CHUNK: usize = 128;

/// The coarse state of a block.
#[derive(Clone, Copy, Debug, PartialEq, Eq, Structural)]
pub enum BlockState {
    Unallocated,
    Unmarked,
    Marked,
    /// Some lines are free; `unavailable_lines` are in use.
    Reusable { unavailable_lines: u64 },
}

/// A block of the space, by its index.
#[derive(Clone, Copy, Debug, PartialEq, Eq, Structural)]
pub struct Block {
    pub index: usize,
}

/// A line of the space: a block and the line's index within it.
#[derive(Clone, Copy, Debug, PartialEq, Eq, Structural)]
pub struct Line {
    pub block: usize,
    pub index: usize,
}

/// A line is free for allocation when it was marked neither in this cycle
/// nor in the one before.
pub open spec fn line_available(mark: u8, unavail_state: u8, current_state: u8) -> bool {
    mark != unavail_state && mark != current_state
}

/// `(start, end)` is the next hole of `marks[lo..hi)` at or after `from`:
/// the lines before it are taken, its lines are free, and it stops at a
/// taken line or at the end.
pub open spec fn is_next_hole(
    marks: Seq<u8>,
    hi: int,
    from: int,
    unavail: u8,
    current: u8,
    start: int,
    end: int,
) -> bool {
    &&& from <= start < end <= hi
    &&& forall|i: int| from <= i < start ==> !line_available(marks[i], unavail, current)
    &&& forall|i: int| start <= i < end ==> line_available(marks[i], unavail, current)
    &&& (end == hi || !line_available(marks[end], unavail, current))
}

pub open spec fn no_hole(marks: Seq<u8>, hi: int, from: int, unavail: u8, current: u8) -> bool {
    forall|i: int| from <= i < hi ==> !line_available(marks[i], unavail, current)
}

/// Scan `marks[from..hi)` for the next run of free lines.
pub fn find_hole(marks: &Vec<u8>, hi: usize, from: usize, unavail_state: u8, current_state: u8) -> (r:
    Option<(usize, usize)>)
    requires
        from <= hi <= marks@.len(),
    ensures
        r.is_none() <==> no_hole(marks@, hi as int, from as int, unavail_state, current_state),
        r matches Some((s, e)) ==> is_next_hole(
            marks@,
            hi as int,
            from as int,
            unavail_state,
            current_state,
            s as int,
            e as int,
        ),
{
    let mut cursor = from;
    while cursor < hi && (marks[cursor] == unavail_state || marks[cursor] == current_state)
        invariant
            from <= cursor <= hi <= marks@.len(),
            forall|i: int| from <= i < cursor ==> !line_available(marks@[i], unavail_state, current_state),
        decreases hi - cursor,
    {
        cursor = cursor + 1;
    }
    if cursor == hi {
        return None;
    }
    let start = cursor;
    cursor = cursor + 1;
    while cursor < hi && marks[cursor] != unavail_state && marks[cursor] != current_state
        invariant
            start < cursor <= hi <= marks@.len(),
            line_available(marks@[start as int], unavail_state, current_state),
            forall|i: int| start <= i < cursor ==> line_available(marks@[i], unavail_state, current_state),
        decreases hi - cursor,
    {
        cursor = cursor + 1;
    }
    Some((start, cursor))
}

/// Lines of `marks[lo..lo + n)` that hold `state`.
pub open spec fn count_marked(marks: Seq<u8>, lo: int, n: int, state: u8) -> int
    decreases n,
{
    if n <= 0 {
        0
    } else {
        count_marked(marks, lo, n - 1, state) + if marks[lo + n - 1] == state {
            1int
        } else {
            0int
        }
    }
}

/// Runs of lines of `marks[lo..lo + n)` that do not hold `state`.
pub open spec fn count_holes(marks: Seq<u8>, lo: int, n: int, state: u8) -> int
    decreases n,
{
    if n <= 0 {
        0
    } else {
        count_holes(marks, lo, n - 1, state) + if marks[lo + n - 1] != state && (n == 1
            || marks[lo + n - 2] == state) {
            1int
        } else {
            0int
        }
    }
}

proof fn lemma_counts_bounded(marks: Seq<u8>, lo: int, n: int, state: u8)
    requires
        n >= 0,
    ensures
        0 <= count_marked(marks, lo, n, state) <= n,
        0 <= count_holes(marks, lo, n, state) <= n,
    decreases n,
{
    if n > 0 {
        lemma_counts_bounded(marks, lo, n - 1, state);
    }
}

/// Live lines of the allocated blocks among the first `n` whose hole count
/// exceeds `threshold`.
pub open spec fn live_above(
    states: Seq<BlockState>,
    holes: Seq<u64>,
    marked: Seq<u64>,
    n: int,
    threshold: int,
) -> int
    decreases n,
{
    if n <= 0 {
        0
    } else {
        live_above(states, holes, marked, n - 1, threshold) + if states[n - 1]
            != BlockState::Unallocated && holes[n - 1] > threshold {
            marked[n - 1] as int
        } else {
            0int
        }
    }
}

proof fn lemma_live_above_bounds(
    states: Seq<BlockState>,
    holes: Seq<u64>,
    marked: Seq<u64>,
    n: int,
    threshold: int,
)
    requires
        0 <= n <= holes.len(),
        n <= marked.len(),
        forall|i: int| 0 <= i < n ==> marked[i] <= LINES_IN_BLOCK,
        forall|i: int| 0 <= i < n ==> holes[i] <= LINES_IN_BLOCK,
    ensures
        0 <= live_above(states, holes, marked, n, threshold) <= n * LINES_IN_BLOCK,
        threshold >= LINES_IN_BLOCK ==> live_above(states, holes, marked, n, threshold) == 0,
    decreases n,
{
    if n > 0 {
        lemma_live_above_bounds(states, holes, marked, n - 1, threshold);
    }
}

/// Every block of `list` from index `from` on was passed over because it
/// is a defragmentation source and a block for copying was asked for.
pub open spec fn all_skipped(list: Seq<usize>, from: int, copy: bool, src: Seq<bool>) -> bool {
    forall|j: int| from <= j < list.len() ==> copy && #[trigger] src[list[j] as int]
}

proof fn lemma_all_skipped_extend(list: Seq<usize>, k: int, copy: bool, src: Seq<bool>)
    requires
        0 <= k < list.len(),
        all_skipped(list, k + 1, copy, src),
        copy && src[list[k] as int],
    ensures
        all_skipped(list, k, copy, src),
{
    assert forall|j: int| k <= j < list.len() implies copy && #[trigger] src[list[j] as int] by {
        if j > k {
            assert(k + 1 <= j);
        }
    }
}

/// The defragmentation state of a space.
pub struct Defrag {
    pub in_defrag_collection: bool,
    pub defrag_spill_threshold: u64,
    pub available_clean_pages_for_defrag: u64,
    pub defrag_space_exhausted: bool,
}

impl Defrag {
    pub fn new() -> (r: Defrag)
        ensures
            !r.in_defrag_collection,
            r.defrag_spill_threshold == 0,
            r.available_clean_pages_for_defrag == 0,
            !r.defrag_space_exhausted,
    {
        Defrag {
            in_defrag_collection: false,
            defrag_spill_threshold: 0,
            available_clean_pages_for_defrag: 0,
            defrag_space_exhausted: false,
        }
    }

    pub fn in_defrag(&self) -> (r: bool)
        ensures
            r == self.in_defrag_collection,
    {
        self.in_defrag_collection
    }

    pub fn space_exhausted(&self) -> (r: bool)
        ensures
            r == self.defrag_space_exhausted,
    {
        self.defrag_space_exhausted
    }

    /// A clean block was taken; a block taken for copying uses up clean
    /// pages that defragmentation may still use.
    pub fn notify_new_clean_block(&mut self, copy: bool)
        ensures
            final(self).in_defrag_collection == old(self).in_defrag_collection,
            final(self).defrag_spill_threshold == old(self).defrag_spill_threshold,
            !copy ==> *final(self) == *old(self),
            copy ==> {
                &&& final(self).available_clean_pages_for_defrag == if old(
                    self,
                ).available_clean_pages_for_defrag <= PAGES_IN_BLOCK {
                    0
                } else {
                    old(self).available_clean_pages_for_defrag - PAGES_IN_BLOCK
                }
                &&& final(self).defrag_space_exhausted == (old(self).defrag_space_exhausted || old(
                    self,
                ).available_clean_pages_for_defrag <= PAGES_IN_BLOCK)
            },
    {
        if copy {
            let avail = self.available_clean_pages_for_defrag;
            if avail <= PAGES_IN_BLOCK {
                self.available_clean_pages_for_defrag = 0;
                self.defrag_space_exhausted = true;
            } else {
                self.available_clean_pages_for_defrag = avail - PAGES_IN_BLOCK;
            }
        }
    }
}

/// The block/line mark-region space.
pub struct ImmixSpace {
    pub common: CommonSpace,
    pub block_state: Vec<BlockState>,
    pub defrag_source: Vec<bool>,
    pub holes: Vec<u64>,
    pub marked_lines: Vec<u64>,
    /// The mark of every line, block after block.
    pub line_marks: Vec<u8>,
    pub line_mark_state: u8,
    pub line_unavail_state: u8,
    pub reusable_blocks: Vec<usize>,
    pub defrag: Defrag,
    pub mark_state: u64,
    /// The mark of each object, by address.
    pub object_marks: WordTable,
    /// The forwarding status word of each object, by address.
    pub forwarding: WordTable,
}

impl AbstractSpace for ImmixSpace {
    open spec fn common_spec(&self) -> CommonSpace {
        self.common
    }

    fn common(&self) -> (r: &CommonSpace) {
        &self.common
    }
}

impl ImmixSpace {
    pub open spec fn wf(&self) -> bool {
        let n = self.block_state@.len();
        &&& self.common.wf()
        &&& self.common.pr.kind == PageResourceKind::FreeList
        &&& runs_of(self.common.pr, PAGES_IN_BLOCK as int)
        &&& self.common.pr.capacity % PAGES_IN_BLOCK == 0
        &&& n == self.common.pr.capacity / PAGES_IN_BLOCK
        &&& self.defrag_source@.len() == n
        &&& self.holes@.len() == n
        &&& self.marked_lines@.len() == n
        &&& self.line_marks@.len() == n * LINES_IN_BLOCK
        &&& forall|i: int| 0 <= i < n ==> #[trigger] self.holes@[i] <= LINES_IN_BLOCK
        &&& forall|i: int| 0 <= i < n ==> #[trigger] self.marked_lines@[i] <= LINES_IN_BLOCK
        &&& forall|i: int|
            0 <= i < self.reusable_blocks@.len() ==> #[trigger] self.reusable_blocks@[i] < n
        &&& none_being_forwarded(self.forwarding.view())
    }

    /// Every field but the line marks agrees with `other`.
    pub open spec fn same_except_lines(&self, other: ImmixSpace) -> bool {
        &&& self.common == other.common
        &&& self.block_state == other.block_state
        &&& self.defrag_source == other.defrag_source
        &&& self.holes == other.holes
        &&& self.marked_lines == other.marked_lines
        &&& self.line_marks@.len() == other.line_marks@.len()
        &&& self.line_mark_state == other.line_mark_state
        &&& self.line_unavail_state == other.line_unavail_state
        &&& self.reusable_blocks == other.reusable_blocks
        &&& self.defrag == other.defrag
        &&& self.mark_state == other.mark_state
        &&& self.object_marks == other.object_marks
        &&& self.forwarding == other.forwarding
    }

    /// Line `l` (counted over the whole space) is one that the object of
    /// `size` bytes at `object` spans within its block.
    pub open spec fn spans(&self, object: u64, size: u64, l: int) -> bool {
        let offset = object - self.common.start.value;
        let b = self.block_of(object);
        let first = b * LINES_IN_BLOCK + (offset % (BYTES_IN_BLOCK as int)) / (BYTES_IN_LINE as int);
        let last_in_block = (offset % (BYTES_IN_BLOCK as int) + size - 1) / (BYTES_IN_LINE as int);
        let last = b * LINES_IN_BLOCK + if last_in_block < LINES_IN_BLOCK {
            last_in_block
        } else {
            LINES_IN_BLOCK - 1
        };
        first <= l <= last
    }

    /// The outcome of tracing `object` with opportunistic copying, from `o`
    /// and `ot` to `f`, `ft` and result `r`.
    pub open spec fn copy_traced(
        o: ImmixSpace,
        f: ImmixSpace,
        ot: Seq<ObjectReference>,
        ft: Seq<ObjectReference>,
        object: ObjectReference,
        r: ObjectReference,
    ) -> bool {
        let w = o.forwarding.at(object.value);
        if state_of(w) != FORWARDING_NOT_TRIGGERED_YET {
            &&& r.value == spin_result(object.value, w, w)
            &&& ft == ot
            &&& f.forwarding.view() == o.forwarding.view()
            &&& f.object_marks == o.object_marks
            &&& f.block_state == o.block_state
        } else if o.is_marked_spec(object.value) {
            &&& r == object
            &&& ft == ot
            &&& f.forwarding.at(object.value) == w
            &&& f.object_marks == o.object_marks
            &&& f.block_state == o.block_state
        } else if o.defrag.defrag_space_exhausted {
            &&& r == object
            &&& ft == ot.push(object)
            &&& f.forwarding.at(object.value) == w
            &&& f.is_marked_spec(object.value)
            &&& f.block_state@ == o.block_state@.update(
                o.block_of(object.value),
                BlockState::Marked,
            )
        } else {
            &&& r.value % 4 == 0
            &&& ft == ot.push(r)
            &&& f.forwarding.view() == o.forwarding.view().insert(
                object.value,
                forwarded_word(r.value),
            )
            &&& f.object_marks.view() == o.object_marks.view().insert(
                r.value,
                o.mark_state,
            )
            &&& f.block_state == o.block_state
        }
    }

    /// The outcome of tracing `object` in place.
    pub open spec fn mark_traced(
        o: ImmixSpace,
        f: ImmixSpace,
        ot: Seq<ObjectReference>,
        ft: Seq<ObjectReference>,
        object: ObjectReference,
        r: ObjectReference,
    ) -> bool {
        &&& r == object
        &&& f.is_marked_spec(object.value)
        &&& ft == if o.is_marked_spec(object.value) {
            ot
        } else {
            ot.push(object)
        }
        &&& f.common == o.common
        &&& f.block_state == o.block_state
        &&& f.defrag_source == o.defrag_source
        &&& f.line_marks == o.line_marks
        &&& f.forwarding == o.forwarding
        &&& f.mark_state == o.mark_state
    }

    /// Every field but the object marks agrees with `other`.
    pub open spec fn same_except_marks(&self, other: ImmixSpace) -> bool {
        &&& self.common == other.common
        &&& self.block_state == other.block_state
        &&& self.defrag_source == other.defrag_source
        &&& self.holes == other.holes
        &&& self.marked_lines == other.marked_lines
        &&& self.line_marks == other.line_marks
        &&& self.line_mark_state == other.line_mark_state
        &&& self.line_unavail_state == other.line_unavail_state
        &&& self.reusable_blocks == other.reusable_blocks
        &&& self.defrag == other.defrag
        &&& self.mark_state == other.mark_state
        &&& self.forwarding == other.forwarding
    }

    /// The index of the block that holds `object`.
    pub open spec fn block_of(&self, object: u64) -> int {
        (object - self.common.start.value) / (BYTES_IN_BLOCK as int)
    }

    pub open spec fn holds(&self, object: u64) -> bool {
        &&& self.common.start.value <= object
        &&& self.block_of(object) < self.block_state@.len()
    }

    pub open spec fn is_marked_spec(&self, object: u64) -> bool {
        self.object_marks.at(object) == self.mark_state
    }

    /// A mark-region space laid out as `vmrequest` asks.
    pub fn new(name: &'static str, vmrequest: VMRequest, heap: &mut HeapMeta) -> (s: ImmixSpace)
        requires
            old(heap).wf(),
            layout_error(vmrequest, *old(heap)).is_none(),
        ensures
            final(heap).wf(),
            ({
                &&& s.wf()
                &&& s.common.extent == request_extent(vmrequest)
                &&& s.common.movable
                &&& !s.common.immortal
                &&& s.common.name == name
                &&& s.line_mark_state == RESET_MARK_STATE
                &&& s.line_unavail_state == RESET_MARK_STATE
                &&& s.mark_state == UNMARKED_STATE
                &&& s.reusable_blocks@.len() == 0
                &&& forall|i: int| 0 <= i < s.block_state@.len() ==> s.block_state@[i]
                    == BlockState::Unallocated
            }),
    {
        let common = CommonSpace::new(
            name,
            true,
            false,
            true,
            vmrequest,
            PageResourceKind::FreeList,
            0,
            heap,
        );
        proof {
            let cap = common.pr.capacity as int;
            let ext = common.extent as int;
            assert(cap % 8 == 0) by (nonlinear_arith)
                requires
                    cap == ext / 4096,
                    ext % 4194304 == 0,
                    ext >= 0,
            ;
            lemma_runs_when_empty(common.pr, PAGES_IN_BLOCK as int);
        }
        let n = common.pr.capacity / PAGES_IN_BLOCK;
        let nb = n as usize;
        let mut block_state: Vec<BlockState> = Vec::new();
        let mut defrag_source: Vec<bool> = Vec::new();
        let mut holes: Vec<u64> = Vec::new();
        let mut marked_lines: Vec<u64> = Vec::new();
        let mut line_marks: Vec<u8> = Vec::new();
        let mut i: usize = 0;
        while i < nb
            invariant
                i <= nb,
                nb == n,
                n <= 0x1_0000_0000,
                block_state@.len() == i,
                defrag_source@.len() == i,
                holes@.len() == i,
                marked_lines@.len() == i,
                line_marks@.len() == i * LINES_IN_BLOCK,
                forall|k: int| 0 <= k < i ==> block_state@[k] == BlockState::Unallocated,
                forall|k: int| 0 <= k < i ==> holes@[k] == 0,
                forall|k: int| 0 <= k < i ==> marked_lines@[k] == 0,
            decreases nb - i,
        {
            block_state.push(BlockState::Unallocated);
            defrag_source.push(false);
            holes.push(0);
            marked_lines.push(0);
            let mut j: usize = 0;
            while j < LINES_IN_BLOCK
                invariant
                    j <= LINES_IN_BLOCK,
                    line_marks@.len() == i * LINES_IN_BLOCK + j,
                    i < nb,
                    n <= 0x1_0000_0000,
                    nb == n,
                decreases LINES_IN_BLOCK - j,
            {
                line_marks.push(0);
                j = j + 1;
            }
            i = i + 1;
        }
        let s = ImmixSpace {
            common,
            block_state,
            defrag_source,
            holes,
            marked_lines,
            line_marks,
            line_mark_state: RESET_MARK_STATE,
            line_unavail_state: RESET_MARK_STATE,
            reusable_blocks: Vec::new(),
            defrag: Defrag::new(),
            mark_state: UNMARKED_STATE,
            object_marks: WordTable::new(),
            forwarding: WordTable::new(),
        };
        s
    }

    /// Pages kept free so that a defragmenting collection has room to copy into.
    pub fn defrag_headroom_pages(&self) -> (r: u64)
        requires
            self.common.pr.reserved <= 0x10_0000_0000,
        ensures
            r == self.common.pr.reserved * DEFRAG_HEADROOM_PERCENT / 100,
    {
        self.common.pr.reserved * DEFRAG_HEADROOM_PERCENT / 100
    }

    pub fn in_defrag(&self) -> (r: bool)
        ensures
            r == self.defrag.in_defrag_collection,
    {
        self.defrag.in_defrag()
    }

    /// Decide whether this collection defragments: it does after an
    /// emergency, after repeated failed attempts, when no block is left to
    /// reuse, or when a user asked for a full-heap collection.
    pub fn decide_whether_to_defrag(
        &mut self,
        emergency_collection: bool,
        collect_whole_heap: bool,
        collection_attempts: u64,
        user_triggered_collection: bool,
        full_heap_system_gc: bool,
    ) -> (r: bool)
        ensures
            r == (DEFRAG && (emergency_collection || collection_attempts > 1
                || old(self).reusable_blocks@.len() == 0 || (collect_whole_heap
                && user_triggered_collection && full_heap_system_gc))),
            final(self).defrag.in_defrag_collection == r,
            final(self).defrag.defrag_spill_threshold == old(self).defrag.defrag_spill_threshold,
            final(self).defrag.available_clean_pages_for_defrag == old(
                self,
            ).defrag.available_clean_pages_for_defrag,
            final(self).defrag.defrag_space_exhausted == old(self).defrag.defrag_space_exhausted,
            final(self).common == old(self).common,
            final(self).block_state == old(self).block_state,
            final(self).defrag_source == old(self).defrag_source,
            final(self).holes == old(self).holes,
            final(self).marked_lines == old(self).marked_lines,
            final(self).line_marks == old(self).line_marks,
            final(self).line_mark_state == old(self).line_mark_state,
            final(self).line_unavail_state == old(self).line_unavail_state,
            final(self).reusable_blocks == old(self).reusable_blocks,
            final(self).mark_state == old(self).mark_state,
            final(self).object_marks == old(self).object_marks,
            final(self).forwarding == old(self).forwarding,
    {
        let exhausted_reusable_space = self.reusable_blocks.len() == 0;
        self.defrag.in_defrag_collection = DEFRAG && (emergency_collection || collection_attempts
            > 1 || exhausted_reusable_space || (collect_whole_heap && user_triggered_collection
            && full_heap_system_gc));
        self.defrag.in_defrag_collection
    }

    pub open spec fn is_last_gc_exhaustive_spec(did_defrag_for_last_gc: bool) -> bool {
        !DEFRAG || did_defrag_for_last_gc
    }

    /// Whether the last collection reclaimed all it could.
    pub fn is_last_gc_exhaustive(did_defrag_for_last_gc: bool) -> (r: bool)
        ensures
            r == Self::is_last_gc_exhaustive_spec(did_defrag_for_last_gc),
    {
        if DEFRAG {
            did_defrag_for_last_gc
        } else {
            true
        }
    }

    /// The next run of free lines in the block of `search_start`, at or after
    /// it, as a start line and an end line (exclusive).
    pub fn get_next_available_lines(&self, search_start: Line) -> (r: Option<(Line, Line)>)
        requires
            self.wf(),
            search_start.block < self.block_state@.len(),
            search_start.index <= LINES_IN_BLOCK,
        ensures
            ({
                let lo = search_start.block * LINES_IN_BLOCK;
                let hi = lo + LINES_IN_BLOCK;
                let from = lo + search_start.index;
                &&& r.is_none() <==> no_hole(
                    self.line_marks@,
                    hi,
                    from,
                    self.line_unavail_state,
                    self.line_mark_state,
                )
                &&& r matches Some((s, e)) ==> {
                    &&& s.block == search_start.block
                    &&& e.block == search_start.block
                    &&& is_next_hole(
                        self.line_marks@,
                        hi,
                        from,
                        self.line_unavail_state,
                        self.line_mark_state,
                        lo + s.index,
                        lo + e.index,
                    )
                }
            }),
    {
        let total = self.line_marks.len();
        let b = search_start.block;
        proof {
            assert((b + 1) * LINES_IN_BLOCK <= self.block_state@.len() * LINES_IN_BLOCK)
                by (nonlinear_arith)
                requires b < self.block_state@.len();
        }
        let lo = b * LINES_IN_BLOCK;
        let hi = lo + LINES_IN_BLOCK;
        match find_hole(
            &self.line_marks,
            hi,
            lo + search_start.index,
            self.line_unavail_state,
            self.line_mark_state,
        ) {
            Some((s, e)) => Some((Line { block: b, index: s - lo }, Line { block: b, index: e - lo })),
            None => None,
        }
    }

    /// Mark, in the current line mark state, every line that the object of
    /// `size` bytes at `object` spans within its block.
    pub fn mark_lines(&mut self, object: ObjectReference, size: u64)
        requires
            old(self).wf(),
            old(self).holds(object.value),
            0 < size <= BYTES_IN_BLOCK,
        ensures
            final(self).wf(),
            final(self).line_marks@ == old(self).line_marks@.map(
                |i: int, m: u8|
                    if old(self).spans(object.value, size, i) {
                        old(self).line_mark_state
                    } else {
                        m
                    },
            ),
            final(self).line_mark_state == old(self).line_mark_state,
            final(self).common == old(self).common,
            final(self).block_state == old(self).block_state,
            final(self).defrag_source == old(self).defrag_source,
            final(self).holes == old(self).holes,
            final(self).marked_lines == old(self).marked_lines,
            final(self).reusable_blocks == old(self).reusable_blocks,
            final(self).object_marks == old(self).object_marks,
            final(self).forwarding == old(self).forwarding,
            final(self).mark_state == old(self).mark_state,
            final(self).line_unavail_state == old(self).line_unavail_state,
            final(self).defrag == old(self).defrag,
    {
        let total = self.line_marks.len();
        let offset = object.value - self.common.start.value;
        let b64 = offset / BYTES_IN_BLOCK;
        let b = b64 as usize;
        let within = offset % BYTES_IN_BLOCK;
        let first_in_block = (within / BYTES_IN_LINE) as usize;
        let last_raw = (within + size - 1) / BYTES_IN_LINE;
        let last_in_block: usize = if last_raw < LINES_IN_BLOCK as u64 {
            last_raw as usize
        } else {
            LINES_IN_BLOCK - 1
        };
        proof {
            assert((b + 1) * LINES_IN_BLOCK <= self.block_state@.len() * LINES_IN_BLOCK)
                by (nonlinear_arith)
                requires b < self.block_state@.len();
        }
        let lo = b * LINES_IN_BLOCK;
        let state = self.line_mark_state;
        let ghost old_marks = self.line_marks@;
        let ghost old_self = *self;
        let mut i = lo + first_in_block;
        while i <= lo + last_in_block
            invariant
                self.same_except_lines(old_self),
                old_self.wf(),
                state == old_self.line_mark_state,
                lo + first_in_block <= i <= lo + last_in_block + 1,
                lo + LINES_IN_BLOCK <= total,
                last_in_block < LINES_IN_BLOCK,
                total == self.line_marks@.len(),
                self.line_marks@ =~= old_marks.map(
                    |k: int, m: u8|
                        if lo + first_in_block <= k < i {
                            state
                        } else {
                            m
                        },
                ),
            decreases lo + last_in_block + 1 - i,
        {
            self.line_marks.set(i, state);
            i = i + 1;
        }
    }

    /// Mark the object in the current mark state; false when it was marked already.
    fn attempt_mark(&mut self, object: ObjectReference) -> (r: bool)
        ensures
            r == !old(self).is_marked_spec(object.value),
            final(self).object_marks.view() == if r {
                old(self).object_marks.view().insert(object.value, old(self).mark_state)
            } else {
                old(self).object_marks.view()
            },
            final(self).is_marked_spec(object.value),
            final(self).common == old(self).common,
            final(self).block_state == old(self).block_state,
            final(self).defrag_source == old(self).defrag_source,
            final(self).holes == old(self).holes,
            final(self).marked_lines == old(self).marked_lines,
            final(self).line_marks == old(self).line_marks,
            final(self).reusable_blocks == old(self).reusable_blocks,
            final(self).forwarding == old(self).forwarding,
            final(self).mark_state == old(self).mark_state,
            final(self).line_mark_state == old(self).line_mark_state,
            final(self).line_unavail_state == old(self).line_unavail_state,
            final(self).defrag == old(self).defrag,
    {
        if self.object_marks.read(object.value) == self.mark_state {
            return false;
        }
        self.object_marks.write(object.value, self.mark_state);
        true
    }

    /// Whether the object is live: marked in this collection, or moved.
    pub fn is_live(&self, object: ObjectReference) -> (r: bool)
        ensures
            r == (self.is_marked_spec(object.value) || (DEFRAG && state_of(
                self.forwarding.at(object.value),
            ) == crate::forwarding::FORWARDED)),
    {
        self.is_marked(object) || (DEFRAG && crate::forwarding::is_forwarded(&self.forwarding, object))
    }

    /// Whether the object is marked in the current mark state.
    pub fn is_marked(&self, object: ObjectReference) -> (r: bool)
        ensures
            r == self.is_marked_spec(object.value),
    {
        self.object_marks.read(object.value) == self.mark_state
    }

    /// Trace without moving: mark the object and, the first time, queue it
    /// for scanning.
    pub fn trace_object_without_moving(
        &mut self,
        trace: &mut Vec<ObjectReference>,
        object: ObjectReference,
    ) -> (r: ObjectReference)
        requires
            old(self).wf(),
        ensures
            final(self).wf(),
            Self::mark_traced(*old(self), *final(self), old(trace)@, final(trace)@, object, r),
    {
        if self.attempt_mark(object) {
            trace.push(object);
        }
        object
    }

    /// Trace without ever moving the object.
    pub fn fast_trace_object(&mut self, trace: &mut Vec<ObjectReference>, object: ObjectReference) -> (r:
        ObjectReference)
        requires
            old(self).wf(),
        ensures
            final(self).wf(),
            Self::mark_traced(*old(self), *final(self), old(trace)@, final(trace)@, object, r),
    {
        self.trace_object_without_moving(trace, object)
    }

    /// Trace an object of a block chosen for evacuation: copy it out unless
    /// it is pinned or there is no room left to copy into. Of the threads
    /// that race on the object, only the one that claims it copies it.
    pub fn trace_object_with_opportunistic_copy<C: ObjectCopier>(
        &mut self,
        trace: &mut Vec<ObjectReference>,
        object: ObjectReference,
        allocator: Allocator,
        copier: &mut C,
    ) -> (r: ObjectReference)
        requires
            old(self).wf(),
            old(self).holds(object.value),
        ensures
            final(self).wf(),
            final(self).common == old(self).common,
            final(self).line_marks == old(self).line_marks,
            Self::copy_traced(*old(self), *final(self), old(trace)@, final(trace)@, object, r),
    {
        let forwarding_status = attempt_to_forward(&mut self.forwarding, object);
        if state_is_forwarded_or_being_forwarded(forwarding_status) {
            return spin_and_get_forwarded_object(&self.forwarding, object, forwarding_status);
        }
        let ghost fw1 = self.forwarding.view();
        assert forall|k: u64| k != object.value implies state_of(#[trigger] word_at(fw1, k))
            != BEING_FORWARDED by {
            assert(word_at(fw1, k) == word_at(old(self).forwarding.view(), k));
        }
        if self.is_marked(object) {
            proof {
                lemma_settle_claim(
                    fw1,
                    object.value,
                    pointer_of(after_attempt(forwarding_status)),
                );
            }
            clear_forwarding_bits(&mut self.forwarding, object);
            return object;
        }
        let new_object = if Self::is_pinned(object) || self.defrag.space_exhausted() {
            self.attempt_mark(object);
            proof {
                lemma_settle_claim(
                    fw1,
                    object.value,
                    pointer_of(after_attempt(forwarding_status)),
                );
            }
            clear_forwarding_bits(&mut self.forwarding, object);
            let b = ((object.value - self.common.start.value) / BYTES_IN_BLOCK) as usize;
            self.block_state.set(b, BlockState::Marked);
            object
        } else {
            let new_object = forward_object(&mut self.forwarding, object, allocator, copier);
            proof {
                lemma_settle_claim(
                    fw1,
                    object.value,
                    forwarded_word(new_object.value),
                );
                assert(self.forwarding.view() =~= old(self).forwarding.view().insert(
                    object.value,
                    forwarded_word(new_object.value),
                ));
            }
            let mark = self.mark_state;
            self.object_marks.write(new_object.value, mark);
            new_object
        };
        trace.push(new_object);
        new_object
    }

    /// Trace an object: evacuate it when its block is a defragmentation
    /// source, else mark it in place.
    pub fn trace_object<C: ObjectCopier>(
        &mut self,
        trace: &mut Vec<ObjectReference>,
        object: ObjectReference,
        allocator: Allocator,
        copier: &mut C,
    ) -> (r: ObjectReference)
        requires
            old(self).wf(),
            old(self).holds(object.value),
        ensures
            final(self).wf(),
            if old(self).defrag_source@[old(self).block_of(object.value)] {
                Self::copy_traced(*old(self), *final(self), old(trace)@, final(trace)@, object, r)
            } else {
                Self::mark_traced(*old(self), *final(self), old(trace)@, final(trace)@, object, r)
            },
    {
        let b = ((object.value - self.common.start.value) / BYTES_IN_BLOCK) as usize;
        if self.defrag_source[b] {
            self.trace_object_with_opportunistic_copy(trace, object, allocator, copier)
        } else {
            self.trace_object_without_moving(trace, object)
        }
    }

    /// Live lines of the allocated blocks with more than `threshold` holes.
    pub fn live_lines_above(&self, threshold: u64) -> (r: u64)
        requires
            self.wf(),
        ensures
            r == live_above(
                self.block_state@,
                self.holes@,
                self.marked_lines@,
                self.block_state@.len() as int,
                threshold as int,
            ),
    {
        let n = self.block_state.len();
        let mut sum: u64 = 0;
        let mut i: usize = 0;
        while i < n
            invariant
                i <= n,
                n == self.block_state@.len(),
                n <= 0x1_0000_0000,
                self.wf(),
                sum == live_above(
                    self.block_state@,
                    self.holes@,
                    self.marked_lines@,
                    i as int,
                    threshold as int,
                ),
            decreases n - i,
        {
            proof {
                lemma_live_above_bounds(
                    self.block_state@,
                    self.holes@,
                    self.marked_lines@,
                    (i + 1) as int,
                    threshold as int,
                );
                assert((i + 1) * LINES_IN_BLOCK <= 0x1_0000_0000 * 128) by (nonlinear_arith)
                    requires i + 1 <= 0x1_0000_0000int;
            }
            if self.block_state[i] != BlockState::Unallocated && self.holes[i] > threshold {
                sum = sum + self.marked_lines[i];
            }
            i = i + 1;
        }
        sum
    }

    /// The smallest hole count above which the live lines of all blocks
    /// fit in `avail_lines`: blocks with more holes are evacuated.
    pub fn establish_defrag_spill_threshold(&self, avail_lines: u64) -> (r: u64)
        requires
            self.wf(),
        ensures
            self.spill_threshold_ok(avail_lines as int, r as int),
    {
        proof {
            lemma_live_above_bounds(
                self.block_state@,
                self.holes@,
                self.marked_lines@,
                self.block_state@.len() as int,
                LINES_IN_BLOCK as int,
            );
        }
        let mut t: u64 = LINES_IN_BLOCK as u64;
        while t > 0 && self.live_lines_above(t - 1) <= avail_lines
            invariant
                self.wf(),
                t <= LINES_IN_BLOCK,
                self.live_above_spec(t as int) <= avail_lines,
            decreases t,
        {
            t = t - 1;
        }
        t
    }

    pub open spec fn live_above_spec(&self, threshold: int) -> int {
        live_above(
            self.block_state@,
            self.holes@,
            self.marked_lines@,
            self.block_state@.len() as int,
            threshold,
        )
    }

    /// `t` is the least threshold whose evacuation fits in `avail` lines.
    pub open spec fn spill_threshold_ok(&self, avail: int, t: int) -> bool {
        &&& 0 <= t <= LINES_IN_BLOCK
        &&& self.live_above_spec(t) <= avail
        &&& (t == 0 || self.live_above_spec(t - 1) > avail)
    }

    /// A block's state after preparation for a collection with the given threshold.
    pub open spec fn prepared_block(state: BlockState) -> BlockState {
        if state == BlockState::Unallocated {
            state
        } else {
            BlockState::Unmarked
        }
    }

    pub open spec fn prepared_source(state: BlockState, holes: u64, old_source: bool, threshold: u64) -> bool {
        if state == BlockState::Unallocated {
            old_source
        } else {
            DEFRAG && threshold != 0 && holes > threshold
        }
    }

    /// Prepare for a collection: choose the blocks to evacuate, reset block
    /// states and object marks, and move lines to a fresh mark state.
    /// `total_pages` and `pages_reserved` describe the whole heap.
    pub fn prepare(&mut self, major_gc: bool, total_pages: u64, pages_reserved: u64)
        requires
            old(self).wf(),
            total_pages <= 0x100_0000_0000,
            old(self).common.pr.reserved <= 0x10_0000_0000,
        ensures
            final(self).wf(),
            final(self).mark_state == if major_gc {
                MARKED_STATE
            } else {
                old(self).mark_state
            },
            final(self).object_marks.view() == Map::<u64, u64>::empty(),
            final(self).line_mark_state == if old(self).line_mark_state >= MAX_MARK_STATE {
                RESET_MARK_STATE
            } else {
                (old(self).line_mark_state + 1) as u8
            },
            final(self).line_unavail_state == old(self).line_unavail_state,
            final(self).defrag.in_defrag_collection == old(self).defrag.in_defrag_collection,
            !final(self).defrag.defrag_space_exhausted,
            ({
                let headroom = old(self).common.pr.reserved * DEFRAG_HEADROOM_PERCENT / 100;
                let avail = (if total_pages > pages_reserved {
                    total_pages - pages_reserved
                } else {
                    0
                }) + headroom;
                &&& old(self).defrag.in_defrag_collection ==> old(self).spill_threshold_ok(
                    avail * LINES_IN_PAGE,
                    final(self).defrag.defrag_spill_threshold as int,
                )
                &&& !old(self).defrag.in_defrag_collection ==> final(self).defrag.defrag_spill_threshold
                    == old(self).defrag.defrag_spill_threshold
                &&& final(self).defrag.available_clean_pages_for_defrag == avail + headroom
            }),
            final(self).block_state@.len() == old(self).block_state@.len(),
            forall|i: int|
                0 <= i < old(self).block_state@.len() ==> {
                    &&& #[trigger] final(self).block_state@[i] == Self::prepared_block(
                        old(self).block_state@[i],
                    )
                    &&& final(self).defrag_source@[i] == Self::prepared_source(
                        old(self).block_state@[i],
                        old(self).holes@[i],
                        old(self).defrag_source@[i],
                        if old(self).defrag.in_defrag_collection {
                            final(self).defrag.defrag_spill_threshold
                        } else {
                            0
                        },
                    )
                },
            final(self).holes == old(self).holes,
            final(self).marked_lines == old(self).marked_lines,
            final(self).line_marks == old(self).line_marks,
            final(self).reusable_blocks == old(self).reusable_blocks,
            final(self).common == old(self).common,
            final(self).forwarding == old(self).forwarding,
    {
        if major_gc {
            self.mark_state = MARKED_STATE;
        }
        self.defrag.defrag_space_exhausted = false;
        let headroom = self.defrag_headroom_pages();
        let avail = (if total_pages > pages_reserved {
            total_pages - pages_reserved
        } else {
            0
        }) + headroom;
        self.defrag.available_clean_pages_for_defrag = avail;
        if self.defrag.in_defrag_collection {
            let t = self.establish_defrag_spill_threshold(avail * LINES_IN_PAGE);
            self.defrag.defrag_spill_threshold = t;
        }
        self.defrag.available_clean_pages_for_defrag = avail + headroom;
        let threshold = if self.in_defrag() {
            self.defrag.defrag_spill_threshold
        } else {
            0
        };
        self.object_marks = WordTable::new();
        let n = self.block_state.len();
        let ghost before = *self;
        let mut first: usize = 0;
        while first < n
            invariant
                first <= n,
                n == self.block_state@.len(),
                self.wf(),
                self.block_state@.len() == before.block_state@.len(),
                forall|k: int|
                    0 <= k < n ==> #[trigger] self.block_state@[k] == if k < first {
                        Self::prepared_block(before.block_state@[k])
                    } else {
                        before.block_state@[k]
                    },
                forall|k: int|
                    0 <= k < n ==> #[trigger] self.defrag_source@[k] == if k < first {
                        Self::prepared_source(
                            before.block_state@[k],
                            before.holes@[k],
                            before.defrag_source@[k],
                            threshold,
                        )
                    } else {
                        before.defrag_source@[k]
                    },
                self.holes == before.holes,
                self.marked_lines == before.marked_lines,
                self.line_marks == before.line_marks,
                self.reusable_blocks == before.reusable_blocks,
                self.common == before.common,
                self.forwarding == before.forwarding,
                self.object_marks.view() == Map::<u64, u64>::empty(),
                self.defrag == before.defrag,
                self.mark_state == before.mark_state,
                self.line_mark_state == before.line_mark_state,
                self.line_unavail_state == before.line_unavail_state,
            decreases n - first,
        {
            let end = if n - first > BLOCKS_IN_CHUNK {
                first + BLOCKS_IN_CHUNK
            } else {
                n
            };
            let task = PrepareBlockState {
                first_block: first,
                end_block: end,
                defrag_threshold: if threshold != 0 {
                    Some(threshold)
                } else {
                    None
                },
            };
            task.do_work(self);
            first = end;
        }
        if self.line_mark_state >= MAX_MARK_STATE {
            self.line_mark_state = RESET_MARK_STATE;
        } else {
            self.line_mark_state = self.line_mark_state + 1;
        }
    }

    /// A block's state after a sweep that found `marked` of its lines in use.
    pub open spec fn swept_block(state: BlockState, marked: int) -> BlockState {
        if state == BlockState::Unallocated || marked == 0 {
            BlockState::Unallocated
        } else if marked == LINES_IN_BLOCK {
            BlockState::Unmarked
        } else {
            BlockState::Reusable { unavailable_lines: marked as u64 }
        }
    }

    /// Sweep block `b`: count its marked lines and holes and release it when
    /// no line is in use, or list it for reuse when some are free.
    fn sweep_block(&mut self, b: usize)
        requires
            old(self).wf(),
            b < old(self).block_state@.len(),
            old(self).block_state@[b as int] != BlockState::Unallocated,
        ensures
            final(self).wf(),
            ({
                let lo = b * LINES_IN_BLOCK;
                let m = count_marked(old(self).line_marks@, lo, LINES_IN_BLOCK as int, old(self).line_mark_state);
                let h = count_holes(old(self).line_marks@, lo, LINES_IN_BLOCK as int, old(self).line_mark_state);
                &&& final(self).block_state@ == old(self).block_state@.update(
                    b as int,
                    Self::swept_block(old(self).block_state@[b as int], m),
                )
                &&& final(self).reusable_blocks@ == if 0 < m < LINES_IN_BLOCK {
                    old(self).reusable_blocks@.push(b)
                } else {
                    old(self).reusable_blocks@
                }
                &&& m > 0 ==> final(self).holes@ == old(self).holes@.update(b as int, h as u64)
                    && final(self).marked_lines@ == old(self).marked_lines@.update(b as int, m as u64)
            }),
            final(self).line_marks == old(self).line_marks,
            final(self).line_mark_state == old(self).line_mark_state,
            final(self).line_unavail_state == old(self).line_unavail_state,
            final(self).mark_state == old(self).mark_state,
            final(self).defrag == old(self).defrag,
            final(self).common.start == old(self).common.start,
            final(self).common.extent == old(self).common.extent,
            final(self).common.pr.capacity == old(self).common.pr.capacity,
            final(self).block_state@.len() == old(self).block_state@.len(),
    {
        let total = self.line_marks.len();
        proof {
            assert((b + 1) * LINES_IN_BLOCK <= self.block_state@.len() * LINES_IN_BLOCK)
                by (nonlinear_arith)
                requires b < self.block_state@.len();
        }
        let lo = b * LINES_IN_BLOCK;
        let st = self.line_mark_state;
        let mut marked: u64 = 0;
        let mut holes: u64 = 0;
        let mut prev_marked = true;
        let mut j: usize = 0;
        while j < LINES_IN_BLOCK
            invariant
                j <= LINES_IN_BLOCK,
                lo + LINES_IN_BLOCK <= total == self.line_marks@.len(),
                marked == count_marked(self.line_marks@, lo as int, j as int, st),
                holes == count_holes(self.line_marks@, lo as int, j as int, st),
                prev_marked == (j == 0 || self.line_marks@[lo + j - 1] == st),
            decreases LINES_IN_BLOCK - j,
        {
            proof {
                lemma_counts_bounded(self.line_marks@, lo as int, j as int, st);
            }
            if self.line_marks[lo + j] == st {
                marked = marked + 1;
                prev_marked = true;
            } else {
                if prev_marked {
                    holes = holes + 1;
                }
                prev_marked = false;
            }
            j = j + 1;
        }
        proof {
            lemma_counts_bounded(self.line_marks@, lo as int, LINES_IN_BLOCK as int, st);
        }
        if marked == 0 {
            self.release_block(Block { index: b });
        } else {
            if marked != LINES_IN_BLOCK as u64 {
                self.block_state.set(b, BlockState::Reusable { unavailable_lines: marked });
                self.reusable_blocks.push(b);
            } else {
                self.block_state.set(b, BlockState::Unmarked);
            }
            self.holes.set(b, holes);
            self.marked_lines.set(b, marked);
        }
    }

    /// Give a block back: it becomes unallocated and its pages are freed.
    pub fn release_block(&mut self, block: Block)
        requires
            old(self).wf(),
            block.index < old(self).block_state@.len(),
        ensures
            final(self).wf(),
            final(self).block_state@ == old(self).block_state@.update(
                block.index as int,
                BlockState::Unallocated,
            ),
            final(self).defrag_source@ == old(self).defrag_source@.update(block.index as int, false),
            final(self).holes == old(self).holes,
            final(self).marked_lines == old(self).marked_lines,
            final(self).reusable_blocks == old(self).reusable_blocks,
            final(self).line_marks == old(self).line_marks,
            final(self).line_mark_state == old(self).line_mark_state,
            final(self).line_unavail_state == old(self).line_unavail_state,
            final(self).mark_state == old(self).mark_state,
            final(self).defrag == old(self).defrag,
            final(self).common.start == old(self).common.start,
            final(self).common.extent == old(self).common.extent,
            final(self).common.pr.capacity == old(self).common.pr.capacity,
            final(self).common.pr.committed <= old(self).common.pr.committed,
    {
        self.block_state.set(block.index, BlockState::Unallocated);
        self.defrag_source.set(block.index, false);
        proof {
            assert(block.index * BYTES_IN_BLOCK <= self.common.pr.capacity * BYTES_IN_PAGE)
                by (nonlinear_arith)
                requires
                    block.index < self.common.pr.capacity / 8,
            ;
        }
        let start = Address::from_u64(
            self.common.start.value + (block.index as u64) * BYTES_IN_BLOCK,
        );
        let ghost before = self.common.pr;
        let ghost p = block.index * 8;
        proof {
            let st = self.common.start.value;
            let cap = self.common.pr.capacity as int;
            let b = block.index as int;
            assert((start.value - st) % 4096 == 0 && (start.value - st) / 4096 == p && p < cap && p % 8
                == 0) by (nonlinear_arith)
                requires
                    start.value == st + b * 32768,
                    p == b * 8,
                    b < cap / 8,
                    b >= 0,
            ;
        }
        let _freed = self.common.pr.release_pages(start);
        proof {
            let n = before.run_len@[p];
            let end = if n > before.capacity - p {
                before.capacity as int
            } else {
                p + n
            };
            lemma_release_keeps_runs(before, self.common.pr, PAGES_IN_BLOCK as int, p, end);
        }
    }

    /// Finish a collection: keep this cycle's line marks as the unavailable
    /// ones, sweep every block, and rebuild the list of reusable blocks.
    /// Returns whether this collection defragmented.
    pub fn release(&mut self, major_gc: bool) -> (r: bool)
        requires
            old(self).wf(),
        ensures
            final(self).wf(),
            r == old(self).defrag.in_defrag_collection,
            !final(self).defrag.in_defrag_collection,
            final(self).line_unavail_state == if major_gc {
                old(self).line_mark_state
            } else {
                old(self).line_unavail_state
            },
            final(self).line_mark_state == old(self).line_mark_state,
            final(self).mark_state == old(self).mark_state,
            final(self).line_marks == old(self).line_marks,
            final(self).block_state@.len() == old(self).block_state@.len(),
            forall|b: int|
                0 <= b < old(self).block_state@.len() ==> #[trigger] final(self).block_state@[b]
                    == Self::swept_block(
                    old(self).block_state@[b],
                    count_marked(
                        old(self).line_marks@,
                        b * LINES_IN_BLOCK,
                        LINES_IN_BLOCK as int,
                        old(self).line_mark_state,
                    ),
                ),
            forall|i: int, j: int|
                0 <= i < j < final(self).reusable_blocks@.len() ==> final(self).reusable_blocks@[i]
                    < final(self).reusable_blocks@[j],
            forall|i: int|
                0 <= i < final(self).reusable_blocks@.len() ==> (#[trigger] final(self).block_state@[final(self).reusable_blocks@[i] as int] is Reusable),
            forall|b: int|
                0 <= b < final(self).block_state@.len() && (#[trigger] final(self).block_state@[b] is Reusable)
                    ==> final(self).reusable_blocks@.contains(b as usize),
    {
        let did_defrag = self.defrag.in_defrag();
        if major_gc {
            self.line_unavail_state = self.line_mark_state;
        }
        self.reusable_blocks.clear();
        let n = self.block_state.len();
        let ghost before = *self;
        let mut b: usize = 0;
        while b < n
            invariant
                b <= n,
                n == self.block_state@.len(),
                self.wf(),
                self.line_marks == before.line_marks,
                self.line_mark_state == before.line_mark_state,
                self.line_unavail_state == before.line_unavail_state,
                self.defrag == before.defrag,
                self.mark_state == before.mark_state,
                forall|k: int|
                    0 <= k < n ==> #[trigger] self.block_state@[k] == if k < b {
                        Self::swept_block(
                            before.block_state@[k],
                            count_marked(
                                before.line_marks@,
                                k * LINES_IN_BLOCK,
                                LINES_IN_BLOCK as int,
                                before.line_mark_state,
                            ),
                        )
                    } else {
                        before.block_state@[k]
                    },
                forall|i: int| 0 <= i < self.reusable_blocks@.len() ==> #[trigger] self.reusable_blocks@[i] < b,
                forall|i: int, j: int|
                    0 <= i < j < self.reusable_blocks@.len() ==> self.reusable_blocks@[i]
                        < self.reusable_blocks@[j],
                forall|i: int|
                    0 <= i < self.reusable_blocks@.len() ==> (#[trigger] self.block_state@[self.reusable_blocks@[i] as int] is Reusable),
                forall|k: int|
                    0 <= k < b && (#[trigger] self.block_state@[k] is Reusable)
                        ==> self.reusable_blocks@.contains(k as usize),
            decreases n - b,
        {
            if self.block_state[b] != BlockState::Unallocated {
                let ghost rb = self.reusable_blocks@;
                let ghost m = count_marked(
                    self.line_marks@,
                    b * LINES_IN_BLOCK,
                    LINES_IN_BLOCK as int,
                    self.line_mark_state,
                );
                proof {
                    lemma_counts_bounded(
                        self.line_marks@,
                        b * LINES_IN_BLOCK,
                        LINES_IN_BLOCK as int,
                        self.line_mark_state,
                    );
                }
                self.sweep_block(b);
                proof {
                    if 0 < m < LINES_IN_BLOCK {
                        assert(self.reusable_blocks@ == rb.push(b));
                        assert(self.reusable_blocks@[rb.len() as int] == b);
                    } else {
                        assert(self.reusable_blocks@ == rb);
                        assert(!(self.block_state@[b as int] is Reusable));
                    }
                    assert forall|k: int|
                        0 <= k < b + 1 && (#[trigger] self.block_state@[k] is Reusable)
                        implies self.reusable_blocks@.contains(k as usize) by {
                        if k < b {
                            assert(rb.contains(k as usize));
                            let idx = choose|idx: int| 0 <= idx < rb.len() && rb[idx] == k as usize;
                            assert(self.reusable_blocks@[idx] == k as usize);
                        } else {
                            assert(0 < m < LINES_IN_BLOCK);
                            assert(self.reusable_blocks@[rb.len() as int] == b);
                        }
                    }
                }
            }
            b = b + 1;
        }
        self.defrag.in_defrag_collection = false;
        did_defrag
    }

    /// Take a fresh block from the page resource; `None` when the pages
    /// could not be had (the caller then waits for a collection).
    pub fn get_clean_block(
        &mut self,
        ctx: &mut GcContext,
        is_mutator: bool,
        copy: bool,
        pages_elsewhere: u64,
    ) -> (r: Option<Block>)
        requires
            old(self).wf(),
            old(self).common.pr.reserved <= 0x10_0000_0000,
            pages_elsewhere <= 0x10_0000_0000,
            (is_mutator && old(ctx).trigger.initialized) || old(self).common.pr.has_room(
                PAGES_IN_BLOCK as int,
            ),
        ensures
            final(self).wf(),
            final(self).block_state@.len() == old(self).block_state@.len(),
            r.is_some() <==> (!collection_due(
                old(self).common,
                *old(ctx),
                is_mutator,
                PAGES_IN_BLOCK,
                pages_elsewhere,
            ) && old(self).common.pr.has_room(PAGES_IN_BLOCK as int)),
            r matches Some(blk) ==> {
                &&& blk.index < old(self).block_state@.len()
                &&& granted(
                    old(self).common.pr,
                    final(self).common.pr,
                    PAGES_IN_BLOCK as int,
                    (old(self).common.start.value + blk.index * BYTES_IN_BLOCK) as u64,
                )
                &&& final(self).common.pr.committed == old(self).common.pr.committed + PAGES_IN_BLOCK
                &&& final(self).block_state@ == old(self).block_state@.update(
                    blk.index as int,
                    if copy {
                        BlockState::Marked
                    } else {
                        BlockState::Unmarked
                    },
                )
                &&& !final(self).defrag_source@[blk.index as int]
            },
            r.is_none() ==> {
                &&& final(self).block_state == old(self).block_state
                &&& final(self).common.pr.committed == old(self).common.pr.committed
            },
    {
        let outcome = self.common.acquire(ctx, is_mutator, PAGES_IN_BLOCK, pages_elsewhere);
        let addr = match outcome {
            AcquireOutcome::Allocated(a) => a,
            _ => {
                proof {
                    lemma_runs_same(old(self).common.pr, self.common.pr, PAGES_IN_BLOCK as int);
                }
                return None;
            },
        };
        let ghost k = choose|k: int|
            {
                &&& first_fit(old(self).common.pr.used@, k, PAGES_IN_BLOCK as int)
                &&& addr.value == old(self).common.pr.page_address(k)
                &&& self.common.pr.used@ == old(self).common.pr.used@.map(
                    |j: int, u: bool| u || (k <= j < k + PAGES_IN_BLOCK),
                )
                &&& self.common.pr.run_len@ == old(self).common.pr.run_len@.update(
                    k,
                    PAGES_IN_BLOCK,
                )
            };
        let ghost n = self.block_state@.len();
        let ghost st = self.common.start.value;
        proof {
            lemma_first_fit_aligned(old(self).common.pr, PAGES_IN_BLOCK as int, k);
            lemma_grant_keeps_runs(old(self).common.pr, self.common.pr, PAGES_IN_BLOCK as int, k);
            let cap = old(self).common.pr.capacity as int;
            assert(k + 8 <= cap);
            assert(cap == n * 8) by (nonlinear_arith)
                requires n == cap / 8, cap % 8 == 0;
            assert((addr.value - st) % 32768 == 0 && (addr.value - st) / 32768 == k / 8 && k / 8 < n)
                by (nonlinear_arith)
                requires
                    addr.value - st == k * 4096,
                    k % 8 == 0,
                    k >= 0,
                    k + 8 <= cap,
                    cap == n * 8,
            ;
        }
        let idx = ((addr.value - self.common.start.value) / BYTES_IN_BLOCK) as usize;
        proof {
            assert(st + idx * BYTES_IN_BLOCK == addr.value) by (nonlinear_arith)
                requires
                    idx == (addr.value - st) / 32768,
                    (addr.value - st) % 32768 == 0,
                    addr.value >= st;
        }
        self.defrag.notify_new_clean_block(copy);
        self.block_state.set(idx, if copy {
            BlockState::Marked
        } else {
            BlockState::Unmarked
        });
        self.defrag_source.set(idx, false);
        Some(Block { index: idx })
    }

    /// Take a block from the list of reusable blocks. A block to be
    /// evacuated is never handed out for copying: it is dropped from the list.
    pub fn get_reusable_block(&mut self, copy: bool) -> (r: Option<Block>)
        requires
            old(self).wf(),
        ensures
            final(self).wf(),
            final(self).block_state@.len() == old(self).block_state@.len(),
            final(self).defrag_source == old(self).defrag_source,
            r matches Some(blk) ==> exists|k: int|
                {
                    &&& 0 <= k < old(self).reusable_blocks@.len()
                    &&& old(self).reusable_blocks@[k] == blk.index
                    &&& !(copy && old(self).defrag_source@[blk.index as int])
                    &&& final(self).reusable_blocks@ == old(self).reusable_blocks@.subrange(0, k)
                    &&& all_skipped(old(self).reusable_blocks@, k + 1, copy, old(self).defrag_source@)
                    &&& final(self).block_state@ == old(self).block_state@.update(
                        blk.index as int,
                        if copy {
                            BlockState::Marked
                        } else {
                            BlockState::Unmarked
                        },
                    )
                },
            r.is_none() ==> {
                &&& final(self).reusable_blocks@.len() == 0
                &&& final(self).block_state == old(self).block_state
                &&& all_skipped(old(self).reusable_blocks@, 0, copy, old(self).defrag_source@)
            },
    {
        let ghost list = self.reusable_blocks@;
        let ghost src = self.defrag_source@;
        loop
            invariant
                self.wf(),
                self.block_state == old(self).block_state,
                self.defrag_source == old(self).defrag_source,
                src == old(self).defrag_source@,
                list == old(self).reusable_blocks@,
                self.reusable_blocks@.len() <= list.len(),
                self.reusable_blocks@ == list.subrange(0, self.reusable_blocks@.len() as int),
                all_skipped(list, self.reusable_blocks@.len() as int, copy, src),
            decreases self.reusable_blocks@.len(),
        {
            let ghost cur = self.reusable_blocks@;
            match self.reusable_blocks.pop() {
                Some(b) => {
                    let ghost k = self.reusable_blocks@.len() as int;
                    proof {
                        assert(cur == list.subrange(0, k + 1));
                        assert(list[k] == b);
                        assert(self.reusable_blocks@ =~= list.subrange(0, k));
                    }
                    if copy && self.defrag_source[b] {
                        proof {
                            lemma_all_skipped_extend(list, k, copy, src);
                        }
                        continue;
                    }
                    self.block_state.set(b, if copy {
                        BlockState::Marked
                    } else {
                        BlockState::Unmarked
                    });
                    return Some(Block { index: b });
                },
                None => {
                    return None;
                },
            }
        }
    }

    /// Whether `object` is pinned in place. Pinning is not supported.
    pub fn is_pinned(object: ObjectReference) -> (r: bool)
        ensures
            !r,
    {
        false
    }
}

} // verus!

verus! {

/// Work that marks the lines of scanned objects of an Immix space.
pub struct ScanObjectsAndMarkLines {
    pub buffer: Vec<ObjectReference>,
    /// The size in bytes of each buffered object.
    pub sizes: Vec<u64>,
    pub concurrent: bool,
}

impl ScanObjectsAndMarkLines {
    pub fn new(buffer: Vec<ObjectReference>, sizes: Vec<u64>, concurrent: bool) -> (r:
        ScanObjectsAndMarkLines)
        ensures
            r.buffer == buffer,
            r.sizes == sizes,
            r.concurrent == concurrent,
    {
        ScanObjectsAndMarkLines { buffer, sizes, concurrent }
    }

    /// Mark the lines of every buffered object that lies in the space.
    pub fn do_work(&self, space: &mut ImmixSpace)
        requires
            old(space).wf(),
            self.buffer@.len() == self.sizes@.len(),
            forall|i: int| 0 <= i < self.sizes@.len() ==> 0 < #[trigger] self.sizes@[i] <= BYTES_IN_BLOCK,
        ensures
            final(space).wf(),
            final(space).same_except_lines(*old(space)),
            forall|i: int|
                0 <= i < self.buffer@.len() && old(space).holds(#[trigger] self.buffer@[i].value)
                    ==> forall|l: int|
                    old(space).spans(self.buffer@[i].value, self.sizes@[i], l)
                        ==> final(space).line_marks@[l] == old(space).line_mark_state,
            forall|l: int|
                0 <= l < old(space).line_marks@.len() && final(space).line_marks@[l] != old(
                    space,
                ).line_marks@[l] ==> final(space).line_marks@[l] == old(space).line_mark_state,
    {
        let n = self.buffer.len();
        let ghost before = *space;
        let mut i: usize = 0;
        while i < n
            invariant
                i <= n,
                n == self.buffer@.len(),
                self.buffer@.len() == self.sizes@.len(),
                forall|k: int| 0 <= k < self.sizes@.len() ==> 0 < #[trigger] self.sizes@[k] <= BYTES_IN_BLOCK,
                space.wf(),
                space.same_except_lines(before),
                forall|k: int|
                    0 <= k < i && before.holds(#[trigger] self.buffer@[k].value) ==> forall|l: int|
                        before.spans(self.buffer@[k].value, self.sizes@[k], l)
                            ==> space.line_marks@[l] == before.line_mark_state,
                forall|l: int|
                    0 <= l < before.line_marks@.len() && space.line_marks@[l]
                        != before.line_marks@[l] ==> space.line_marks@[l] == before.line_mark_state,
            decreases n - i,
        {
            let object = self.buffer[i];
            if object.value >= space.common.start.value && (object.value - space.common.start.value)
                / BYTES_IN_BLOCK < space.block_state.len() as u64 {
                let ghost mid = *space;
                space.mark_lines(object, self.sizes[i]);
                proof {
                    assert forall|k: int|
                        0 <= k < i + 1 && before.holds(#[trigger] self.buffer@[k].value) implies forall|l: int|
                        before.spans(self.buffer@[k].value, self.sizes@[k], l)
                            ==> space.line_marks@[l] == before.line_mark_state by {
                        assert forall|l: int| before.spans(self.buffer@[k].value, self.sizes@[k], l)
                            implies space.line_marks@[l] == before.line_mark_state by {
                            if k < i {
                                assert(mid.line_marks@[l] == before.line_mark_state);
                            }
                        }
                    }
                }
            }
            i = i + 1;
        }
    }
}

} // verus!

verus! {

/// Work that prepares the blocks `[first_block, end_block)` (one chunk)
/// for a collection: each allocated block is marked as an evacuation
/// source when it has more holes than the threshold, and reset to unmarked.
pub struct PrepareBlockState {
    pub first_block: usize,
    pub end_block: usize,
    pub defrag_threshold: Option<u64>,
}

impl PrepareBlockState {
    /// Clear the marks of objects. The mark table spans every chunk, and all
    /// chunks are prepared together, so it is cleared whole.
    pub fn reset_object_mark(space: &mut ImmixSpace)
        requires
            old(space).wf(),
        ensures
            final(space).wf(),
            final(space).object_marks.view() == Map::<u64, u64>::empty(),
            final(space).same_except_marks(*old(space)),
    {
        space.object_marks = WordTable::new();
    }

    pub fn do_work(&self, space: &mut ImmixSpace)
        requires
            old(space).wf(),
            self.first_block <= self.end_block <= old(space).block_state@.len(),
        ensures
            final(space).wf(),
            final(space).block_state@.len() == old(space).block_state@.len(),
            forall|k: int|
                0 <= k < old(space).block_state@.len() ==> #[trigger] final(space).block_state@[k]
                    == if self.first_block <= k < self.end_block {
                    ImmixSpace::prepared_block(old(space).block_state@[k])
                } else {
                    old(space).block_state@[k]
                },
            forall|k: int|
                0 <= k < old(space).block_state@.len() ==> #[trigger] final(space).defrag_source@[k]
                    == if self.first_block <= k < self.end_block {
                    ImmixSpace::prepared_source(
                        old(space).block_state@[k],
                        old(space).holes@[k],
                        old(space).defrag_source@[k],
                        match self.defrag_threshold {
                            Some(t) => t,
                            None => 0,
                        },
                    )
                } else {
                    old(space).defrag_source@[k]
                },
            final(space).holes == old(space).holes,
            final(space).marked_lines == old(space).marked_lines,
            final(space).line_marks == old(space).line_marks,
            final(space).reusable_blocks == old(space).reusable_blocks,
            final(space).common == old(space).common,
            final(space).forwarding == old(space).forwarding,
            final(space).object_marks.view() == Map::<u64, u64>::empty(),
            final(space).defrag == old(space).defrag,
            final(space).mark_state == old(space).mark_state,
            final(space).line_mark_state == old(space).line_mark_state,
            final(space).line_unavail_state == old(space).line_unavail_state,
    {
        let threshold = match self.defrag_threshold {
            Some(t) => t,
            None => 0,
        };
        Self::reset_object_mark(space);
        let ghost before = *space;
        let mut i = self.first_block;
        while i < self.end_block
            invariant
                self.first_block <= i <= self.end_block <= space.block_state@.len(),
                space.wf(),
                space.block_state@.len() == before.block_state@.len(),
                forall|k: int|
                    0 <= k < before.block_state@.len() ==> #[trigger] space.block_state@[k] == if self.first_block <= k < i {
                        ImmixSpace::prepared_block(before.block_state@[k])
                    } else {
                        before.block_state@[k]
                    },
                forall|k: int|
                    0 <= k < before.block_state@.len() ==> #[trigger] space.defrag_source@[k] == if self.first_block <= k < i {
                        ImmixSpace::prepared_source(
                            before.block_state@[k],
                            before.holes@[k],
                            before.defrag_source@[k],
                            threshold,
                        )
                    } else {
                        before.defrag_source@[k]
                    },
                space.holes == before.holes,
                space.marked_lines == before.marked_lines,
                space.line_marks == before.line_marks,
                space.reusable_blocks == before.reusable_blocks,
                space.common == before.common,
                space.forwarding == before.forwarding,
                space.object_marks.view() == Map::<u64, u64>::empty(),
                space.defrag == before.defrag,
                space.mark_state == before.mark_state,
                space.line_mark_state == before.line_mark_state,
                space.line_unavail_state == before.line_unavail_state,
            decreases self.end_block - i,
        {
            if space.block_state[i] != BlockState::Unallocated {
                let source = DEFRAG && threshold != 0 && space.holes[i] > threshold;
                space.defrag_source.set(i, source);
                space.block_state.set(i, BlockState::Unmarked);
            }
            i = i + 1;
        }
    }
}

} // verus!

verus! {

/// Which of a copy context's two allocators takes a copy.
#[derive(Clone, Copy, Debug, PartialEq, Eq, Structural)]
pub enum CopyAllocatorKind {
    Copy,
    Defrag,
}

/// Where a collector thread copies objects evacuated out of Immix blocks.
pub struct ImmixCopyContext {
    pub tls: u64,
}

impl ImmixCopyContext {
    pub fn new(tls: u64) -> (r: ImmixCopyContext)
        ensures
            r.tls == tls,
    {
        ImmixCopyContext { tls }
    }

    /// A defragmenting collection copies with the defrag allocator.
    pub fn alloc_copy(&self, space: &ImmixSpace) -> (r: CopyAllocatorKind)
        ensures
            r == if space.defrag.in_defrag_collection {
                CopyAllocatorKind::Defrag
            } else {
                CopyAllocatorKind::Copy
            },
    {
        if space.in_defrag() {
            CopyAllocatorKind::Defrag
        } else {
            CopyAllocatorKind::Copy
        }
    }

    /// A fresh copy is marked live; its lines are marked when it is scanned.
    pub fn post_copy(&self, space: &mut ImmixSpace, object: ObjectReference)
        requires
            old(space).wf(),
        ensures
            final(space).wf(),
            final(space).object_marks.view() == old(space).object_marks.view().insert(
                object.value,
                old(space).mark_state,
            ),
            final(space).line_marks == old(space).line_marks,
            final(space).block_state == old(space).block_state,
            final(space).forwarding == old(space).forwarding,
    {
        let mark = space.mark_state;
        space.object_marks.write(object.value, mark);
    }
}

} // verus!
