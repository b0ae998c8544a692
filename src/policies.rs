use vstd::prelude::*;

use crate::address::ObjectReference;
use crate::forwarding::{
    after_attempt, attempt_to_forward, extract_forwarding_pointer, forwarded_word,
    lemma_settle_claim, none_being_forwarded, pointer_of, set_forwarding_pointer,
    spin_and_get_forwarded_object, spin_result, state_is_being_forwarded,
    state_is_forwarded_or_being_forwarded, state_of, ObjectCopier, BEING_FORWARDED,
    FORWARDING_NOT_TRIGGERED_YET,
};
use crate::page_resource::PageResourceKind;
use crate::plan::Allocator;
use crate::layout::{raw_chunk_align, BYTES_IN_MBYTE, BYTES_IN_PAGE, PAGES_IN_CHUNK};
use crate::page_resource::{
    count_true, first_fit, granted, lemma_count_true_bound, lemma_count_true_update,
    lemma_first_fit_aligned, lemma_grant_keeps_runs, lemma_release_keeps_runs, lemma_runs_same,
    lemma_runs_when_empty, runs_of,
};
use crate::phase::SSCollector;
use crate::plan::GcContext;
use crate::space::{
    collection_due, layout_error, request_extent, AbstractSpace, AcquireOutcome, CommonSpace,
    HeapMeta, VMRequest,
};
use crate::word_table::{word_at, WordTable};

verus! {

/// Metadata pages that each region of a space keeps for itself.
pub const META_DATA_PAGES_PER_REGION: u64 = 0;

/// One half of a semispace heap: objects are copied out of it while it
/// is the from-space.
pub struct CopySpace {
    pub common: CommonSpace,
    pub from_space: bool,
    /// The forwarding status word of each object, by address.
    pub forwarding: WordTable,
}

impl AbstractSpace for CopySpace {
    open spec fn common_spec(&self) -> CommonSpace {
        self.common
    }

    fn common(&self) -> (r: &CommonSpace) {
        &self.common
    }
}

impl CopySpace {
    pub open spec fn wf(&self) -> bool {
        &&& self.common.wf()
        &&& self.common.pr.kind == PageResourceKind::Monotone
        &&& none_being_forwarded(self.forwarding.view())
    }

    pub fn new(name: &'static str, from_space: bool, zeroed: bool, vmrequest: VMRequest, heap: &mut HeapMeta) -> (s:
        CopySpace)
        requires
            old(heap).wf(),
            layout_error(vmrequest, *old(heap)).is_none(),
        ensures
            final(heap).wf(),
            s.wf(),
            s.from_space == from_space,
            s.common.movable,
            !s.common.immortal,
            s.common.name == name,
            s.common.extent == request_extent(vmrequest),
    {
        let common = CommonSpace::new(
            name,
            true,
            false,
            zeroed,
            vmrequest,
            PageResourceKind::Monotone,
            META_DATA_PAGES_PER_REGION,
            heap,
        );
        CopySpace { common, from_space, forwarding: WordTable::new() }
    }

    pub fn prepare(&mut self, from_space: bool)
        ensures
            final(self).from_space == from_space,
            final(self).common == old(self).common,
            final(self).forwarding == old(self).forwarding,
    {
        self.from_space = from_space;
    }

    /// Give back every page and stop being the from-space.
    pub fn release(&mut self)
        requires
            old(self).wf(),
        ensures
            final(self).wf(),
            !final(self).from_space,
            final(self).common.pr.reserved == 0,
            final(self).common.pr.committed == 0,
            final(self).common.pr.capacity == old(self).common.pr.capacity,
            final(self).common.start == old(self).common.start,
    {
        self.common.pr.reset();
        self.from_space = false;
    }

    /// Trace an object: outside the from-space it stays where it is; in it,
    /// the first thread to claim the object copies it and queues the copy,
    /// and every other thread gets the copy's address.
    pub fn trace_object<C: ObjectCopier>(
        &mut self,
        trace: &mut Vec<ObjectReference>,
        object: ObjectReference,
        allocator: Allocator,
        copier: &mut C,
    ) -> (r: ObjectReference)
        requires
            old(self).wf(),
        ensures
            final(self).wf(),
            final(self).common == old(self).common,
            final(self).from_space == old(self).from_space,
            !old(self).from_space ==> r == object && final(trace)@ == old(trace)@
                && final(self).forwarding == old(self).forwarding,
            old(self).from_space ==> {
                let w = old(self).forwarding.at(object.value);
                if state_of(w) != FORWARDING_NOT_TRIGGERED_YET {
                    &&& r.value == pointer_of(w)
                    &&& final(trace)@ == old(trace)@
                    &&& final(self).forwarding.view() == old(self).forwarding.view()
                } else {
                    &&& r.value % 4 == 0
                    &&& final(trace)@ == old(trace)@.push(r)
                    &&& final(self).forwarding.view() == old(self).forwarding.view().insert(
                        object.value,
                        forwarded_word(r.value),
                    )
                }
            },
    {
        if !self.from_space {
            return object;
        }
        let mut forwarding_word = attempt_to_forward(&mut self.forwarding, object);
        if state_is_forwarded_or_being_forwarded(forwarding_word) {
            while state_is_being_forwarded(forwarding_word)
                invariant
                    none_being_forwarded(self.forwarding.view()),
                    forwarding_word == self.forwarding.at(object.value),
                decreases (if state_of(forwarding_word) == BEING_FORWARDED {
                    1int
                } else {
                    0int
                }),
            {
                forwarding_word = self.forwarding.read(object.value);
            }
            return extract_forwarding_pointer(forwarding_word);
        }
        let ghost fw1 = self.forwarding.view();
        assert forall|k: u64| k != object.value implies state_of(#[trigger] word_at(fw1, k))
            != BEING_FORWARDED by {
            assert(word_at(fw1, k) == word_at(old(self).forwarding.view(), k));
        }
        let new_object = crate::forwarding::forward_object(&mut self.forwarding, object, allocator, copier);
        proof {
            lemma_settle_claim(fw1, object.value, forwarded_word(new_object.value));
        }
        trace.push(new_object);
        new_object
    }
}

pub const GC_MARK_BIT_MASK: u64 = 1;
/// Whether objects carry an unlogged bit for a write barrier.
pub const NEEDS_UNLOGGED_BIT: bool = false;
pub const UNLOGGED_BIT: u64 = 2;

/// A space whose objects never move and never die; each collection flips
/// the value that counts as marked.
pub struct ImmortalFreeListSpace {
    pub common: CommonSpace,
    pub mark_state: u64,
    /// The header byte of each object, by address.
    pub header: WordTable,
}

impl AbstractSpace for ImmortalFreeListSpace {
    open spec fn common_spec(&self) -> CommonSpace {
        self.common
    }

    fn common(&self) -> (r: &CommonSpace) {
        &self.common
    }
}

impl ImmortalFreeListSpace {
    pub open spec fn wf(&self) -> bool {
        &&& self.common.wf()
        &&& self.mark_state <= 1
    }

    pub fn new(name: &'static str, zeroed: bool, vmrequest: VMRequest, heap: &mut HeapMeta) -> (s:
        ImmortalFreeListSpace)
        requires
            old(heap).wf(),
            layout_error(vmrequest, *old(heap)).is_none(),
        ensures
            final(heap).wf(),
            s.wf(),
            s.mark_state == 0,
            s.common.name == name,
            s.common.extent == request_extent(vmrequest),
            !s.common.movable,
            s.common.immortal,
            s.common.pr.kind == PageResourceKind::FreeList,
    {
        let common = CommonSpace::new(
            name,
            false,
            true,
            zeroed,
            vmrequest,
            PageResourceKind::FreeList,
            META_DATA_PAGES_PER_REGION,
            heap,
        );
        ImmortalFreeListSpace { common, mark_state: 0, header: WordTable::new() }
    }

    /// Set the object's mark bit to `value`; false when it held that value already.
    pub fn test_and_mark(header: &mut WordTable, object: ObjectReference, value: u64) -> (r: bool)
        requires
            value <= 1,
        ensures
            r == (old(header).at(object.value) % 2 != value),
            final(header).at(object.value) % 2 == value,
            r ==> final(header).view() == old(header).view().insert(
                object.value,
                if old(header).at(object.value) % 2 == 1 {
                    (old(header).at(object.value) - 1) as u64
                } else {
                    (old(header).at(object.value) + 1) as u64
                },
            ),
            !r ==> final(header).view() == old(header).view(),
    {
        let old_value = header.read(object.value);
        let mark_bit = old_value % 2;
        if mark_bit == value {
            return false;
        }
        let flipped = if mark_bit == 1 {
            old_value - 1
        } else {
            old_value + 1
        };
        header.write(object.value, flipped);
        true
    }

    /// Mark the object and, the first time in this collection, queue it.
    pub fn trace_object(&mut self, trace: &mut Vec<ObjectReference>, object: ObjectReference) -> (r:
        ObjectReference)
        requires
            old(self).wf(),
        ensures
            final(self).wf(),
            r == object,
            final(self).header.at(object.value) % 2 == old(self).mark_state,
            final(trace)@ == if old(self).header.at(object.value) % 2 == old(self).mark_state {
                old(trace)@
            } else {
                old(trace)@.push(object)
            },
    {
        let ms = self.mark_state;
        if Self::test_and_mark(&mut self.header, object, ms) {
            trace.push(object);
        }
        object
    }

    /// Give a new object the current mark state.
    pub fn initialize_header(&mut self, object: ObjectReference)
        requires
            old(self).wf(),
        ensures
            final(self).wf(),
            final(self).header.view() == old(self).header.view().insert(
                object.value,
                if old(self).header.at(object.value) % 2 == 1 || old(self).mark_state == 1 {
                    1
                } else {
                    0
                },
            ),
    {
        let old_value = self.header.read(object.value);
        let new_value = if old_value % 2 == 1 || self.mark_state == 1 {
            1
        } else {
            0
        };
        self.header.write(object.value, new_value);
    }

    /// Flip the value that counts as marked.
    pub fn prepare(&mut self)
        requires
            old(self).wf(),
        ensures
            final(self).wf(),
            final(self).mark_state == GC_MARK_BIT_MASK - old(self).mark_state,
            final(self).header == old(self).header,
    {
        self.mark_state = GC_MARK_BIT_MASK - self.mark_state;
    }

    pub fn release(&mut self)
        ensures
            *final(self) == *old(self),
    {
    }
}

/// The request for the boot image space: the whole megabytes of the
/// chunks that the boot segment takes.
pub open spec fn boot_request(boot_segment_bytes: u64) -> VMRequest {
    VMRequest::Extent {
        extent: ((crate::layout::chunk_align_spec(boot_segment_bytes as int, false) / (
        BYTES_IN_MBYTE as int)) * BYTES_IN_MBYTE) as u64,
        top: false,
    }
}

/// The space of the host's boot image: immortal, of the whole megabytes
/// that the boot segment's chunks take.
pub fn create_vm_space(boot_segment_bytes: u64, heap: &mut HeapMeta) -> (s: ImmortalFreeListSpace)
    requires
        old(heap).wf(),
        boot_segment_bytes <= 0x0000_8000_0000_0000,
        layout_error(boot_request(boot_segment_bytes), *old(heap)).is_none(),
    ensures
        final(heap).wf(),
        s.wf(),
        s.common.name == "boot",
        s.common.extent == request_extent(boot_request(boot_segment_bytes)),
{
    let aligned = raw_chunk_align(boot_segment_bytes, false);
    let mb = aligned / BYTES_IN_MBYTE;
    proof {
        assert(mb * BYTES_IN_MBYTE <= aligned) by (nonlinear_arith)
            requires mb == aligned / 1048576;
    }
    ImmortalFreeListSpace::new("boot", false, VMRequest::fixed_size(mb), heap)
}

impl SSCollector {
    /// After an object is copied: its forwarding bits are cleared, and a
    /// copy into the large object space gets its header initialised there.
    pub fn post_copy(
        &self,
        forwarding: &mut WordTable,
        los: &mut ImmortalFreeListSpace,
        object: ObjectReference,
        allocator: Allocator,
    )
        requires
            old(los).wf(),
        ensures
            final(los).wf(),
            final(forwarding).view() == old(forwarding).view().insert(
                object.value,
                pointer_of(old(forwarding).at(object.value)),
            ),
            allocator != Allocator::Los ==> final(los).header == old(los).header,
            allocator == Allocator::Los ==> final(los).header.view() == old(los).header.view().insert(
                object.value,
                if old(los).header.at(object.value) % 2 == 1 || old(los).mark_state == 1 {
                    1
                } else {
                    0
                },
            ),
    {
        crate::forwarding::clear_forwarding_bits(forwarding, object);
        if allocator == Allocator::Los {
            los.initialize_header(object);
        }
    }
}

} // verus!

verus! {

pub const BYTES_IN_REGION: u64 = 1048576;
pub const PAGES_IN_REGION: u64 = 256;

/// Regions in one chunk of the address space.
pub const REGIONS_IN_CHUNK: u64 = 4;

/// The bytes that evacuation may copy into: the regions of the whole chunks
/// among `available_pages` pages.
pub open spec fn collection_budget(available_pages: u64) -> int {
    (available_pages / PAGES_IN_CHUNK) as int * REGIONS_IN_CHUNK * BYTES_IN_REGION
}

/// The most live bytes a region may hold and still be evacuated: 65% of it.
pub const MAX_LIVE_SIZE: u64 = 681574;

/// Region `i` comes before region `j` in the order of live bytes, then of index.
pub open spec fn precedes(r: Seq<RegionMeta>, i: int, j: int) -> bool {
    r[i].live_size < r[j].live_size || (r[i].live_size == r[j].live_size && i < j)
}

/// The live bytes of the regions `chosen`.
pub open spec fn sum_live(r: Seq<RegionMeta>, chosen: Seq<usize>) -> int
    decreases chosen.len(),
{
    if chosen.len() == 0 {
        0
    } else {
        sum_live(r, chosen.drop_last()) + r[chosen.last() as int].live_size
    }
}

pub proof fn lemma_push_contains(s: Seq<usize>, b: usize, x: usize)
    ensures
        s.push(b).contains(x) == (s.contains(x) || x == b),
{
    if s.push(b).contains(x) {
        let i = choose|i: int| 0 <= i < s.push(b).len() && s.push(b)[i] == x;
        if i < s.len() {
            assert(s[i] == x);
        }
    }
    if s.contains(x) {
        let i = choose|i: int| 0 <= i < s.len() && s[i] == x;
        assert(s.push(b)[i] == x);
    }
    if x == b {
        assert(s.push(b)[s.len() as int] == b);
    }
}

/// What a region space knows of one region.
#[derive(Clone, Copy, Debug, PartialEq, Eq, Structural)]
pub struct RegionMeta {
    pub committed: bool,
    /// Chosen for evacuation in this collection.
    pub relocate: bool,
    /// Bytes of live objects found in this collection.
    pub live_size: u64,
}

/// A space of fixed-size regions, some of which are evacuated.
pub struct RegionSpace {
    pub common: CommonSpace,
    pub regions: Vec<RegionMeta>,
    pub marks: WordTable,
    pub forwarding: WordTable,
}

impl AbstractSpace for RegionSpace {
    open spec fn common_spec(&self) -> CommonSpace {
        self.common
    }

    fn common(&self) -> (r: &CommonSpace) {
        &self.common
    }
}

impl RegionSpace {
    pub open spec fn wf(&self) -> bool {
        &&& self.common.wf()
        &&& self.common.pr.kind == PageResourceKind::FreeList
        &&& runs_of(self.common.pr, PAGES_IN_REGION as int)
        &&& self.common.pr.capacity % PAGES_IN_REGION == 0
        &&& self.regions@.len() == self.common.pr.capacity / PAGES_IN_REGION
        &&& none_being_forwarded(self.forwarding.view())
    }

    pub open spec fn region_of(&self, object: u64) -> int {
        (object - self.common.start.value) / (BYTES_IN_REGION as int)
    }

    pub open spec fn holds(&self, object: u64) -> bool {
        self.common.start.value <= object && self.region_of(object) < self.regions@.len()
    }

    pub fn new(name: &'static str, vmrequest: VMRequest, heap: &mut HeapMeta) -> (s: RegionSpace)
        requires
            old(heap).wf(),
            layout_error(vmrequest, *old(heap)).is_none(),
        ensures
            final(heap).wf(),
            s.wf(),
            s.common.movable,
            s.common.extent == request_extent(vmrequest),
            forall|i: int|
                0 <= i < s.regions@.len() ==> s.regions@[i] == (RegionMeta {
                    committed: false,
                    relocate: false,
                    live_size: 0,
                }),
    {
        let common = CommonSpace::new(
            name,
            true,
            false,
            true,
            vmrequest,
            PageResourceKind::FreeList,
            META_DATA_PAGES_PER_REGION,
            heap,
        );
        proof {
            let cap = common.pr.capacity as int;
            let ext = common.extent as int;
            assert(cap % 256 == 0) by (nonlinear_arith)
                requires
                    cap == ext / 4096,
                    ext % 4194304 == 0,
                    ext >= 0,
            ;
            lemma_runs_when_empty(common.pr, PAGES_IN_REGION as int);
        }
        let n = (common.pr.capacity / PAGES_IN_REGION) as usize;
        let mut regions: Vec<RegionMeta> = Vec::new();
        let mut i: usize = 0;
        while i < n
            invariant
                i <= n,
                n == common.pr.capacity / PAGES_IN_REGION,
                regions@.len() == i,
                forall|k: int| 0 <= k < i ==> regions@[k] == (RegionMeta {
                    committed: false,
                    relocate: false,
                    live_size: 0,
                }),
            decreases n - i,
        {
            regions.push(RegionMeta { committed: false, relocate: false, live_size: 0 });
            i = i + 1;
        }
        RegionSpace { common, regions, marks: WordTable::new(), forwarding: WordTable::new() }
    }

    /// Clear the marks and the live sizes of every region.
    pub fn prepare(&mut self)
        requires
            old(self).wf(),
        ensures
            final(self).wf(),
            final(self).marks.view() == Map::<u64, u64>::empty(),
            final(self).regions@.len() == old(self).regions@.len(),
            forall|i: int|
                0 <= i < old(self).regions@.len() ==> #[trigger] final(self).regions@[i] == (RegionMeta {
                    live_size: 0,
                    ..old(self).regions@[i]
                }),
    {
        self.marks = WordTable::new();
        let n = self.regions.len();
        let mut i: usize = 0;
        while i < n
            invariant
                i <= n,
                n == self.regions@.len(),
                n == old(self).regions@.len(),
                self.common == old(self).common,
                self.forwarding == old(self).forwarding,
                self.marks.view() == Map::<u64, u64>::empty(),
                old(self).wf(),
                forall|k: int|
                    0 <= k < n ==> #[trigger] self.regions@[k] == if k < i {
                        RegionMeta { live_size: 0, ..old(self).regions@[k] }
                    } else {
                        old(self).regions@[k]
                    },
            decreases n - i,
        {
            let r = self.regions[i];
            self.regions.set(i, RegionMeta { live_size: 0, ..r });
            i = i + 1;
        }
    }

    /// Take a fresh region from the page resource; `None` when the thread
    /// must first wait for a collection.
    pub fn acquire_new_region(&mut self, ctx: &mut GcContext, is_mutator: bool, pages_elsewhere: u64) -> (r:
        Option<usize>)
        requires
            old(self).wf(),
            old(self).common.pr.reserved <= 0x10_0000_0000,
            pages_elsewhere <= 0x10_0000_0000,
            (is_mutator && old(ctx).trigger.initialized) || old(self).common.pr.has_room(
                PAGES_IN_REGION as int,
            ),
        ensures
            final(self).wf(),
            final(self).regions@.len() == old(self).regions@.len(),
            r.is_some() <==> (!collection_due(
                old(self).common,
                *old(ctx),
                is_mutator,
                PAGES_IN_REGION,
                pages_elsewhere,
            ) && old(self).common.pr.has_room(PAGES_IN_REGION as int)),
            r matches Some(i) ==> {
                &&& i < old(self).regions@.len()
                &&& granted(
                    old(self).common.pr,
                    final(self).common.pr,
                    PAGES_IN_REGION as int,
                    (old(self).common.start.value + i * BYTES_IN_REGION) as u64,
                )
                &&& final(self).regions@ == old(self).regions@.update(
                    i as int,
                    RegionMeta { committed: true, relocate: false, live_size: 0 },
                )
            },
            r.is_none() ==> final(self).regions == old(self).regions
                && final(self).common.pr.committed == old(self).common.pr.committed,
    {
        let addr = match self.common.acquire(ctx, is_mutator, PAGES_IN_REGION, pages_elsewhere) {
            AcquireOutcome::Allocated(a) => a,
            _ => {
                proof {
                    lemma_runs_same(old(self).common.pr, self.common.pr, PAGES_IN_REGION as int);
                }
                return None;
            },
        };
        let ghost k = choose|k: int|
            {
                &&& first_fit(old(self).common.pr.used@, k, PAGES_IN_REGION as int)
                &&& addr.value == old(self).common.pr.page_address(k)
                &&& self.common.pr.used@ == old(self).common.pr.used@.map(
                    |j: int, u: bool| u || (k <= j < k + PAGES_IN_REGION),
                )
                &&& self.common.pr.run_len@ == old(self).common.pr.run_len@.update(
                    k,
                    PAGES_IN_REGION,
                )
            };
        let ghost n = self.regions@.len();
        let ghost st = self.common.start.value;
        proof {
            lemma_first_fit_aligned(old(self).common.pr, PAGES_IN_REGION as int, k);
            lemma_grant_keeps_runs(old(self).common.pr, self.common.pr, PAGES_IN_REGION as int, k);
            let cap = old(self).common.pr.capacity as int;
            assert(k + 256 <= cap);
            assert(cap == n * 256) by (nonlinear_arith)
                requires n == cap / 256, cap % 256 == 0;
            assert((addr.value - st) % 1048576 == 0 && (addr.value - st) / 1048576 == k / 256 && k
                / 256 < n) by (nonlinear_arith)
                requires
                    addr.value - st == k * 4096,
                    k % 256 == 0,
                    k >= 0,
                    k + 256 <= cap,
                    cap == n * 256,
            ;
        }
        let i = ((addr.value - self.common.start.value) / BYTES_IN_REGION) as usize;
        proof {
            assert(st + i * BYTES_IN_REGION == addr.value) by (nonlinear_arith)
                requires
                    i == (addr.value - st) / 1048576,
                    (addr.value - st) % 1048576 == 0,
                    addr.value >= st,
            ;
        }
        self.regions.set(i, RegionMeta { committed: true, relocate: false, live_size: 0 });
        Some(i)
    }

    /// Give back region `i`: it is cleared and its pages freed.
    fn release_region(&mut self, i: usize)
        requires
            old(self).wf(),
            i < old(self).regions@.len(),
        ensures
            final(self).wf(),
            final(self).regions@ == old(self).regions@.update(
                i as int,
                RegionMeta { committed: false, relocate: false, live_size: 0 },
            ),
            final(self).marks == old(self).marks,
            final(self).forwarding == old(self).forwarding,
    {
        self.regions.set(i, RegionMeta { committed: false, relocate: false, live_size: 0 });
        proof {
            assert(i * BYTES_IN_REGION <= self.common.pr.capacity * crate::layout::BYTES_IN_PAGE)
                by (nonlinear_arith)
                requires i < self.common.pr.capacity / 256;
        }
        let start = crate::address::Address::from_u64(
            self.common.start.value + (i as u64) * BYTES_IN_REGION,
        );
        let ghost before = self.common.pr;
        let ghost p = i * 256;
        proof {
            let st = self.common.start.value;
            let cap = self.common.pr.capacity as int;
            let b = i as int;
            assert((start.value - st) % 4096 == 0 && (start.value - st) / 4096 == p && p < cap && p
                % 256 == 0) by (nonlinear_arith)
                requires
                    start.value == st + b * 1048576,
                    p == b * 256,
                    b < cap / 256,
                    b >= 0,
            ;
        }
        let _freed = self.common.pr.release_pages(start);
        proof {
            let m = before.run_len@[p];
            let end = if m > before.capacity - p {
                before.capacity as int
            } else {
                p + m
            };
            lemma_release_keeps_runs(before, self.common.pr, PAGES_IN_REGION as int, p, end);
        }
    }

    /// After a collection every region that was evacuated is given back.
    pub fn release(&mut self)
        requires
            old(self).wf(),
        ensures
            final(self).wf(),
            final(self).regions@.len() == old(self).regions@.len(),
            forall|i: int|
                0 <= i < old(self).regions@.len() ==> #[trigger] final(self).regions@[i] == if old(
                    self,
                ).regions@[i].relocate {
                    RegionMeta { committed: false, relocate: false, live_size: 0 }
                } else {
                    old(self).regions@[i]
                },
    {
        let n = self.regions.len();
        let mut i: usize = 0;
        while i < n
            invariant
                i <= n,
                n == self.regions@.len(),
                n == old(self).regions@.len(),
                self.wf(),
                forall|k: int|
                    0 <= k < n ==> #[trigger] self.regions@[k] == if k < i && old(self).regions@[k].relocate {
                        RegionMeta { committed: false, relocate: false, live_size: 0 }
                    } else {
                        old(self).regions@[k]
                    },
            decreases n - i,
        {
            if self.regions[i].relocate {
                self.release_region(i);
            }
            i = i + 1;
        }
    }

    /// Choose the regions to evacuate: in the order of live bytes, each
    /// committed region that holds at most `MAX_LIVE_SIZE` live bytes and
    /// whose live bytes fit in what is left of the regions of the whole
    /// chunks among `available_pages` pages. Returns the
    /// chosen regions in that order and marks them for relocation.
    pub fn compute_collection_set(&mut self, available_pages: u64) -> (chosen: Vec<usize>)
        requires
            old(self).wf(),
            available_pages <= 0x8_0000_0000,
        ensures
            final(self).wf(),
            ({
                let r = old(self).regions@;
                let avail = collection_budget(available_pages);
                &&& final(self).regions@.len() == r.len()
                &&& forall|i: int|
                    0 <= i < r.len() ==> #[trigger] final(self).regions@[i] == (RegionMeta {
                        relocate: r[i].relocate || chosen@.contains(i as usize),
                        ..r[i]
                    })
                &&& forall|k: int|
                    0 <= k < chosen@.len() ==> {
                        &&& #[trigger] chosen@[k] < r.len()
                        &&& r[chosen@[k] as int].committed
                        &&& r[chosen@[k] as int].live_size <= MAX_LIVE_SIZE
                    }
                &&& forall|a: int, b: int|
                    0 <= a < b < chosen@.len() ==> precedes(r, #[trigger] chosen@[a] as int, #[trigger] chosen@[b] as int)
                &&& sum_live(r, chosen@) <= avail
                &&& forall|u: int|
                    0 <= u < r.len() && #[trigger] r[u].committed && !chosen@.contains(u as usize) ==> {
                        &&& forall|k: int| 0 <= k < chosen@.len() ==> precedes(r, #[trigger] chosen@[k] as int, u)
                        &&& (r[u].live_size > MAX_LIVE_SIZE || r[u].live_size + sum_live(r, chosen@) >= avail)
                    }
            }),
    {
        let ghost r = self.regions@;
        let n = self.regions.len();
        let avail = (available_pages / PAGES_IN_CHUNK) * REGIONS_IN_CHUNK * BYTES_IN_REGION;
        let mut remaining = avail;
        let mut visited: Vec<bool> = Vec::new();
        let mut i: usize = 0;
        while i < n
            invariant
                i <= n,
                visited@ =~= Seq::new(i as nat, |k: int| false),
            decreases n - i,
        {
            visited.push(false);
            i = i + 1;
        }
        proof {
            crate::page_resource::lemma_count_true_none(n as nat);
        }
        let mut chosen: Vec<usize> = Vec::new();
        let mut count: usize = 0;
        loop
            invariant
                n == r.len(),
                self.wf(),
                self.common == old(self).common,
                self.marks == old(self).marks,
                self.forwarding == old(self).forwarding,
                r == old(self).regions@,
                self.regions@.len() == n,
                visited@.len() == n,
                count == count_true(visited@),
                count <= n,
                remaining == avail - sum_live(r, chosen@),
                forall|x: int|
                    0 <= x < n ==> #[trigger] self.regions@[x] == (RegionMeta {
                        relocate: r[x].relocate || chosen@.contains(x as usize),
                        ..r[x]
                    }),
                forall|k: int|
                    0 <= k < chosen@.len() ==> {
                        &&& #[trigger] chosen@[k] < n
                        &&& visited@[chosen@[k] as int]
                        &&& r[chosen@[k] as int].committed
                        &&& r[chosen@[k] as int].live_size <= MAX_LIVE_SIZE
                    },
                forall|a: int, b: int|
                    0 <= a < b < chosen@.len() ==> precedes(r, #[trigger] chosen@[a] as int, #[trigger] chosen@[b] as int),
                forall|v: int, u: int|
                    0 <= v < n && 0 <= u < n && #[trigger] visited@[v] && !#[trigger] visited@[u]
                        && r[u].committed ==> precedes(r, v, u),
                forall|v: int|
                    0 <= v < n && #[trigger] visited@[v] ==> r[v].committed,
                forall|v: int|
                    0 <= v < n && #[trigger] visited@[v] && !chosen@.contains(v as usize) ==> (
                    r[v].live_size > MAX_LIVE_SIZE || r[v].live_size >= remaining),
                forall|k: int, v: int|
                    0 <= k < chosen@.len() && 0 <= v < n && #[trigger] visited@[v]
                        && !chosen@.contains(v as usize) ==> precedes(r, #[trigger] chosen@[k] as int, v),
            ensures
                forall|x: int| 0 <= x < n && !visited@[x] ==> !#[trigger] r[x].committed,
            decreases n - count,
        {
            // the unvisited committed region that comes first
            let mut best: Option<usize> = None;
            let mut j: usize = 0;
            while j < n
                invariant
                    j <= n,
                    n == r.len(),
                    n == self.regions@.len(),
                    visited@.len() == n,
                    forall|x: int| 0 <= x < n ==> (#[trigger] self.regions@[x]).live_size == r[x].live_size
                        && self.regions@[x].committed == r[x].committed,
                    best matches Some(b) ==> b < j && !visited@[b as int] && r[b as int].committed,
                    best matches Some(b) ==> forall|x: int|
                        0 <= x < j && x != b && !visited@[x] && #[trigger] r[x].committed ==> precedes(r, b as int, x),
                    best.is_none() ==> forall|x: int| 0 <= x < j && !visited@[x] ==> !#[trigger] r[x].committed,
                decreases n - j,
            {
                if !visited[j] && self.regions[j].committed {
                    match best {
                        Some(b) => {
                            if self.regions[j].live_size < self.regions[b].live_size {
                                best = Some(j);
                            }
                        },
                        None => {
                            best = Some(j);
                        },
                    }
                }
                j = j + 1;
            }
            let b = match best {
                Some(b) => b,
                None => {
                    break;
                },
            };
            let ghost ov = visited@;
            let ghost oc = chosen@;
            let ghost orem = remaining;
            proof {
                lemma_count_true_update(visited@, b as int, true);
                lemma_count_true_bound(visited@.update(b as int, true));
                assert(!ov[b as int] && r[b as int].committed);
                assert forall|k: int| 0 <= k < oc.len() implies precedes(r, #[trigger] oc[k] as int, b as int) by {
                    assert(ov[oc[k] as int]);
                }
                assert(!oc.contains(b)) by {
                    if oc.contains(b) {
                        let k = choose|k: int| 0 <= k < oc.len() && oc[k] == b;
                        assert(ov[oc[k] as int]);
                    }
                }
            }
            visited.set(b, true);
            count = count + 1;
            let live = self.regions[b].live_size;
            if live <= MAX_LIVE_SIZE && live < remaining {
                proof {
                    assert forall|v: int| 0 <= v < n && ov[v] && !oc.contains(v as usize) implies false by {
                        assert(precedes(r, v, b as int));
                    }
                }
                let m = self.regions[b];
                self.regions.set(b, RegionMeta { relocate: true, ..m });
                chosen.push(b);
                remaining = remaining - live;
                proof {
                    assert(chosen@ == oc.push(b));
                    assert(chosen@.drop_last() == oc);
                    assert forall|x: int| 0 <= x < n implies #[trigger] self.regions@[x] == (RegionMeta {
                        relocate: r[x].relocate || chosen@.contains(x as usize),
                        ..r[x]
                    }) by {
                        lemma_push_contains(oc, b, x as usize);
                    }
                    assert forall|v: int|
                        0 <= v < n && #[trigger] visited@[v] && !chosen@.contains(v as usize) implies (
                        r[v].live_size > MAX_LIVE_SIZE || r[v].live_size >= remaining) by {
                        lemma_push_contains(oc, b, v as usize);
                    }
                    assert forall|k: int, v: int|
                        0 <= k < chosen@.len() && 0 <= v < n && #[trigger] visited@[v]
                            && !chosen@.contains(v as usize) implies precedes(r, #[trigger] chosen@[k] as int, v) by {
                        lemma_push_contains(oc, b, v as usize);
                    }
                }
            } else {
                proof {
                    assert forall|k: int, v: int|
                        0 <= k < chosen@.len() && 0 <= v < n && #[trigger] visited@[v]
                            && !chosen@.contains(v as usize) implies precedes(r, #[trigger] chosen@[k] as int, v) by {
                        if v != b {
                            assert(ov[v]);
                        }
                    }
                }
            }
        }
        proof {
            assert forall|u: int|
                0 <= u < r.len() && #[trigger] r[u].committed && !chosen@.contains(u as usize) implies (
                r[u].live_size > MAX_LIVE_SIZE || r[u].live_size + sum_live(r, chosen@) >= avail) by {
                assert(visited@[u]);
            }
            assert forall|u: int|
                0 <= u < r.len() && #[trigger] r[u].committed && !chosen@.contains(u as usize) implies
                forall|k: int| 0 <= k < chosen@.len() ==> precedes(r, #[trigger] chosen@[k] as int, u) by {
                assert(visited@[u]);
            }
        }
        chosen
    }

    /// Whether the object is live: it was marked, or it has moved.
    pub fn is_live(&self, object: ObjectReference) -> (r: bool)
        ensures
            r == (state_of(self.forwarding.at(object.value)) != FORWARDING_NOT_TRIGGERED_YET
                || self.marks.at(object.value) == 1),
    {
        if self.forwarding.read(object.value) % 4 != FORWARDING_NOT_TRIGGERED_YET {
            return true;
        }
        self.marks.read(object.value) == 1
    }

    /// Mark the object in place; the first time, add its `size` bytes to
    /// its region's live size and queue it.
    pub fn trace_mark_object(
        &mut self,
        trace: &mut Vec<ObjectReference>,
        object: ObjectReference,
        size: u64,
    ) -> (r: ObjectReference)
        requires
            old(self).wf(),
            old(self).holds(object.value),
        ensures
            final(self).wf(),
            r == object,
            final(self).marks.at(object.value) == 1,
            final(self).forwarding == old(self).forwarding,
            old(self).marks.at(object.value) == 1 ==> final(trace)@ == old(trace)@
                && final(self).regions == old(self).regions,
            old(self).marks.at(object.value) != 1 ==> {
                let i = old(self).region_of(object.value);
                let m = old(self).regions@[i];
                &&& final(trace)@ == old(trace)@.push(object)
                &&& final(self).regions@ == old(self).regions@.update(
                    i,
                    RegionMeta { live_size: m.live_size.saturating_add(size), ..m },
                )
            },
    {
        if self.marks.read(object.value) == 1 {
            return object;
        }
        self.marks.write(object.value, 1);
        let i = ((object.value - self.common.start.value) / BYTES_IN_REGION) as usize;
        let m = self.regions[i];
        self.regions.set(i, RegionMeta { live_size: m.live_size.saturating_add(size), ..m });
        trace.push(object);
        object
    }

    /// Trace during an evacuating collection: objects of regions chosen
    /// for evacuation are moved by the forwarding protocol, others marked.
    pub fn trace_evacuate_object<C: ObjectCopier>(
        &mut self,
        trace: &mut Vec<ObjectReference>,
        object: ObjectReference,
        allocator: Allocator,
        copier: &mut C,
    ) -> (r: ObjectReference)
        requires
            old(self).wf(),
            old(self).holds(object.value),
        ensures
            final(self).wf(),
            !old(self).regions@[old(self).region_of(object.value)].relocate ==> {
                &&& r == object
                &&& final(self).marks.at(object.value) == 1
                &&& final(trace)@ == if old(self).marks.at(object.value) == 1 {
                    old(trace)@
                } else {
                    old(trace)@.push(object)
                }
            },
            old(self).regions@[old(self).region_of(object.value)].relocate ==> {
                let w = old(self).forwarding.at(object.value);
                if state_of(w) != FORWARDING_NOT_TRIGGERED_YET {
                    &&& r.value == spin_result(object.value, w, w)
                    &&& final(trace)@ == old(trace)@
                } else {
                    &&& r.value % 4 == 0
                    &&& final(trace)@ == old(trace)@.push(r)
                    &&& final(self).forwarding.view() == old(self).forwarding.view().insert(
                        object.value,
                        forwarded_word(r.value),
                    )
                }
            },
    {
        let i = ((object.value - self.common.start.value) / BYTES_IN_REGION) as usize;
        if self.regions[i].relocate {
            let prior_status_word = attempt_to_forward(&mut self.forwarding, object);
            if state_is_forwarded_or_being_forwarded(prior_status_word) {
                return spin_and_get_forwarded_object(&self.forwarding, object, prior_status_word);
            }
            let ghost fw1 = self.forwarding.view();
            assert forall|k: u64| k != object.value implies state_of(#[trigger] word_at(fw1, k))
                != BEING_FORWARDED by {
                assert(word_at(fw1, k) == word_at(old(self).forwarding.view(), k));
            }
            let new_object = crate::forwarding::forward_object(
                &mut self.forwarding,
                object,
                allocator,
                copier,
            );
            proof {
                lemma_settle_claim(fw1, object.value, forwarded_word(new_object.value));
            }
            trace.push(new_object);
            new_object
        } else {
            if self.marks.read(object.value) != 1 {
                self.marks.write(object.value, 1);
                trace.push(object);
            }
            object
        }
    }
}

} // verus!
