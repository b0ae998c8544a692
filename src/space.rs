use vstd::prelude::*;

use crate::address::{Address, ObjectReference};
use crate::controller::requested;
use crate::layout::{
    chunk_align_spec, is_chunk_aligned, raw_chunk_align, AVAILABLE_BYTES, BYTES_IN_CHUNK,
    BYTES_IN_MBYTE, BYTES_IN_PAGE, HEAP_END, HEAP_START,
};
use crate::page_resource::{
    counted, granted, lemma_granted_in_region, PageResource, PageResourceKind, PAGES_IN_REGION,
};
use crate::plan::{after_stress_check, heap_full, stress_due, GcContext};

verus! {

/// The top of the address space that spaces may occupy.
pub const ADDRESS_SPACE_END: u64 = 0x0000_8000_0000_0000;

/// How a space asks for its virtual memory.
#[derive(Clone, Copy, Debug, PartialEq, Eq, Structural)]
pub enum VMRequest {
    /// The space takes chunks as it grows.
    Discontiguous,
    /// A fixed range.
    Fixed { start: Address, extent: u64, top: bool },
    /// A given number of bytes, from the bottom or the top of the heap.
    Extent { extent: u64, top: bool },
    /// The fraction `numerator / denominator` of the available bytes.
    Fraction { numerator: u64, denominator: u64, top: bool },
}

impl VMRequest {
    pub fn is_discontiguous(&self) -> (r: bool)
        ensures
            r == (*self == VMRequest::Discontiguous),
    {
        match self {
            VMRequest::Discontiguous => true,
            _ => false,
        }
    }

    pub fn discontiguous() -> (r: VMRequest)
        ensures
            r == VMRequest::Discontiguous,
    {
        VMRequest::Discontiguous
    }

    /// A request for `extent` bytes.
    pub fn fixed_extent(extent: u64, top: bool) -> (r: VMRequest)
        ensures
            r == (VMRequest::Extent { extent, top }),
    {
        VMRequest::Extent { extent, top }
    }

    /// A request for `mb` megabytes from the bottom of the heap.
    pub fn fixed_size(mb: u64) -> (r: VMRequest)
        requires
            mb * BYTES_IN_MBYTE <= u64::MAX,
        ensures
            r == (VMRequest::Extent { extent: (mb * BYTES_IN_MBYTE) as u64, top: false }),
    {
        VMRequest::Extent { extent: mb * BYTES_IN_MBYTE, top: false }
    }
}

/// The bytes that a fraction of the available address space amounts to:
/// whole megabytes, rounded up to whole chunks.
pub open spec fn frac_available(numerator: u64, denominator: u64) -> int {
    let bytes = (AVAILABLE_BYTES as int * numerator as int) / (denominator as int);
    chunk_align_spec(bytes - bytes % (BYTES_IN_MBYTE as int), false)
}

fn get_frac_available(numerator: u64, denominator: u64) -> (r: u64)
    requires
        0 < denominator,
        numerator <= denominator,
    ensures
        r == frac_available(numerator, denominator),
        r <= AVAILABLE_BYTES,
{
    let bytes = ((AVAILABLE_BYTES as u128) * (numerator as u128) / (denominator as u128)) as u64;
    proof {
        assert((AVAILABLE_BYTES as int) * (numerator as int) / (denominator as int)
            <= AVAILABLE_BYTES) by (nonlinear_arith)
            requires
                0 < denominator,
                numerator <= denominator,
        ;
    }
    let mb = bytes - bytes % BYTES_IN_MBYTE;
    raw_chunk_align(mb, false)
}

/// The part of the address space that is not yet given to a space.
pub struct HeapMeta {
    pub heap_cursor: u64,
    pub heap_limit: u64,
    pub space_count: u64,
}

impl HeapMeta {
    pub open spec fn wf(&self) -> bool {
        &&& HEAP_START <= self.heap_cursor <= self.heap_limit <= HEAP_END
        &&& is_chunk_aligned(self.heap_cursor as int)
        &&& is_chunk_aligned(self.heap_limit as int)
    }

    pub fn new(start: u64, end: u64) -> (r: HeapMeta)
        requires
            HEAP_START <= start <= end <= HEAP_END,
            is_chunk_aligned(start as int),
            is_chunk_aligned(end as int),
        ensures
            r.wf(),
            r.heap_cursor == start,
            r.heap_limit == end,
            r.space_count == 0,
    {
        HeapMeta { heap_cursor: start, heap_limit: end, space_count: 0 }
    }
}

/// Why a space could not be laid out. Each is a configuration error.
#[derive(Clone, Copy, Debug, PartialEq, Eq, Structural)]
pub enum SpaceError {
    InvalidFraction,
    NonAlignedExtent,
    NonAlignedStart,
    OutOfVirtualSpace,
}

/// The outcome of a request for pages.
#[derive(Clone, Copy, Debug, PartialEq, Eq, Structural)]
pub enum AcquireOutcome {
    /// The pages start at this address.
    Allocated(Address),
    /// A collection was requested: the thread must block until it is over
    /// and then retry the whole allocation.
    BlockForGc,
}

/// The bytes that a contiguous request asks for.
pub open spec fn request_extent(req: VMRequest) -> int {
    match req {
        VMRequest::Discontiguous => 0,
        VMRequest::Fixed { extent, .. } => extent as int,
        VMRequest::Extent { extent, .. } => extent as int,
        VMRequest::Fraction { numerator, denominator, .. } => frac_available(
            numerator,
            denominator,
        ),
    }
}

/// The error, if any, that laying out `req` in `heap` meets.
pub open spec fn layout_error(req: VMRequest, heap: HeapMeta) -> Option<SpaceError> {
    match req {
        VMRequest::Discontiguous => None,
        VMRequest::Fraction { numerator, denominator, .. } => if denominator == 0 || numerator
            > denominator {
            Some(SpaceError::InvalidFraction)
        } else if !is_chunk_aligned(request_extent(req)) {
            Some(SpaceError::NonAlignedExtent)
        } else if request_extent(req) > heap.heap_limit - heap.heap_cursor {
            Some(SpaceError::OutOfVirtualSpace)
        } else {
            None
        },
        VMRequest::Extent { extent, .. } => if !is_chunk_aligned(extent as int) {
            Some(SpaceError::NonAlignedExtent)
        } else if extent > heap.heap_limit - heap.heap_cursor {
            Some(SpaceError::OutOfVirtualSpace)
        } else {
            None
        },
        VMRequest::Fixed { start, extent, .. } => if !is_chunk_aligned(extent as int) {
            Some(SpaceError::NonAlignedExtent)
        } else if !is_chunk_aligned(start.value as int) {
            Some(SpaceError::NonAlignedStart)
        } else if start.value == 0 || start.value + extent > ADDRESS_SPACE_END {
            Some(SpaceError::OutOfVirtualSpace)
        } else {
            None
        },
    }
}

/// What every policy's space has: its region and page resource.
pub trait AbstractSpace {
    spec fn common_spec(&self) -> CommonSpace;

    fn common(&self) -> (r: &CommonSpace)
        ensures
            *r == self.common_spec(),
    ;

    /// Whether the object lies in the space's address range.
    fn in_space(&self, object: ObjectReference) -> (r: bool)
        ensures
            r == (self.common_spec().start.value <= object.value < self.common_spec().start.value
                + self.common_spec().extent),
    {
        self.common().in_space(object)
    }
}

/// The error, if any, that laying out `vmrequest` in `heap` meets; a space
/// may be made only when there is none.
pub fn check_layout(vmrequest: VMRequest, heap: &HeapMeta) -> (r: Option<SpaceError>)
    requires
        heap.wf(),
    ensures
        r == layout_error(vmrequest, *heap),
{
    match vmrequest {
        VMRequest::Discontiguous => None,
        VMRequest::Fraction { numerator, denominator, .. } => {
            if denominator == 0 || numerator > denominator {
                return Some(SpaceError::InvalidFraction);
            }
            let extent = get_frac_available(numerator, denominator);
            if extent % BYTES_IN_CHUNK != 0 {
                Some(SpaceError::NonAlignedExtent)
            } else if extent > heap.heap_limit - heap.heap_cursor {
                Some(SpaceError::OutOfVirtualSpace)
            } else {
                None
            }
        },
        VMRequest::Extent { extent, .. } => {
            if extent % BYTES_IN_CHUNK != 0 {
                Some(SpaceError::NonAlignedExtent)
            } else if extent > heap.heap_limit - heap.heap_cursor {
                Some(SpaceError::OutOfVirtualSpace)
            } else {
                None
            }
        },
        VMRequest::Fixed { start, extent, .. } => {
            if extent % BYTES_IN_CHUNK != 0 {
                Some(SpaceError::NonAlignedExtent)
            } else if start.value % BYTES_IN_CHUNK != 0 {
                Some(SpaceError::NonAlignedStart)
            } else if start.value == 0 || extent > ADDRESS_SPACE_END || start.value
                > ADDRESS_SPACE_END - extent {
                Some(SpaceError::OutOfVirtualSpace)
            } else {
                None
            }
        },
    }
}

/// A named virtual-memory region with the page resource that hands out its pages.
pub struct CommonSpace {
    pub name: &'static str,
    pub descriptor: u64,
    pub index: u64,
    pub vmrequest: VMRequest,
    pub immortal: bool,
    pub movable: bool,
    pub contiguous: bool,
    pub zeroed: bool,
    pub start: Address,
    pub extent: u64,
    pub head_discontiguous_region: Address,
    pub pr: PageResource,
}

impl CommonSpace {
    pub open spec fn wf(&self) -> bool {
        &&& self.pr.wf()
        &&& self.pr.start == self.start
        &&& self.start.value + self.extent <= ADDRESS_SPACE_END
        &&& self.pr.capacity * BYTES_IN_PAGE <= self.extent
    }

    /// Lay out a space as `vmrequest` asks, taking its range from `heap`.
    pub fn new(
        name: &'static str,
        movable: bool,
        immortal: bool,
        zeroed: bool,
        vmrequest: VMRequest,
        kind: PageResourceKind,
        meta_pages_per_region: u64,
        heap: &mut HeapMeta,
    ) -> (s: CommonSpace)
        requires
            old(heap).wf(),
            meta_pages_per_region <= PAGES_IN_REGION,
            layout_error(vmrequest, *old(heap)).is_none(),
        ensures
            final(heap).wf(),
            ({
                &&& s.wf()
                &&& is_chunk_aligned(s.start.value as int)
                &&& is_chunk_aligned(s.extent as int)
                &&& vmrequest is Fixed || (HEAP_START <= s.start.value && s.start.value + s.extent
                    <= HEAP_END)
                &&& s.name == name
                &&& s.movable == movable
                &&& s.immortal == immortal
                &&& s.zeroed == zeroed
                &&& s.vmrequest == vmrequest
                &&& s.index == old(heap).space_count
                &&& s.contiguous == (vmrequest != VMRequest::Discontiguous)
                &&& s.extent == request_extent(vmrequest)
                &&& s.pr.kind == kind
                &&& s.pr.capacity == s.extent / BYTES_IN_PAGE
                &&& s.pr.reserved == 0
                &&& s.pr.committed == 0
                &&& s.pr.meta_pages_per_region == meta_pages_per_region
                &&& s.pr.kind == PageResourceKind::FreeList ==> forall|i: int|
                    0 <= i < s.pr.capacity ==> !s.pr.used@[i] && s.pr.run_len@[i] == 0
                &&& final(heap).space_count == if old(heap).space_count < u64::MAX {
                    old(heap).space_count + 1
                } else {
                    old(heap).space_count as int
                }
                &&& match vmrequest {
                    VMRequest::Discontiguous => {
                        &&& s.start.value == old(heap).heap_cursor
                        &&& final(heap).heap_cursor == old(heap).heap_cursor
                        &&& final(heap).heap_limit == old(heap).heap_limit
                    },
                    VMRequest::Fixed { start, .. } => {
                        &&& s.start == start
                        &&& final(heap).heap_cursor == old(heap).heap_cursor
                        &&& final(heap).heap_limit == old(heap).heap_limit
                    },
                    VMRequest::Extent { top, .. } | VMRequest::Fraction { top, .. } => if top {
                        &&& s.start.value == old(heap).heap_limit - s.extent
                        &&& final(heap).heap_cursor == old(heap).heap_cursor
                        &&& final(heap).heap_limit == s.start.value
                    } else {
                        &&& s.start.value == old(heap).heap_cursor
                        &&& final(heap).heap_cursor == old(heap).heap_cursor + s.extent
                        &&& final(heap).heap_limit == old(heap).heap_limit
                    },
                }
            }),
    {
        let index = heap.space_count;
        let (extent, top, fixed_start) = match vmrequest {
            VMRequest::Discontiguous => (0u64, false, None),
            VMRequest::Fraction { numerator, denominator, top } => (
                get_frac_available(numerator, denominator),
                top,
                None,
            ),
            VMRequest::Extent { extent, top } => (extent, top, None),
            VMRequest::Fixed { start, extent, top } => (extent, top, Some(start)),
        };
        let start = match fixed_start {
            Some(s) => s,
            None => {
                if vmrequest.is_discontiguous() {
                    Address::from_u64(heap.heap_cursor)
                } else if top {
                    heap.heap_limit = heap.heap_limit - extent;
                    Address::from_u64(heap.heap_limit)
                } else {
                    let s = Address::from_u64(heap.heap_cursor);
                    heap.heap_cursor = heap.heap_cursor + extent;
                    s
                }
            },
        };
        if heap.space_count < u64::MAX {
            heap.space_count = heap.space_count + 1;
        }
        let pages = extent / BYTES_IN_PAGE;
        proof {
            assert(pages * BYTES_IN_PAGE <= extent) by (nonlinear_arith)
                requires pages == extent / 4096;
        }
        let pr = match kind {
            PageResourceKind::Monotone => PageResource::new_monotone(
                start,
                pages,
                meta_pages_per_region,
            ),
            PageResourceKind::FreeList => PageResource::new_freelist(
                start,
                pages,
                meta_pages_per_region,
            ),
        };
        CommonSpace {
            name,
            descriptor: 0,
            index,
            vmrequest,
            immortal,
            movable,
            contiguous: !vmrequest.is_discontiguous(),
            zeroed,
            start,
            extent,
            head_discontiguous_region: Address::zero(),
            pr,
        }
    }

    /// Whether the object lies in the space's address range.
    pub fn in_space(&self, object: ObjectReference) -> (r: bool)
        ensures
            r == (self.start.value <= object.value < self.start.value + self.extent),
    {
        object.value >= self.start.value && object.value - self.start.value < self.extent
    }

    /// Whether `object` is a non-null address of this space on a page that
    /// is in use.
    pub fn is_mapped_object(&self, object: ObjectReference) -> (r: bool)
        requires
            self.wf(),
        ensures
            r == (object.value != 0 && self.start.value <= object.value < self.start.value
                + self.extent && ({
                let page = (object.value - self.start.value) / (BYTES_IN_PAGE as int);
                page < self.pr.capacity && match self.pr.kind {
                    PageResourceKind::Monotone => page < self.pr.cursor,
                    PageResourceKind::FreeList => self.pr.used@[page],
                }
            })),
    {
        if object.value == 0 || !self.in_space(object) {
            return false;
        }
        let page = (object.value - self.start.value) / BYTES_IN_PAGE;
        if page >= self.pr.capacity {
            return false;
        }
        match self.pr.kind {
            PageResourceKind::Monotone => page < self.pr.cursor,
            PageResourceKind::FreeList => {
                let len = self.pr.used.len();
                if page >= len as u64 {
                    return false;
                }
                self.pr.used[page as usize]
            },
        }
    }

    pub fn get_name(&self) -> (r: &'static str)
        ensures
            r == self.name,
    {
        self.name
    }

    pub fn reserved_pages(&self) -> (r: u64)
        ensures
            r == self.pr.reserved,
    {
        self.pr.reserved
    }

    /// The single entry point by which allocators get pages. `pages_elsewhere`
    /// is the count of pages in use in the other spaces of the heap. A
    /// thread that may not trigger a collection (not a mutator, or before
    /// the engine is initialised) must only ask for pages the space has:
    /// running out there is a fatal error, which the caller tests for.
    pub fn acquire(
        &mut self,
        ctx: &mut GcContext,
        is_mutator: bool,
        pages: u64,
        pages_elsewhere: u64,
    ) -> (r: AcquireOutcome)
        requires
            old(self).wf(),
            pages <= 0x8_0000_0000,
            old(self).pr.reserved <= 0x10_0000_0000,
            pages_elsewhere <= 0x10_0000_0000,
            (is_mutator && old(ctx).trigger.initialized) || old(self).pr.has_room(pages as int),
        ensures
            final(self).wf(),
            final(self).start == old(self).start,
            final(self).extent == old(self).extent,
            final(self).pr.kind == old(self).pr.kind,
            final(self).pr.capacity == old(self).pr.capacity,
            ({
                let allow_poll = is_mutator && old(ctx).trigger.initialized;
                let t = old(ctx).trigger;
                let cp = old(ctx).committed.pages;
                if collection_due(*old(self), *old(ctx), is_mutator, pages, pages_elsewhere)
                    || !old(self).pr.has_room(pages as int) {
                    &&& r == AcquireOutcome::BlockForGc
                    &&& final(self).pr.reserved == old(self).pr.reserved
                    &&& final(self).pr.committed == old(self).pr.committed
                    &&& final(self).pr.used == old(self).pr.used
                    &&& final(self).pr.run_len == old(self).pr.run_len
                    &&& final(self).pr.cursor == old(self).pr.cursor
                    &&& final(ctx).controller == requested(old(ctx).controller)
                    &&& final(ctx).trigger == after_stress_check(t, cp)
                    &&& final(ctx).committed == old(ctx).committed
                } else {
                    &&& r matches AcquireOutcome::Allocated(a)
                    &&& granted(old(self).pr, final(self).pr, pages as int, a.value)
                    &&& old(self).start.value <= a.value
                    &&& (a.value - old(self).start.value) % (BYTES_IN_PAGE as int) == 0
                    &&& a.value + pages * BYTES_IN_PAGE <= old(self).start.value + old(self).extent
                    &&& final(self).pr.reserved == old(self).pr.reserved + pages
                    &&& final(self).pr.committed == old(self).pr.committed + pages
                    &&& final(ctx).committed.pages == counted(cp, is_mutator, pages)
                    &&& final(ctx).controller == old(ctx).controller
                    &&& final(ctx).trigger == if allow_poll {
                        after_stress_check(t, cp)
                    } else {
                        t
                    }
                }
            }),
    {
        let allow_poll = is_mutator && ctx.trigger.is_initialized();
        proof {
            self.pr.lemma_adjusted_bound(pages as int);
        }
        let pages_reserved = self.pr.reserve_pages(pages);
        if allow_poll && ctx.poll(false, pages_elsewhere + self.pr.reserved) {
            self.pr.clear_request(pages_reserved);
            return AcquireOutcome::BlockForGc;
        }
        let ghost mid = self.pr;
        let rtn = self.pr.get_new_pages(
            pages_reserved,
            pages,
            self.zeroed,
            is_mutator,
            &mut ctx.committed,
        );
        if rtn.is_zero() {
            let _gc_performed = ctx.poll(true, pages_elsewhere + self.pr.reserved);
            self.pr.clear_request(pages_reserved);
            return AcquireOutcome::BlockForGc;
        }
        proof {
            assert(mid.used == old(self).pr.used && mid.run_len == old(self).pr.run_len);
            if old(self).pr.kind == PageResourceKind::FreeList {
                let k = choose|k: int|
                    {
                        &&& crate::page_resource::first_fit(mid.used@, k, pages as int)
                        &&& rtn.value == mid.page_address(k)
                        &&& self.pr.used@ == mid.used@.map(|j: int, u: bool| u || (k <= j < k + pages))
                        &&& self.pr.run_len@ == if pages > 0 {
                            mid.run_len@.update(k, pages)
                        } else {
                            mid.run_len@
                        }
                    };
                assert(rtn.value == old(self).pr.page_address(k));
            }
            assert(granted(old(self).pr, self.pr, pages as int, rtn.value));
            lemma_granted_in_region(old(self).pr, self.pr, pages as int, rtn.value);
            let k = choose|k: int|
                0 <= k && k + pages <= old(self).pr.capacity && rtn.value == old(self).pr.page_address(k);
            let st = old(self).start.value;
            let cap = old(self).pr.capacity;
            assert((rtn.value - st) % (BYTES_IN_PAGE as int) == 0) by (nonlinear_arith)
                requires rtn.value - st == k * 4096;
            assert(k * BYTES_IN_PAGE + pages * BYTES_IN_PAGE <= cap * BYTES_IN_PAGE)
                by (nonlinear_arith)
                requires k + pages <= cap;
        }
        AcquireOutcome::Allocated(rtn)
    }
}

/// Whether `acquire` of `pages` pages would stop the thread for a
/// collection before it looks for pages.
pub open spec fn collection_due(
    space: CommonSpace,
    ctx: GcContext,
    is_mutator: bool,
    pages: u64,
    pages_elsewhere: u64,
) -> bool {
    let t = ctx.trigger;
    let reserved = space.pr.reserved + space.pr.adjusted(pages as int);
    is_mutator && t.initialized && (stress_due(t, ctx.committed.pages) || heap_full(
        t,
        (pages_elsewhere + reserved) as u64,
    ))
}

} // verus!
