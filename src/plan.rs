use vstd::prelude::*;

use crate::controller::{requested, ControllerCollectorContext};
use crate::address::Address;
use crate::layout::{BYTES_IN_PAGE, HEAP_END, HEAP_START};
use crate::page_resource::CumulativeCommitted;

verus! {

/// Where the engine stands with respect to a collection.
#[derive(Clone, Copy, Debug, PartialEq, Eq, Structural)]
pub enum GcStatus {
    NotInGC,
    GcPrepare,
    GcProper,
}

/// The allocation semantics that a host asks for.
#[derive(Clone, Copy, Debug, PartialEq, Eq, Structural)]
pub enum Allocator {
    Default,
    NonReference,
    NonMoving,
    Immortal,
    Los,
    PrimitiveLos,
    GcSpy,
    Code,
    LargeCode,
    Allocators,
    DefaultSite,
}

impl Allocator {
    /// The number by which the host names this allocator.
    pub fn to_i32(&self) -> (r: i32)
        ensures
            -1 <= r <= 9,
            (r == -1) == (*self == Allocator::DefaultSite),
    {
        match self {
            Allocator::Default => 0,
            Allocator::NonReference => 1,
            Allocator::NonMoving => 2,
            Allocator::Immortal => 3,
            Allocator::Los => 4,
            Allocator::PrimitiveLos => 5,
            Allocator::GcSpy => 6,
            Allocator::Code => 7,
            Allocator::LargeCode => 8,
            Allocator::Allocators => 9,
            Allocator::DefaultSite => -1,
        }
    }

    /// The allocator that the host names `n`, if any.
    pub fn from_i32(n: i32) -> (r: Option<Allocator>)
        ensures
            r.is_some() <==> -1 <= n <= 9,
            r.is_some() ==> r.unwrap().to_i32_spec() == n,
    {
        match n {
            0 => Some(Allocator::Default),
            1 => Some(Allocator::NonReference),
            2 => Some(Allocator::NonMoving),
            3 => Some(Allocator::Immortal),
            4 => Some(Allocator::Los),
            5 => Some(Allocator::PrimitiveLos),
            6 => Some(Allocator::GcSpy),
            7 => Some(Allocator::Code),
            8 => Some(Allocator::LargeCode),
            9 => Some(Allocator::Allocators),
            -1 => Some(Allocator::DefaultSite),
            _ => None,
        }
    }

    pub open spec fn to_i32_spec(&self) -> i32 {
        match self {
            Allocator::Default => 0,
            Allocator::NonReference => 1,
            Allocator::NonMoving => 2,
            Allocator::Immortal => 3,
            Allocator::Los => 4,
            Allocator::PrimitiveLos => 5,
            Allocator::GcSpy => 6,
            Allocator::Code => 7,
            Allocator::LargeCode => 8,
            Allocator::Allocators => 9,
            Allocator::DefaultSite => -1i32,
        }
    }
}

/// The collection strategies, as a closed set.
#[derive(Clone, Copy, Debug, PartialEq, Eq, Structural)]
pub enum PlanKind {
    NoGC,
    SemiSpace,
    GenCopy,
    Immix,
    MallocMS,
}

impl PlanKind {
    /// Whether the plan collects at all.
    pub fn collects(&self) -> (r: bool)
        ensures
            r == (*self != PlanKind::NoGC),
    {
        match self {
            PlanKind::NoGC => false,
            _ => true,
        }
    }

    /// Whether objects may move under the plan.
    pub fn moves_objects(&self) -> (r: bool)
        ensures
            r == (*self == PlanKind::SemiSpace || *self == PlanKind::GenCopy || *self
                == PlanKind::Immix),
    {
        match self {
            PlanKind::SemiSpace | PlanKind::GenCopy | PlanKind::Immix => true,
            _ => false,
        }
    }

    /// The phases that one collection of the plan runs, in order: none for
    /// a plan that never collects.
    pub fn schedule_collection(&self) -> (r: Vec<crate::phase::ScheduledPhase>)
        ensures
            crate::phase::phases_ordered(r@),
            *self == PlanKind::NoGC ==> r@.len() == 0,
            *self != PlanKind::NoGC ==> r@ == crate::phase::collection_schedule(),
    {
        if self.collects() {
            crate::phase::schedule_collection()
        } else {
            Vec::new()
        }
    }

    /// Whether the plan's last collection reclaimed all it could.
    pub fn last_collection_was_exhaustive(&self, did_defrag_for_last_gc: bool) -> (r: bool)
        ensures
            r == (*self != PlanKind::Immix || crate::immix::ImmixSpace::is_last_gc_exhaustive_spec(
                did_defrag_for_last_gc,
            )),
    {
        match self {
            PlanKind::Immix => crate::immix::ImmixSpace::is_last_gc_exhaustive(did_defrag_for_last_gc),
            _ => true,
        }
    }
}

/// Errors that stop the engine: a broken safety contract.
#[derive(Clone, Copy, Debug, PartialEq, Eq, Structural)]
pub enum GcError {
    /// A mutator modified an object that may move while a collection runs.
    ModifyingMovableObject,
    /// A participant was handed a phase that it does not take part in.
    PhaseNotHandled,
}

/// The plan's state that decides when to collect.
#[derive(Clone, Copy, Debug, PartialEq, Eq, Structural)]
pub struct CollectionTrigger {
    pub initialized: bool,
    /// Committed pages between two stress collections.
    pub stress_factor: u64,
    pub last_stress_pages: u64,
    /// Pages in the whole heap.
    pub total_pages: u64,
    /// Pages held back for copying during a collection.
    pub collection_reserve: u64,
    pub emergency_collection: bool,
    pub user_triggered_collection: bool,
    pub ignore_system_gc: bool,
    pub gc_status: GcStatus,
    pub stacks_prepared: bool,
    pub inside_harness: bool,
}

/// The process-wide state of the engine, made once at start-up and passed
/// to every component that needs it.
pub struct GcContext {
    pub committed: CumulativeCommitted,
    pub trigger: CollectionTrigger,
    pub controller: ControllerCollectorContext,
}

/// Whether a stress collection is due: enough pages were committed since the last one.
pub open spec fn stress_due(t: CollectionTrigger, pages: u64) -> bool {
    t.initialized && pages >= t.last_stress_pages && pages - t.last_stress_pages >= t.stress_factor
}

/// Whether the heap, with `pages_used` pages in use, holds more than it may.
pub open spec fn heap_full(t: CollectionTrigger, pages_used: u64) -> bool {
    pages_used + t.collection_reserve > t.total_pages
}

/// The trigger after a stress check at `pages` committed pages.
pub open spec fn after_stress_check(t: CollectionTrigger, pages: u64) -> CollectionTrigger {
    if stress_due(t, pages) {
        CollectionTrigger { last_stress_pages: pages, ..t }
    } else {
        t
    }
}

impl CollectionTrigger {
    pub fn new(total_pages: u64, stress_factor: u64) -> (r: CollectionTrigger)
        ensures
            r == CollectionTrigger::new_spec(total_pages, stress_factor),
    {
        CollectionTrigger {
            initialized: false,
            stress_factor,
            last_stress_pages: 0,
            total_pages,
            collection_reserve: 0,
            emergency_collection: false,
            user_triggered_collection: false,
            ignore_system_gc: false,
            gc_status: GcStatus::NotInGC,
            stacks_prepared: false,
            inside_harness: false,
        }
    }

    pub fn is_initialized(&self) -> (r: bool)
        ensures
            r == self.initialized,
    {
        self.initialized
    }

    /// Whether a stress collection is due at `pages` cumulative committed
    /// pages; when it is, the count is remembered for the next check.
    pub fn stress_test_gc_required(&mut self, pages: u64) -> (r: bool)
        ensures
            r == stress_due(*old(self), pages),
            *final(self) == after_stress_check(*old(self), pages),
    {
        if self.initialized && pages >= self.last_stress_pages && pages - self.last_stress_pages
            >= self.stress_factor {
            self.last_stress_pages = pages;
            true
        } else {
            false
        }
    }

    /// Whether a collection is needed: the request failed for want of space,
    /// a stress collection is due, or the heap holds more pages than it may.
    pub fn collection_required(&mut self, space_full: bool, pages_used: u64, pages: u64) -> (r:
        bool)
        ensures
            r == (space_full || stress_due(*old(self), pages) || heap_full(*old(self), pages_used)),
            *final(self) == after_stress_check(*old(self), pages),
    {
        let stress_force_gc = self.stress_test_gc_required(pages);
        let full = pages_used > self.total_pages || self.collection_reserve > self.total_pages
            - pages_used;
        space_full || stress_force_gc || full
    }

    /// Pages in use plus those held back for a collection.
    pub fn get_pages_reserved(&self, pages_used: u64) -> (r: u64)
        requires
            pages_used + self.collection_reserve <= u64::MAX,
        ensures
            r == pages_used + self.collection_reserve,
    {
        pages_used + self.collection_reserve
    }

    /// Pages still free for use, counting the collection reserve as used.
    pub fn get_pages_avail(&self, pages_used: u64) -> (r: u64)
        ensures
            r == if pages_used + self.collection_reserve <= self.total_pages {
                self.total_pages - pages_used - self.collection_reserve
            } else {
                0
            },
    {
        if pages_used > self.total_pages || self.collection_reserve > self.total_pages - pages_used {
            0
        } else {
            self.total_pages - pages_used - self.collection_reserve
        }
    }

    pub fn get_free_pages(&self, pages_used: u64) -> (r: u64)
        ensures
            r == if pages_used <= self.total_pages {
                self.total_pages - pages_used
            } else {
                0
            },
    {
        if pages_used <= self.total_pages {
            self.total_pages - pages_used
        } else {
            0
        }
    }

    pub fn get_collection_reserve(&self) -> (r: u64)
        ensures
            r == self.collection_reserve,
    {
        self.collection_reserve
    }

    pub fn is_emergency_collection(&self) -> (r: bool)
        ensures
            r == self.emergency_collection,
    {
        self.emergency_collection
    }

    pub fn is_user_triggered_collection(&self) -> (r: bool)
        ensures
            r == self.user_triggered_collection,
    {
        self.user_triggered_collection
    }

    pub fn reset_collection_trigger(&mut self)
        ensures
            *final(self) == (CollectionTrigger { user_triggered_collection: false, ..*old(self) }),
    {
        self.user_triggered_collection = false;
    }

    /// A mutator is about to modify an object; this is an error when a
    /// collection is in its proper phase and the object may move.
    pub fn modify_check(&self, object_is_movable: bool) -> (r: Result<(), GcError>)
        ensures
            r.is_err() <==> (self.gc_status == GcStatus::GcProper && object_is_movable),
            r.is_err() ==> r == Err::<(), GcError>(GcError::ModifyingMovableObject),
    {
        if self.gc_status == GcStatus::GcProper && object_is_movable {
            Err(GcError::ModifyingMovableObject)
        } else {
            Ok(())
        }
    }
}

impl GcContext {
    pub fn new(total_pages: u64, stress_factor: u64) -> (r: GcContext)
        ensures
            r.committed.pages == 0,
            r.trigger == CollectionTrigger::new_spec(total_pages, stress_factor),
            r.controller == ControllerCollectorContext::new_spec(),
    {
        GcContext {
            committed: CumulativeCommitted::new(),
            trigger: CollectionTrigger::new(total_pages, stress_factor),
            controller: ControllerCollectorContext::new(),
        }
    }

    /// Decide whether the allocating thread must stop for a collection; when
    /// it must, the coordinator is asked for one.
    pub fn poll(&mut self, space_full: bool, pages_used: u64) -> (r: bool)
        ensures
            r == (space_full || stress_due(old(self).trigger, old(self).committed.pages)
                || heap_full(old(self).trigger, pages_used)),
            final(self).trigger == after_stress_check(old(self).trigger, old(self).committed.pages),
            final(self).controller == if r {
                requested(old(self).controller)
            } else {
                old(self).controller
            },
            final(self).committed == old(self).committed,
    {
        let pages = self.committed.pages;
        if self.trigger.collection_required(space_full, pages_used, pages) {
            self.controller.request();
            return true;
        }
        false
    }

    /// A user asked for a collection. Returns whether the calling thread
    /// must now block until the collection is over.
    pub fn handle_user_collection_request(&mut self) -> (r: bool)
        ensures
            r == !old(self).trigger.ignore_system_gc,
            r ==> final(self).trigger == (CollectionTrigger {
                user_triggered_collection: true,
                ..old(self).trigger
            }) && final(self).controller == requested(old(self).controller),
            !r ==> final(self).trigger == old(self).trigger && final(self).controller == old(
                self,
            ).controller,
            final(self).committed == old(self).committed,
    {
        if !self.trigger.ignore_system_gc {
            self.trigger.user_triggered_collection = true;
            self.controller.request();
            true
        } else {
            false
        }
    }
}

/// Enter a new collection status; leaving the mutator phase forgets that
/// stacks were prepared.
pub fn set_gc_status(trigger: &mut CollectionTrigger, s: GcStatus)
    ensures
        *final(trigger) == (CollectionTrigger {
            gc_status: s,
            stacks_prepared: old(trigger).stacks_prepared && old(trigger).gc_status
                != GcStatus::NotInGC,
            ..*old(trigger)
        }),
{
    if trigger.gc_status == GcStatus::NotInGC {
        trigger.stacks_prepared = false;
    }
    trigger.gc_status = s;
}

pub fn stacks_prepared(trigger: &CollectionTrigger) -> (r: bool)
    ensures
        r == trigger.stacks_prepared,
{
    trigger.stacks_prepared
}

pub fn gc_in_progress(trigger: &CollectionTrigger) -> (r: bool)
    ensures
        r == (trigger.gc_status != GcStatus::NotInGC),
{
    trigger.gc_status != GcStatus::NotInGC
}

pub fn gc_in_progress_proper(trigger: &CollectionTrigger) -> (r: bool)
    ensures
        r == (trigger.gc_status == GcStatus::GcProper),
{
    trigger.gc_status == GcStatus::GcProper
}

/// Start of a measured run: collect whatever the option to ignore user
/// requests says. Returns whether the calling thread must block.
pub fn harness_begin(ctx: &mut GcContext) -> (r: bool)
    ensures
        r,
        final(ctx).trigger == (CollectionTrigger {
            user_triggered_collection: true,
            inside_harness: true,
            ..old(ctx).trigger
        }),
        final(ctx).controller == requested(old(ctx).controller),
        final(ctx).committed == old(ctx).committed,
{
    let old_ignore = ctx.trigger.ignore_system_gc;
    ctx.trigger.ignore_system_gc = false;
    let r = ctx.handle_user_collection_request();
    ctx.trigger.ignore_system_gc = old_ignore;
    ctx.trigger.inside_harness = true;
    r
}

/// End of a measured run.
pub fn harness_end(ctx: &mut GcContext)
    ensures
        final(ctx).trigger == (CollectionTrigger { inside_harness: false, ..old(ctx).trigger }),
        final(ctx).controller == old(ctx).controller,
        final(ctx).committed == old(ctx).committed,
{
    ctx.trigger.inside_harness = false;
}

/// Bytes in use, for `pages_used` pages in use.
pub fn used_bytes(pages_used: u64) -> (r: u64)
    requires
        pages_used <= 0x8_0000_0000,
    ensures
        r == pages_used * BYTES_IN_PAGE,
{
    pages_used * BYTES_IN_PAGE
}

/// Bytes of the heap not in use.
pub fn free_bytes(trigger: &CollectionTrigger, pages_used: u64) -> (r: u64)
    requires
        trigger.total_pages <= 0x8_0000_0000,
    ensures
        r == (if pages_used <= trigger.total_pages {
            trigger.total_pages - pages_used
        } else {
            0
        }) * BYTES_IN_PAGE,
{
    trigger.get_free_pages(pages_used) * BYTES_IN_PAGE
}

/// Bytes of the whole heap.
pub fn total_bytes(trigger: &CollectionTrigger) -> (r: u64)
    requires
        trigger.total_pages <= 0x8_0000_0000,
    ensures
        r == trigger.total_pages * BYTES_IN_PAGE,
{
    trigger.total_pages * BYTES_IN_PAGE
}

pub fn starting_heap_address() -> (r: Address)
    ensures
        r.value == HEAP_START,
{
    Address::from_u64(HEAP_START)
}

pub fn last_heap_address() -> (r: Address)
    ensures
        r.value == HEAP_END,
{
    Address::from_u64(HEAP_END)
}

impl CollectionTrigger {
    pub open spec fn new_spec(total_pages: u64, stress_factor: u64) -> CollectionTrigger {
        CollectionTrigger {
            initialized: false,
            stress_factor,
            last_stress_pages: 0,
            total_pages,
            collection_reserve: 0,
            emergency_collection: false,
            user_triggered_collection: false,
            ignore_system_gc: false,
            gc_status: GcStatus::NotInGC,
            stacks_prepared: false,
            inside_harness: false,
        }
    }
}

} // verus!
