use mmtk::address::{Address, ObjectReference};
use mmtk::collector_group::ParallelCollectorGroup;
use mmtk::forwarding::{ObjectCopier, FORWARDED};
use mmtk::immix::{
    BlockState, ImmixSpace, Line, ScanObjectsAndMarkLines, BYTES_IN_BLOCK, BYTES_IN_LINE,
    LINES_IN_BLOCK, MAX_MARK_STATE, RESET_MARK_STATE,
};
use mmtk::layout::{
    bytes_to_pages_up, chunk_align, pages_to_bytes, raw_chunk_align, required_chunks,
    BYTES_IN_CHUNK, HEAP_END, HEAP_START,
};
use mmtk::mutators::{
    create_gencopy_mutator, gencopy_allocator_mapping, gencopy_mutator_release, scan_statics,
    AllocationSemantics, AllocatorSelector, MallocMS, NoGCTraceLocal,
};
use mmtk::page_resource::{cumulative_committed_pages, CumulativeCommitted, PageResource};
use mmtk::phase::{
    schedule_collection, CollectorAction, MutatorAction, MutatorSpace, Phase, SSCollector,
    SSMutator, Schedule,
};
use mmtk::plan::{
    gc_in_progress, gc_in_progress_proper, harness_begin, harness_end, set_gc_status,
    stacks_prepared, Allocator, CollectionTrigger, GcContext, GcError, GcStatus, PlanKind,
};
use mmtk::policies::{CopySpace, ImmortalFreeListSpace, RegionSpace, BYTES_IN_REGION};
use mmtk::space::{check_layout, AbstractSpace, CommonSpace, HeapMeta, SpaceError, VMRequest};
use mmtk::page_resource::PageResourceKind;

struct Copier {
    next: u64,
}

impl ObjectCopier for Copier {
    fn copy(&mut self, _object: ObjectReference, _allocator: Allocator) -> ObjectReference {
        let r = ObjectReference::from_u64(self.next);
        self.next += 64;
        r
    }
}

#[test]
fn chunk_and_page_conversions() {
    assert_eq!(required_chunks(1), 1);
    assert_eq!(required_chunks(1024), 1);
    assert_eq!(required_chunks(1025), 2);
    assert_eq!(required_chunks(0), 0);
    assert_eq!(raw_chunk_align(BYTES_IN_CHUNK + 1, false), 2 * BYTES_IN_CHUNK);
    assert_eq!(raw_chunk_align(BYTES_IN_CHUNK + 1, true), BYTES_IN_CHUNK);
    assert_eq!(chunk_align(Address::from_u64(5), true).as_u64(), 0);
    assert_eq!(pages_to_bytes(3), 12288);
    assert_eq!(bytes_to_pages_up(4097), 2);
}

#[test]
fn free_list_first_fit_and_release() {
    let mut counter = CumulativeCommitted::new();
    let start = Address::from_u64(HEAP_START);
    let mut pr = PageResource::new_freelist(start, 16, 0);
    let r1 = pr.reserve_pages(4);
    let a = pr.get_new_pages(r1, 4, true, true, &mut counter);
    assert_eq!(a.as_u64(), HEAP_START);
    let r2 = pr.reserve_pages(4);
    let b = pr.get_new_pages(r2, 4, true, false, &mut counter);
    assert_eq!(b.as_u64(), HEAP_START + 4 * 4096);
    assert_eq!(pr.committed_pages(), 8);
    assert_eq!(cumulative_committed_pages(&counter), 4);
    assert_eq!(pr.release_pages(a), 4);
    assert_eq!(pr.committed_pages(), 4);
    assert_eq!(pr.reserved_pages(), 4);
    // a second release of the same run frees nothing
    assert_eq!(pr.release_pages(a), 0);
    let r3 = pr.reserve_pages(2);
    let c = pr.get_new_pages(r3, 2, true, false, &mut counter);
    assert_eq!(c.as_u64(), HEAP_START);
    let r4 = pr.reserve_pages(12);
    let d = pr.get_new_pages(r4, 12, true, false, &mut counter);
    assert!(d.is_zero());
}

#[test]
fn monotone_metadata_adjustment_and_reset() {
    let mut counter = CumulativeCommitted::new();
    let mut pr = PageResource::new_monotone(Address::from_u64(HEAP_START), 4096, 2);
    assert_eq!(pr.adjust_for_metadata(1), 3);
    assert_eq!(pr.adjust_for_metadata(1025), 1029);
    let r = pr.reserve_pages(10);
    assert_eq!(r, 12);
    let a = pr.get_new_pages(r, 10, false, true, &mut counter);
    assert_eq!(a.as_u64(), HEAP_START);
    assert_eq!(pr.reserved_pages(), 10);
    assert_eq!(pr.committed_pages(), 10);
    pr.reset();
    assert_eq!(pr.reserved_pages(), 0);
    assert_eq!(pr.committed_pages(), 0);
}

#[test]
fn clear_request_twice_stops_at_committed() {
    let mut counter = CumulativeCommitted::new();
    let mut pr = PageResource::new_monotone(Address::from_u64(HEAP_START), 64, 0);
    let r = pr.reserve_pages(10);
    pr.get_new_pages(r, 10, false, false, &mut counter);
    let pending = pr.reserve_pages(5);
    pr.clear_request(pending);
    assert_eq!(pr.reserved_pages(), 10);
    pr.clear_request(pending);
    assert_eq!(pr.reserved_pages(), 10);
    assert!(pr.reserved_pages() >= pr.committed_pages());
}

#[test]
fn space_layout_errors() {
    let heap = HeapMeta::new(HEAP_START, HEAP_END);
    assert_eq!(
        check_layout(VMRequest::fixed_extent(4096, false), &heap),
        Some(SpaceError::NonAlignedExtent)
    );
    assert_eq!(
        check_layout(
            VMRequest::Fixed { start: Address::from_u64(HEAP_START + 4096), extent: BYTES_IN_CHUNK, top: false },
            &heap
        ),
        Some(SpaceError::NonAlignedStart)
    );
    assert_eq!(
        check_layout(VMRequest::fixed_extent(HEAP_END - HEAP_START + BYTES_IN_CHUNK, false), &heap),
        Some(SpaceError::OutOfVirtualSpace)
    );
    assert_eq!(
        check_layout(VMRequest::Fraction { numerator: 2, denominator: 1, top: false }, &heap),
        Some(SpaceError::InvalidFraction)
    );
    assert_eq!(check_layout(VMRequest::fixed_extent(BYTES_IN_CHUNK, true), &heap), None);
    assert_eq!(check_layout(VMRequest::discontiguous(), &heap), None);
    assert_eq!(heap.heap_cursor, HEAP_START);
}

#[test]
fn spaces_take_from_bottom_and_top() {
    let mut heap = HeapMeta::new(HEAP_START, HEAP_END);
    let low = CommonSpace::new(
        "low",
        true,
        false,
        true,
        VMRequest::fixed_extent(2 * BYTES_IN_CHUNK, false),
        PageResourceKind::FreeList,
        0,
        &mut heap,
    );
    assert_eq!(low.start.as_u64(), HEAP_START);
    assert_eq!(low.pr.capacity, 2048);
    assert_eq!(low.index, 0);
    let high = CommonSpace::new(
        "high",
        true,
        false,
        true,
        VMRequest::fixed_extent(BYTES_IN_CHUNK, true),
        PageResourceKind::Monotone,
        0,
        &mut heap,
    );
    assert_eq!(high.start.as_u64(), HEAP_END - BYTES_IN_CHUNK);
    assert_eq!(heap.heap_cursor, HEAP_START + 2 * BYTES_IN_CHUNK);
    assert_eq!(heap.heap_limit, HEAP_END - BYTES_IN_CHUNK);
    assert!(low.in_space(ObjectReference::from_u64(HEAP_START + 8)));
    assert!(!low.in_space(ObjectReference::from_u64(HEAP_START + 2 * BYTES_IN_CHUNK)));
    assert_eq!(high.get_name(), "high");
}

#[test]
fn stress_collection_fires_after_enough_commits() {
    let mut t = CollectionTrigger::new(1000, 10);
    assert!(!t.stress_test_gc_required(50));
    t.initialized = true;
    assert!(t.stress_test_gc_required(10));
    assert_eq!(t.last_stress_pages, 10);
    assert!(!t.stress_test_gc_required(19));
    assert!(t.stress_test_gc_required(20));
    assert!(t.collection_required(false, 1001, 0));
    assert!(!t.collection_required(false, 1000, 0));
    assert_eq!(t.get_pages_avail(400), 600);
    assert_eq!(t.get_free_pages(1200), 0);
}

#[test]
fn gc_status_and_user_requests() {
    let mut ctx = GcContext::new(100, u64::MAX);
    ctx.trigger.stacks_prepared = true;
    set_gc_status(&mut ctx.trigger, GcStatus::GcPrepare);
    assert!(!stacks_prepared(&ctx.trigger));
    assert!(gc_in_progress(&ctx.trigger));
    assert!(!gc_in_progress_proper(&ctx.trigger));
    set_gc_status(&mut ctx.trigger, GcStatus::GcProper);
    assert_eq!(ctx.trigger.modify_check(true), Err(GcError::ModifyingMovableObject));
    assert_eq!(ctx.trigger.modify_check(false), Ok(()));
    ctx.trigger.ignore_system_gc = true;
    assert!(!ctx.handle_user_collection_request());
    assert!(harness_begin(&mut ctx));
    assert!(ctx.trigger.user_triggered_collection);
    assert!(ctx.trigger.ignore_system_gc);
    harness_end(&mut ctx);
    assert!(!ctx.trigger.inside_harness);
}

#[test]
fn allocator_numbers() {
    assert_eq!(Allocator::DefaultSite.to_i32(), -1);
    assert_eq!(Allocator::Los.to_i32(), 4);
    assert_eq!(Allocator::from_i32(7), Some(Allocator::Code));
    assert_eq!(Allocator::from_i32(10), None);
}

#[test]
fn schedule_prepares_before_closure_before_release() {
    let s = schedule_collection();
    let last_prepare = s.iter().rposition(|p| p.phase == Phase::Prepare).unwrap();
    let first_closure = s.iter().position(|p| p.phase == Phase::Closure).unwrap();
    let last_closure = s.iter().rposition(|p| p.phase == Phase::Closure).unwrap();
    let first_release = s.iter().position(|p| p.phase == Phase::Release).unwrap();
    assert!(last_prepare < first_closure);
    assert!(last_closure < first_release);
    for who in [Schedule::Mutator, Schedule::Global, Schedule::Collector] {
        assert!(s.iter().any(|p| p.phase == Phase::Prepare && p.schedule == who));
        assert!(s.iter().any(|p| p.phase == Phase::Release && p.schedule == who));
    }
    assert_eq!(s[0].phase, Phase::StopMutators);
    assert_eq!(s[s.len() - 1].phase, Phase::ResumeMutators);
}

#[test]
fn semispace_phase_actions() {
    let mut c = SSCollector::new();
    c.init(3);
    assert_eq!(c.get_id(), 3);
    c.set_worker_ordinal(1);
    assert_eq!(c.parallel_worker_ordinal(), 1);
    c.increment_last_trigger_count();
    assert_eq!(c.get_last_trigger_count(), 1);
    assert_eq!(c.collection_phase(Phase::Closure), Ok(CollectorAction::CompleteTrace));
    assert_eq!(
        c.collection_phase(Phase::Roots),
        Ok(CollectorAction::ComputeGlobalRoots { boot_image: true })
    );
    assert_eq!(c.collection_phase(Phase::Initiate), Err(GcError::PhaseNotHandled));
    let m = SSMutator::new(9);
    assert_eq!(m.get_thread_id(), 9);
    assert_eq!(m.collection_phase(Phase::PrepareStacks, false), Ok(MutatorAction::PrepareAndFlush));
    assert_eq!(m.collection_phase(Phase::PrepareStacks, true), Ok(MutatorAction::FlushRememberedSets));
    assert_eq!(m.collection_phase(Phase::Release, true), Ok(MutatorAction::RebindAllocator));
    assert_eq!(m.collection_phase(Phase::Closure, true), Err(GcError::PhaseNotHandled));
    assert_eq!(m.space_for(Allocator::Default), MutatorSpace::CopySpace);
    assert_eq!(m.space_for(Allocator::Los), MutatorSpace::VersatileSpace);
}

#[test]
fn gencopy_mutator_mapping() {
    let m = create_gencopy_mutator(7, 0, 1, 2);
    assert_eq!(m.mutator_tls, 7);
    assert_eq!(m.config.allocator_mapping.len(), 6);
    assert_eq!(gencopy_allocator_mapping(AllocationSemantics::Los), AllocatorSelector::LargeObject(0));
    assert_eq!(gencopy_allocator_mapping(AllocationSemantics::Code), AllocatorSelector::BumpPointer(1));
    assert_eq!(m.config.space_mapping[2], (AllocatorSelector::LargeObject(0), 2));
    assert_eq!(gencopy_mutator_release(&m, 7), AllocatorSelector::BumpPointer(0));
    let t = NoGCTraceLocal::new();
    assert!(t.is_live(ObjectReference::from_u64(8)));
}

#[test]
fn static_slots_are_split_between_collectors() {
    assert_eq!(scan_statics(20, 2, 0), vec![2, 4, 6, 8]);
    assert_eq!(scan_statics(20, 2, 1), vec![10, 12, 14, 16, 18]);
    assert_eq!(scan_statics(21, 1, 0), vec![2, 4, 6, 8, 10, 12, 14, 16, 18, 20]);
}

#[test]
fn malloc_sweep_frees_unmarked_objects() {
    let mut ms = MallocMS::new();
    let chunk = HEAP_START;
    ms.chunks.push(chunk);
    ms.alloc_bits.write(chunk, 1);
    ms.alloc_bits.write(chunk + 16, 1);
    ms.mark_bits.write(chunk + 16, 1);
    ms.alloc_bits.write(chunk + 32, 1);
    let freed = ms.release();
    assert_eq!(freed, vec![Address::from_u64(chunk), Address::from_u64(chunk + 32)]);
    assert_eq!(ms.alloc_bits.read(chunk), 0);
    assert_eq!(ms.alloc_bits.read(chunk + 16), 1);
    assert_eq!(ms.mark_bits.read(chunk + 16), 0);
}

#[test]
fn collector_group_barrier() {
    let mut g = ParallelCollectorGroup::new(2, false);
    assert!(g.is_cycle_complete());
    g.trigger_cycle();
    assert!(!g.is_cycle_complete());
    assert!(g.is_released(0));
    g.park(0);
    assert!(!g.is_released(0));
    assert!(!g.is_cycle_complete());
    g.park(1);
    assert!(g.is_cycle_complete());
    let (a, gen) = g.rendezvous();
    assert_eq!(a, 0);
    assert!(!g.rendezvous_open(gen));
    let (b, gen2) = g.rendezvous();
    assert_eq!(b, 1);
    assert_eq!(gen, gen2);
    assert!(g.rendezvous_open(gen));
    g.abort_cycle();
    assert!(g.is_aborted());
}

fn immix_space(heap: &mut HeapMeta) -> ImmixSpace {
    ImmixSpace::new("immix", VMRequest::fixed_extent(BYTES_IN_CHUNK, false), heap)
}

#[test]
fn immix_hole_search_and_line_marks() {
    let mut heap = HeapMeta::new(HEAP_START, HEAP_END);
    let mut s = immix_space(&mut heap);
    assert_eq!(s.block_state.len(), 128);
    let obj = ObjectReference::from_u64(HEAP_START + 2 * BYTES_IN_LINE + 8);
    s.mark_lines(obj, 2 * BYTES_IN_LINE);
    assert_eq!(s.line_marks[2], RESET_MARK_STATE);
    assert_eq!(s.line_marks[4], RESET_MARK_STATE);
    assert_eq!(s.line_marks[5], 0);
    let first = s.get_next_available_lines(Line { block: 0, index: 0 });
    assert_eq!(first, Some((Line { block: 0, index: 0 }, Line { block: 0, index: 2 })));
    let next = s.get_next_available_lines(Line { block: 0, index: 3 });
    assert_eq!(next, Some((Line { block: 0, index: 5 }, Line { block: 0, index: LINES_IN_BLOCK })));
    let scan = ScanObjectsAndMarkLines::new(
        vec![ObjectReference::from_u64(HEAP_START + BYTES_IN_BLOCK)],
        vec![BYTES_IN_LINE],
        false,
    );
    scan.do_work(&mut s);
    assert_eq!(s.line_marks[LINES_IN_BLOCK], RESET_MARK_STATE);
}

#[test]
fn immix_cycle_sweeps_and_reuses_blocks() {
    let mut heap = HeapMeta::new(HEAP_START, HEAP_END);
    let mut s = immix_space(&mut heap);
    let mut ctx = GcContext::new(100_000, u64::MAX);
    let b0 = s.get_clean_block(&mut ctx, false, false, 0).unwrap();
    let b1 = s.get_clean_block(&mut ctx, false, false, 0).unwrap();
    let b2 = s.get_clean_block(&mut ctx, false, false, 0).unwrap();
    assert_eq!((b0.index, b1.index, b2.index), (0, 1, 2));
    assert_eq!(s.block_state[0], BlockState::Unmarked);
    s.prepare(true, 100_000, 24);
    assert_eq!(s.line_mark_state, RESET_MARK_STATE + 1);
    // a live object in block 0 and a full block 1; block 2 holds nothing live
    let obj = ObjectReference::from_u64(HEAP_START + 8);
    let mut trace = Vec::new();
    assert_eq!(s.trace_object_without_moving(&mut trace, obj), obj);
    assert_eq!(s.fast_trace_object(&mut trace, obj), obj);
    assert_eq!(trace, vec![obj]);
    assert!(s.is_marked(obj));
    s.mark_lines(obj, 8);
    for l in 0..LINES_IN_BLOCK {
        s.line_marks[LINES_IN_BLOCK + l] = s.line_mark_state;
    }
    let committed_before = s.common.pr.committed_pages();
    let did_defrag = s.release(true);
    assert!(!did_defrag);
    assert_eq!(s.block_state[0], BlockState::Reusable { unavailable_lines: 1 });
    assert_eq!(s.block_state[1], BlockState::Unmarked);
    assert_eq!(s.block_state[2], BlockState::Unallocated);
    assert_eq!(s.holes[0], 1);
    assert_eq!(s.reusable_blocks, vec![0]);
    assert_eq!(s.common.pr.committed_pages(), committed_before - 8);
    assert_eq!(s.line_unavail_state, s.line_mark_state);
    let reused = s.get_reusable_block(false).unwrap();
    assert_eq!(reused.index, 0);
    assert!(s.get_reusable_block(false).is_none());
    assert!(ImmixSpace::is_last_gc_exhaustive(true));
}

#[test]
fn immix_defrag_decision_and_evacuation() {
    let mut heap = HeapMeta::new(HEAP_START, HEAP_END);
    let mut s = immix_space(&mut heap);
    assert!(s.decide_whether_to_defrag(false, false, 0, false, false));
    s.reusable_blocks.push(0);
    assert!(!s.decide_whether_to_defrag(false, false, 1, false, false));
    assert!(s.decide_whether_to_defrag(false, false, 2, false, false));
    assert!(s.decide_whether_to_defrag(false, true, 0, true, true));
    assert!(s.in_defrag());
    let mut ctx = GcContext::new(100_000, u64::MAX);
    let b = s.get_clean_block(&mut ctx, false, false, 0).unwrap();
    s.holes[b.index] = 10;
    s.marked_lines[b.index] = 20;
    assert_eq!(s.live_lines_above(9), 20);
    assert_eq!(s.live_lines_above(10), 0);
    assert_eq!(s.establish_defrag_spill_threshold(19), 10);
    assert_eq!(s.establish_defrag_spill_threshold(20), 0);
    s.prepare(true, 100_000, 8);
    assert_eq!(s.defrag.defrag_spill_threshold, 0);
    assert!(!s.defrag_source[b.index]);
    s.defrag_source[b.index] = true;
    let obj = ObjectReference::from_u64(HEAP_START + 64);
    let mut trace = Vec::new();
    let mut copier = Copier { next: HEAP_START + BYTES_IN_BLOCK * 5 };
    let moved = s.trace_object(&mut trace, obj, Allocator::Default, &mut copier);
    assert_eq!(moved.value(), HEAP_START + BYTES_IN_BLOCK * 5);
    assert_eq!(s.forwarding.read(obj.value()) & 3, FORWARDED);
    let again = s.trace_object(&mut trace, obj, Allocator::Default, &mut copier);
    assert_eq!(again, moved);
    assert_eq!(trace, vec![moved]);
    s.defrag.defrag_space_exhausted = true;
    let pinned = ObjectReference::from_u64(HEAP_START + 128);
    let stays = s.trace_object_with_opportunistic_copy(&mut trace, pinned, Allocator::Default, &mut copier);
    assert_eq!(stays, pinned);
    assert!(s.is_marked(pinned));
    assert_eq!(s.block_state[b.index], BlockState::Marked);
    assert_eq!(s.forwarding.read(pinned.value()) & 3, 0);
}

#[test]
fn line_mark_state_wraps_around() {
    let mut heap = HeapMeta::new(HEAP_START, HEAP_END);
    let mut s = immix_space(&mut heap);
    s.line_mark_state = MAX_MARK_STATE;
    s.prepare(false, 10, 0);
    assert_eq!(s.line_mark_state, RESET_MARK_STATE);
    assert_eq!(s.defrag_headroom_pages(), 0);
}

#[test]
fn copy_space_forwards_once() {
    let mut heap = HeapMeta::new(HEAP_START, HEAP_END);
    let mut cs = CopySpace::new("ss0", true, true, VMRequest::fixed_extent(BYTES_IN_CHUNK, false), &mut heap);
    let mut trace = Vec::new();
    let mut copier = Copier { next: 0x7000_0000 };
    let obj = ObjectReference::from_u64(HEAP_START + 16);
    let first = cs.trace_object(&mut trace, obj, Allocator::Default, &mut copier);
    let second = cs.trace_object(&mut trace, obj, Allocator::Default, &mut copier);
    assert_eq!(first.value(), 0x7000_0000);
    assert_eq!(second, first);
    assert_eq!(trace, vec![first]);
    cs.release();
    assert!(!cs.from_space);
    let outside = cs.trace_object(&mut trace, obj, Allocator::Default, &mut copier);
    assert_eq!(outside, obj);
    cs.prepare(true);
    assert!(cs.from_space);
}

#[test]
fn immortal_space_flips_mark_state() {
    let mut heap = HeapMeta::new(HEAP_START, HEAP_END);
    let mut s = ImmortalFreeListSpace::new("immortal", true, VMRequest::fixed_extent(BYTES_IN_CHUNK, false), &mut heap);
    let obj = ObjectReference::from_u64(HEAP_START + 32);
    let mut trace = Vec::new();
    s.initialize_header(obj);
    assert_eq!(s.header.read(obj.value()), 0);
    s.prepare();
    assert_eq!(s.mark_state, 1);
    s.trace_object(&mut trace, obj);
    s.trace_object(&mut trace, obj);
    assert_eq!(trace, vec![obj]);
    assert_eq!(s.header.read(obj.value()), 1);
    s.release();
}

#[test]
fn region_space_marks_and_evacuates() {
    let mut heap = HeapMeta::new(HEAP_START, HEAP_END);
    let mut s = RegionSpace::new("regions", VMRequest::fixed_extent(BYTES_IN_CHUNK, false), &mut heap);
    assert_eq!(s.regions.len(), 4);
    let obj = ObjectReference::from_u64(HEAP_START + BYTES_IN_REGION + 8);
    let mut trace = Vec::new();
    s.trace_mark_object(&mut trace, obj, 48);
    s.trace_mark_object(&mut trace, obj, 48);
    assert_eq!(s.regions[1].live_size, 48);
    assert_eq!(trace.len(), 1);
    assert!(s.is_live(obj));
    s.prepare();
    assert_eq!(s.regions[1].live_size, 0);
    assert!(!s.is_live(obj));
    s.regions[1].relocate = true;
    let mut copier = Copier { next: HEAP_START + 3 * BYTES_IN_REGION };
    let moved = s.trace_evacuate_object(&mut trace, obj, Allocator::Default, &mut copier);
    assert_eq!(moved.value(), HEAP_START + 3 * BYTES_IN_REGION);
    assert!(s.is_live(obj));
    assert_eq!(s.trace_evacuate_object(&mut trace, obj, Allocator::Default, &mut copier), moved);
}

#[test]
fn spaces_share_the_space_interface() {
    let mut heap = HeapMeta::new(HEAP_START, HEAP_END);
    let s = immix_space(&mut heap);
    assert!(s.in_space(ObjectReference::from_u64(HEAP_START)));
    assert!(!s.in_space(ObjectReference::from_u64(HEAP_START + BYTES_IN_CHUNK)));
    assert_eq!(s.common().get_name(), "immix");
}

#[test]
fn mapped_objects_lie_on_pages_in_use() {
    let mut heap = HeapMeta::new(HEAP_START, HEAP_END);
    let mut space = CommonSpace::new(
        "m",
        false,
        false,
        true,
        VMRequest::fixed_extent(BYTES_IN_CHUNK, false),
        PageResourceKind::FreeList,
        0,
        &mut heap,
    );
    let mut ctx = GcContext::new(10_000, u64::MAX);
    let obj = ObjectReference::from_u64(HEAP_START + 100);
    assert!(!space.is_mapped_object(obj));
    let got = space.acquire(&mut ctx, false, 1, 0);
    assert_eq!(got, mmtk::space::AcquireOutcome::Allocated(Address::from_u64(HEAP_START)));
    assert!(space.is_mapped_object(obj));
    assert!(!space.is_mapped_object(ObjectReference::from_u64(HEAP_START + 4096)));
    assert!(!space.is_mapped_object(ObjectReference::from_u64(0)));
}

#[test]
fn boot_space_and_collector_post_copy() {
    let mut heap = HeapMeta::new(HEAP_START, HEAP_END);
    let mut boot = mmtk::policies::create_vm_space(BYTES_IN_CHUNK + 1, &mut heap);
    assert_eq!(boot.common.extent, 2 * BYTES_IN_CHUNK);
    let mut table = mmtk::word_table::WordTable::new();
    let obj = ObjectReference::from_u64(HEAP_START + 64);
    table.write(obj.value(), 0x40 | 2);
    boot.prepare();
    let c = SSCollector::new();
    c.post_copy(&mut table, &mut boot, obj, Allocator::Los);
    assert_eq!(table.read(obj.value()), 0x40);
    assert_eq!(boot.header.read(obj.value()), 1);
}

#[test]
fn immix_copy_context_and_liveness() {
    let mut heap = HeapMeta::new(HEAP_START, HEAP_END);
    let mut s = immix_space(&mut heap);
    let cc = mmtk::immix::ImmixCopyContext::new(1);
    assert_eq!(cc.alloc_copy(&s), mmtk::immix::CopyAllocatorKind::Copy);
    s.prepare(true, 1000, 0);
    let obj = ObjectReference::from_u64(HEAP_START + 512);
    assert!(!s.is_live(obj));
    cc.post_copy(&mut s, obj);
    assert!(s.is_live(obj));
}

#[test]
fn region_space_acquires_and_releases_regions() {
    let mut heap = HeapMeta::new(HEAP_START, HEAP_END);
    let mut s = RegionSpace::new("regions", VMRequest::fixed_extent(BYTES_IN_CHUNK, false), &mut heap);
    let mut ctx = GcContext::new(100_000, u64::MAX);
    assert_eq!(s.acquire_new_region(&mut ctx, false, 0), Some(0));
    assert_eq!(s.acquire_new_region(&mut ctx, false, 0), Some(1));
    assert!(s.regions[1].committed);
    assert_eq!(s.common.pr.committed_pages(), 512);
    s.regions[0].relocate = true;
    s.release();
    assert!(!s.regions[0].committed);
    assert!(s.regions[1].committed);
    assert_eq!(s.common.pr.committed_pages(), 256);
}

#[test]
fn collection_set_takes_least_live_regions_that_fit() {
    let mut heap = HeapMeta::new(HEAP_START, HEAP_END);
    let mut s = RegionSpace::new("regions", VMRequest::fixed_extent(BYTES_IN_CHUNK, false), &mut heap);
    let lives = [300_000u64, 100_000, 700_000, 200_000];
    for (i, live) in lives.iter().enumerate() {
        s.regions[i].committed = true;
        s.regions[i].live_size = *live;
    }
    // fewer pages than a chunk leave no whole region to copy into
    assert_eq!(s.compute_collection_set(1023), Vec::<usize>::new());
    // a chunk of pages gives four regions of room: all but the one over the live limit
    let chosen = s.compute_collection_set(1024);
    assert_eq!(chosen, vec![1, 3, 0]);
    assert!(s.regions[0].relocate && s.regions[1].relocate && s.regions[3].relocate);
    assert!(!s.regions[2].relocate);
    s.regions[3].committed = false;
    let mut t = RegionSpace::new("more", VMRequest::fixed_extent(BYTES_IN_CHUNK, false), &mut heap);
    t.regions[0].committed = true;
    t.regions[0].live_size = 700_000;
    assert_eq!(t.compute_collection_set(4096), Vec::<usize>::new());
    // one region of room: the smaller fits, then the larger no longer does
    let mut u = RegionSpace::new("few", VMRequest::fixed_extent(BYTES_IN_CHUNK, false), &mut heap);
    u.regions[0].committed = true;
    u.regions[0].live_size = 600_000;
    u.regions[1].committed = true;
    u.regions[1].live_size = 500_000;
    assert_eq!(u.compute_collection_set(1024), vec![1, 0]);
}

#[test]
fn memory_accounting_in_bytes() {
    let t = CollectionTrigger::new(100, u64::MAX);
    assert_eq!(mmtk::plan::used_bytes(3), 12288);
    assert_eq!(mmtk::plan::free_bytes(&t, 40), 60 * 4096);
    assert_eq!(mmtk::plan::free_bytes(&t, 400), 0);
    assert_eq!(mmtk::plan::total_bytes(&t), 409600);
    assert_eq!(mmtk::plan::starting_heap_address().as_u64(), HEAP_START);
    assert_eq!(mmtk::plan::last_heap_address().as_u64(), HEAP_END);
}

#[test]
fn plan_kinds() {
    assert!(PlanKind::NoGC.schedule_collection().is_empty());
    assert_eq!(PlanKind::Immix.schedule_collection().len(), 34);
    assert!(PlanKind::SemiSpace.moves_objects());
    assert!(!PlanKind::MallocMS.moves_objects());
    assert!(!PlanKind::Immix.last_collection_was_exhaustive(false));
    assert!(PlanKind::GenCopy.last_collection_was_exhaustive(false));
}
