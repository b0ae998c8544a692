use mmtk::address::{Address, ObjectReference};
use mmtk::controller::{ControllerAction, ControllerCollectorContext, ControllerState};
use mmtk::forwarding::{
    attempt_to_forward, extract_forwarding_pointer, forward_object, is_forwarded,
    spin_and_get_forwarded_object, state_is_being_forwarded,
    state_is_forwarded_or_being_forwarded, ObjectCopier, FORWARDED,
};
use mmtk::immix::find_hole;
use mmtk::layout::{BYTES_IN_CHUNK, HEAP_END, HEAP_START};
use mmtk::page_resource::{PageResource, PageResourceKind};
use mmtk::plan::{Allocator, GcContext};
use mmtk::space::{AcquireOutcome, CommonSpace, HeapMeta, VMRequest};
use mmtk::word_table::WordTable;

struct FixedCopier {
    to: u64,
    copies: usize,
}

impl ObjectCopier for FixedCopier {
    fn copy(&mut self, _object: ObjectReference, _allocator: Allocator) -> ObjectReference {
        self.copies += 1;
        ObjectReference::from_u64(self.to)
    }
}

fn monotone_space_of_64_pages(heap: &mut HeapMeta) -> CommonSpace {
    let mut space = CommonSpace::new(
        "mono",
        false,
        false,
        true,
        VMRequest::fixed_extent(BYTES_IN_CHUNK, false),
        PageResourceKind::Monotone,
        0,
        heap,
    );
    space.pr = PageResource::new_monotone(space.start, 64, 0);
    space
}

#[test]
fn monotone_space_rolls_back_failed_request() {
    let mut heap = HeapMeta::new(HEAP_START, HEAP_END);
    let mut space = monotone_space_of_64_pages(&mut heap);
    let mut ctx = GcContext::new(64, u64::MAX);
    ctx.trigger.initialized = true;

    let first = space.acquire(&mut ctx, true, 10, 0);
    assert_eq!(first, AcquireOutcome::Allocated(space.start));
    assert_eq!(space.pr.reserved_pages(), 10);
    assert_eq!(space.pr.committed_pages(), 10);

    let second = space.acquire(&mut ctx, true, 60, 0);
    assert_eq!(second, AcquireOutcome::BlockForGc);
    assert_eq!(space.pr.reserved_pages(), 10);
    assert!(ctx.controller.has_pending_request());

    space.pr.clear_request(60);
    assert_eq!(space.pr.reserved_pages(), 10);
    assert_eq!(space.pr.committed_pages(), 10);
}

#[test]
fn allocation_without_polling_never_requests_collection() {
    let mut heap = HeapMeta::new(HEAP_START, HEAP_END);
    let mut space = monotone_space_of_64_pages(&mut heap);
    let mut ctx = GcContext::new(10, u64::MAX);
    ctx.trigger.initialized = true;
    assert_eq!(space.acquire(&mut ctx, false, 10, 0), AcquireOutcome::Allocated(space.start));
    let second = space.acquire(&mut ctx, false, 50, 0);
    assert_eq!(second, AcquireOutcome::Allocated(Address::from_u64(space.start.as_u64() + 10 * 4096)));
    assert_eq!(space.pr.reserved_pages(), 60);
    assert!(!ctx.controller.has_pending_request());
    assert_eq!(ctx.committed.pages, 0);
}

#[test]
fn two_workers_race_to_forward() {
    let mut table = WordTable::new();
    let object = ObjectReference::from_u64(0x1000);
    let mut copier = FixedCopier { to: 0x8000, copies: 0 };

    let status_1 = attempt_to_forward(&mut table, object);
    let status_2 = attempt_to_forward(&mut table, object);
    let winners = [status_1, status_2]
        .iter()
        .filter(|s| !state_is_forwarded_or_being_forwarded(**s))
        .count();
    assert_eq!(winners, 1);
    assert!(!state_is_forwarded_or_being_forwarded(status_1));
    assert!(state_is_being_forwarded(status_2));

    let new_object = forward_object(&mut table, object, Allocator::Default, &mut copier);
    assert_eq!(copier.copies, 1);
    let seen_by_loser = spin_and_get_forwarded_object(&table, object, status_2);
    assert_eq!(seen_by_loser, new_object);
    assert_eq!(new_object.value(), 0x8000);
}

#[test]
fn forwarded_word_decodes_to_new_address() {
    let mut table = WordTable::new();
    let object = ObjectReference::from_u64(0x2000);
    let mut copier = FixedCopier { to: 0x9000, copies: 0 };
    let _ = attempt_to_forward(&mut table, object);
    let new_object = forward_object(&mut table, object, Allocator::Default, &mut copier);
    let word = table.read(object.value());
    assert_eq!(word & 3, FORWARDED);
    assert_eq!(extract_forwarding_pointer(word), new_object);
    assert!(is_forwarded(&table, object));
    assert_ne!(new_object, object);
}

#[test]
fn hole_search_in_ten_line_block() {
    let state_a: u8 = 5;
    let unavailable: u8 = 4;
    let mut marks = vec![0u8; 10];
    for line in 2..=4 {
        marks[line] = state_a;
    }
    assert_eq!(find_hole(&marks, 10, 0, unavailable, state_a), Some((0, 2)));
    assert_eq!(find_hole(&marks, 10, 5, unavailable, state_a), Some((5, 10)));
    assert_eq!(find_hole(&marks, 10, 10, unavailable, state_a), None);
    marks[7] = unavailable;
    assert_eq!(find_hole(&marks, 10, 5, unavailable, state_a), Some((5, 7)));
    assert_eq!(find_hole(&marks, 10, 7, unavailable, state_a), Some((8, 10)));
}

fn run_cycle(c: &mut ControllerCollectorContext, user: &mut bool) -> usize {
    let mut steps = 0;
    loop {
        let a = c.step(user);
        steps += 1;
        if let ControllerAction::CycleComplete { .. } = a {
            return steps;
        }
        if a == ControllerAction::WaitForRequest {
            return 0;
        }
    }
}

#[test]
fn simultaneous_requests_give_one_more_cycle() {
    let mut c = ControllerCollectorContext::new();
    let mut user = false;
    assert_eq!(c.step(&mut user), ControllerAction::WaitForRequest);
    c.request();
    assert_eq!(c.step(&mut user), ControllerAction::StopMutators);
    assert_eq!(c.step(&mut user), ControllerAction::RunWorkers);
    // eight mutators ask while the workers run
    for _ in 0..8 {
        c.request();
    }
    assert_eq!(c.request_count, 2);
    assert_eq!(c.step(&mut user), ControllerAction::ResumeMutators);
    assert_eq!(c.step(&mut user), ControllerAction::CycleComplete { trigger_concurrent: false });
    assert_eq!(c.cycles_completed, 1);
    assert!(run_cycle(&mut c, &mut user) > 0);
    assert_eq!(c.cycles_completed, 2);
    assert_eq!(c.step(&mut user), ControllerAction::WaitForRequest);
    assert_eq!(c.state, ControllerState::Idle);
    assert_eq!(c.cycles_completed, 2);
}

#[test]
fn requests_before_the_flag_is_cleared_are_absorbed() {
    let mut c = ControllerCollectorContext::new();
    let mut user = true;
    c.request();
    for _ in 0..8 {
        c.request();
    }
    assert_eq!(c.request_count, 1);
    assert!(run_cycle(&mut c, &mut user) > 0);
    assert!(!user);
    assert_eq!(c.step(&mut user), ControllerAction::WaitForRequest);
}

#[test]
fn concurrent_cycle_is_aborted_before_stopping_the_world() {
    let mut c = ControllerCollectorContext::new();
    let mut user = false;
    c.request_concurrent_collection();
    c.request();
    assert_eq!(c.step(&mut user), ControllerAction::AbortConcurrentCycle);
    assert_eq!(c.step(&mut user), ControllerAction::StopMutators);
    assert!(!c.concurrent_collection);
    c.clear_request();
    assert!(!c.request_flag);
}

#[test]
fn heap_full_requests_collection_through_poll() {
    let mut ctx = GcContext::new(100, u64::MAX);
    assert!(!ctx.poll(false, 100));
    assert!(ctx.poll(false, 101));
    assert!(ctx.controller.request_flag);
    let mut ctx = GcContext::new(100, u64::MAX);
    assert!(ctx.poll(true, 0));
}

#[test]
fn address_helpers() {
    let a = Address::from_u64(0x1000);
    assert_eq!(a.add(0x10).as_u64(), 0x1010);
    assert!(Address::zero().is_zero());
    assert_eq!(a.to_object_reference().value(), 0x1000);
}
