use vstd::prelude::*;

use crate::plan::{Allocator, GcError};

verus! {

/// Who runs a phase.
#[derive(Clone, Copy, Debug, PartialEq, Eq, Structural)]
pub enum Schedule {
    Global,
    Collector,
    Mutator,
    Concurrent,
    Placeholder,
}

/// A step of a collection cycle.
#[derive(Clone, Copy, Debug, PartialEq, Eq, Structural)]
pub enum Phase {
    StopMutators,
    SetCollectionKind,
    Initiate,
    PreSanityPlaceholder,
    Prepare,
    PrepareStacks,
    StackRoots,
    Roots,
    Closure,
    SoftRefs,
    WeakRefs,
    Finalizable,
    WeakTrackRefs,
    PhantomRefs,
    Forward,
    ForwardRefs,
    ForwardFinalizable,
    Release,
    PostSanityPlaceholder,
    Complete,
    ResumeMutators,
}

/// A phase and who runs it.
#[derive(Clone, Copy, Debug, PartialEq, Eq, Structural)]
pub struct ScheduledPhase {
    pub schedule: Schedule,
    pub phase: Phase,
}

/// Preparation comes first, then the closure, then the release.
pub open spec fn rank(p: Phase) -> int {
    match p {
        Phase::Prepare => 0,
        Phase::Closure => 1,
        Phase::Release => 2,
        _ => -1,
    }
}

pub open spec fn ranks_ordered(s: Seq<ScheduledPhase>) -> bool {
    forall|i: int, j: int|
        0 <= i < j < s.len() && rank(s[i].phase) >= 0 && rank(s[j].phase) >= 0 ==> rank(
            s[i].phase,
        ) <= rank(s[j].phase)
}

/// Every Prepare precedes every Closure, and every Closure every Release.
pub open spec fn phases_ordered(s: Seq<ScheduledPhase>) -> bool {
    &&& forall|i: int, j: int|
        0 <= i < s.len() && 0 <= j < s.len() && s[i].phase == Phase::Prepare && s[j].phase
            == Phase::Closure ==> i < j
    &&& forall|i: int, j: int|
        0 <= i < s.len() && 0 <= j < s.len() && s[i].phase == Phase::Closure && s[j].phase
            == Phase::Release ==> i < j
    &&& forall|i: int, j: int|
        0 <= i < s.len() && 0 <= j < s.len() && s[i].phase == Phase::Prepare && s[j].phase
            == Phase::Release ==> i < j
}

/// In any schedule whose kinds of phases come in rank order, every
/// participant's preparation precedes every closure, and every closure
/// precedes every release.
pub proof fn lemma_ranked_schedule_is_ordered(s: Seq<ScheduledPhase>)
    requires
        ranks_ordered(s),
    ensures
        phases_ordered(s),
{
    assert forall|i: int, j: int|
        0 <= i < s.len() && 0 <= j < s.len() && s[i].phase == Phase::Prepare && s[j].phase
            == Phase::Closure implies i < j by {
        if j < i {
            assert(rank(s[j].phase) <= rank(s[i].phase));
        }
    }
    assert forall|i: int, j: int|
        0 <= i < s.len() && 0 <= j < s.len() && s[i].phase == Phase::Closure && s[j].phase
            == Phase::Release implies i < j by {
        if j < i {
            assert(rank(s[j].phase) <= rank(s[i].phase));
        }
    }
    assert forall|i: int, j: int|
        0 <= i < s.len() && 0 <= j < s.len() && s[i].phase == Phase::Prepare && s[j].phase
            == Phase::Release implies i < j by {
        if j < i {
            assert(rank(s[j].phase) <= rank(s[i].phase));
        }
    }
}

pub open spec fn sp(schedule: Schedule, phase: Phase) -> ScheduledPhase {
    ScheduledPhase { schedule, phase }
}

/// The phases of one stop-the-world collection, in order.
pub open spec fn collection_schedule() -> Seq<ScheduledPhase> {
    seq![
        sp(Schedule::Global, Phase::StopMutators),
        sp(Schedule::Global, Phase::SetCollectionKind),
        sp(Schedule::Global, Phase::Initiate),
        sp(Schedule::Placeholder, Phase::PreSanityPlaceholder),
        sp(Schedule::Mutator, Phase::Prepare),
        sp(Schedule::Global, Phase::Prepare),
        sp(Schedule::Collector, Phase::Prepare),
        sp(Schedule::Mutator, Phase::PrepareStacks),
        sp(Schedule::Global, Phase::PrepareStacks),
        sp(Schedule::Collector, Phase::StackRoots),
        sp(Schedule::Global, Phase::StackRoots),
        sp(Schedule::Collector, Phase::Roots),
        sp(Schedule::Global, Phase::Roots),
        sp(Schedule::Global, Phase::Closure),
        sp(Schedule::Collector, Phase::Closure),
        sp(Schedule::Collector, Phase::SoftRefs),
        sp(Schedule::Global, Phase::Closure),
        sp(Schedule::Collector, Phase::Closure),
        sp(Schedule::Collector, Phase::WeakRefs),
        sp(Schedule::Collector, Phase::Finalizable),
        sp(Schedule::Global, Phase::Closure),
        sp(Schedule::Collector, Phase::Closure),
        sp(Schedule::Placeholder, Phase::WeakTrackRefs),
        sp(Schedule::Collector, Phase::PhantomRefs),
        sp(Schedule::Placeholder, Phase::Forward),
        sp(Schedule::Collector, Phase::ForwardRefs),
        sp(Schedule::Collector, Phase::ForwardFinalizable),
        sp(Schedule::Mutator, Phase::Release),
        sp(Schedule::Collector, Phase::Release),
        sp(Schedule::Global, Phase::Release),
        sp(Schedule::Placeholder, Phase::PostSanityPlaceholder),
        sp(Schedule::Collector, Phase::Complete),
        sp(Schedule::Global, Phase::Complete),
        sp(Schedule::Global, Phase::ResumeMutators),
    ]
}

fn push_phase(v: &mut Vec<ScheduledPhase>, schedule: Schedule, phase: Phase, Ghost(level): Ghost<int>)
    requires
        ranks_ordered(old(v)@),
        forall|i: int| 0 <= i < old(v)@.len() ==> rank(#[trigger] old(v)@[i].phase) <= level,
        rank(phase) < 0 || level <= rank(phase),
    ensures
        final(v)@ == old(v)@.push(ScheduledPhase { schedule, phase }),
        ranks_ordered(final(v)@),
        forall|i: int|
            0 <= i < final(v)@.len() ==> rank(#[trigger] final(v)@[i].phase) <= if rank(phase)
                > level {
                rank(phase)
            } else {
                level
            },
{
    v.push(ScheduledPhase { schedule, phase });
}

/// The phases of one stop-the-world collection, in the order they run:
/// stop the mutators, prepare every participant, compute the closure,
/// release, and resume the mutators.
pub fn schedule_collection() -> (r: Vec<ScheduledPhase>)
    ensures
        r@ == collection_schedule(),
        phases_ordered(r@),
        r@.len() == 34,
        r@[0] == (ScheduledPhase { schedule: Schedule::Global, phase: Phase::StopMutators }),
        r@[4] == (ScheduledPhase { schedule: Schedule::Mutator, phase: Phase::Prepare }),
        r@[5] == (ScheduledPhase { schedule: Schedule::Global, phase: Phase::Prepare }),
        r@[6] == (ScheduledPhase { schedule: Schedule::Collector, phase: Phase::Prepare }),
        r@[13] == (ScheduledPhase { schedule: Schedule::Global, phase: Phase::Closure }),
        r@[27] == (ScheduledPhase { schedule: Schedule::Mutator, phase: Phase::Release }),
        r@[28] == (ScheduledPhase { schedule: Schedule::Collector, phase: Phase::Release }),
        r@[29] == (ScheduledPhase { schedule: Schedule::Global, phase: Phase::Release }),
        r@[33] == (ScheduledPhase { schedule: Schedule::Global, phase: Phase::ResumeMutators }),
{
    let mut v: Vec<ScheduledPhase> = Vec::new();
    let g = Schedule::Global;
    let c = Schedule::Collector;
    let m = Schedule::Mutator;
    let p = Schedule::Placeholder;
    push_phase(&mut v, g, Phase::StopMutators, Ghost(-1));
    // initiation
    push_phase(&mut v, g, Phase::SetCollectionKind, Ghost(-1));
    push_phase(&mut v, g, Phase::Initiate, Ghost(-1));
    push_phase(&mut v, p, Phase::PreSanityPlaceholder, Ghost(-1));
    // roots and closure
    push_phase(&mut v, m, Phase::Prepare, Ghost(-1));
    push_phase(&mut v, g, Phase::Prepare, Ghost(0));
    push_phase(&mut v, c, Phase::Prepare, Ghost(0));
    push_phase(&mut v, m, Phase::PrepareStacks, Ghost(0));
    push_phase(&mut v, g, Phase::PrepareStacks, Ghost(0));
    push_phase(&mut v, c, Phase::StackRoots, Ghost(0));
    push_phase(&mut v, g, Phase::StackRoots, Ghost(0));
    push_phase(&mut v, c, Phase::Roots, Ghost(0));
    push_phase(&mut v, g, Phase::Roots, Ghost(0));
    push_phase(&mut v, g, Phase::Closure, Ghost(0));
    push_phase(&mut v, c, Phase::Closure, Ghost(1));
    // reference types
    push_phase(&mut v, c, Phase::SoftRefs, Ghost(1));
    push_phase(&mut v, g, Phase::Closure, Ghost(1));
    push_phase(&mut v, c, Phase::Closure, Ghost(1));
    push_phase(&mut v, c, Phase::WeakRefs, Ghost(1));
    push_phase(&mut v, c, Phase::Finalizable, Ghost(1));
    push_phase(&mut v, g, Phase::Closure, Ghost(1));
    push_phase(&mut v, c, Phase::Closure, Ghost(1));
    push_phase(&mut v, p, Phase::WeakTrackRefs, Ghost(1));
    push_phase(&mut v, c, Phase::PhantomRefs, Ghost(1));
    // forwarding
    push_phase(&mut v, p, Phase::Forward, Ghost(1));
    push_phase(&mut v, c, Phase::ForwardRefs, Ghost(1));
    push_phase(&mut v, c, Phase::ForwardFinalizable, Ghost(1));
    // release
    push_phase(&mut v, m, Phase::Release, Ghost(1));
    push_phase(&mut v, c, Phase::Release, Ghost(2));
    push_phase(&mut v, g, Phase::Release, Ghost(2));
    // finish
    push_phase(&mut v, p, Phase::PostSanityPlaceholder, Ghost(2));
    push_phase(&mut v, c, Phase::Complete, Ghost(2));
    push_phase(&mut v, g, Phase::Complete, Ghost(2));
    push_phase(&mut v, g, Phase::ResumeMutators, Ghost(2));
    proof {
        assert(v@ =~= collection_schedule());
        lemma_ranked_schedule_is_ordered(v@);
    }
    v
}

/// Whether the collector scans the boot image for roots.
pub const SCAN_BOOT_IMAGE: bool = true;

/// What a semispace collector thread does in a phase.
#[derive(Clone, Copy, Debug, PartialEq, Eq, Structural)]
pub enum CollectorAction {
    /// Point the copy allocator at the to-space.
    RebindCopyAllocator,
    ComputeThreadRoots,
    /// Compute global and static roots, and boot image roots when asked.
    ComputeGlobalRoots { boot_image: bool },
    CompleteTrace,
    ReleaseTrace,
    Nothing,
}

/// What a semispace mutator does in a phase.
#[derive(Clone, Copy, Debug, PartialEq, Eq, Structural)]
pub enum MutatorAction {
    /// Let the host prepare the mutator's stack, then flush remembered sets.
    PrepareAndFlush,
    FlushRememberedSets,
    /// Point the bump allocator at the to-space.
    RebindAllocator,
    Nothing,
}

/// The allocator of a semispace mutator that serves a request.
#[derive(Clone, Copy, Debug, PartialEq, Eq, Structural)]
pub enum MutatorSpace {
    CopySpace,
    VersatileSpace,
}

/// Per-collector-thread state of the semispace plan.
#[derive(Clone, Copy, Debug, PartialEq, Eq, Structural)]
pub struct SSCollector {
    pub id: usize,
    pub last_trigger_count: u64,
    pub worker_ordinal: usize,
}

impl SSCollector {
    pub fn new() -> (r: SSCollector)
        ensures
            r == (SSCollector { id: 0, last_trigger_count: 0, worker_ordinal: 0 }),
    {
        SSCollector { id: 0, last_trigger_count: 0, worker_ordinal: 0 }
    }

    pub fn init(&mut self, id: usize)
        ensures
            *final(self) == (SSCollector { id, ..*old(self) }),
    {
        self.id = id;
    }

    pub fn get_id(&self) -> (r: usize)
        ensures
            r == self.id,
    {
        self.id
    }

    pub fn parallel_worker_ordinal(&self) -> (r: usize)
        ensures
            r == self.worker_ordinal,
    {
        self.worker_ordinal
    }

    pub fn set_worker_ordinal(&mut self, ordinal: usize)
        ensures
            *final(self) == (SSCollector { worker_ordinal: ordinal, ..*old(self) }),
    {
        self.worker_ordinal = ordinal;
    }

    pub fn get_last_trigger_count(&self) -> (r: u64)
        ensures
            r == self.last_trigger_count,
    {
        self.last_trigger_count
    }

    pub fn set_last_trigger_count(&mut self, val: u64)
        ensures
            *final(self) == (SSCollector { last_trigger_count: val, ..*old(self) }),
    {
        self.last_trigger_count = val;
    }

    pub fn increment_last_trigger_count(&mut self)
        requires
            old(self).last_trigger_count < u64::MAX,
        ensures
            *final(self) == (SSCollector {
                last_trigger_count: (old(self).last_trigger_count + 1) as u64,
                ..*old(self)
            }),
    {
        self.last_trigger_count = self.last_trigger_count + 1;
    }

    /// What this collector does in `phase`; an error for a phase that
    /// collectors take no part in.
    pub fn collection_phase(&self, phase: Phase) -> (r: Result<CollectorAction, GcError>)
        ensures
            r == match phase {
                Phase::Prepare => Ok(CollectorAction::RebindCopyAllocator),
                Phase::StackRoots => Ok(CollectorAction::ComputeThreadRoots),
                Phase::Roots => Ok(CollectorAction::ComputeGlobalRoots { boot_image: SCAN_BOOT_IMAGE }),
                Phase::SoftRefs | Phase::WeakRefs | Phase::Finalizable | Phase::PhantomRefs
                | Phase::ForwardRefs | Phase::ForwardFinalizable | Phase::Complete => Ok(
                    CollectorAction::Nothing,
                ),
                Phase::Closure => Ok(CollectorAction::CompleteTrace),
                Phase::Release => Ok(CollectorAction::ReleaseTrace),
                _ => Err(GcError::PhaseNotHandled),
            },
    {
        match phase {
            Phase::Prepare => Ok(CollectorAction::RebindCopyAllocator),
            Phase::StackRoots => Ok(CollectorAction::ComputeThreadRoots),
            Phase::Roots => Ok(CollectorAction::ComputeGlobalRoots { boot_image: SCAN_BOOT_IMAGE }),
            Phase::SoftRefs | Phase::WeakRefs | Phase::Finalizable | Phase::PhantomRefs
            | Phase::ForwardRefs | Phase::ForwardFinalizable | Phase::Complete => Ok(
                CollectorAction::Nothing,
            ),
            Phase::Closure => Ok(CollectorAction::CompleteTrace),
            Phase::Release => Ok(CollectorAction::ReleaseTrace),
            _ => Err(GcError::PhaseNotHandled),
        }
    }
}

/// Per-mutator-thread state of the semispace plan.
#[derive(Clone, Copy, Debug, PartialEq, Eq, Structural)]
pub struct SSMutator {
    pub thread_id: usize,
}

impl SSMutator {
    pub fn new(thread_id: usize) -> (r: SSMutator)
        ensures
            r.thread_id == thread_id,
    {
        SSMutator { thread_id }
    }

    pub fn get_thread_id(&self) -> (r: usize)
        ensures
            r == self.thread_id,
    {
        self.thread_id
    }

    /// What this mutator does in `phase`, given whether the stacks were
    /// already prepared; an error for a phase that mutators take no part in.
    pub fn collection_phase(&self, phase: Phase, stacks_prepared: bool) -> (r: Result<
        MutatorAction,
        GcError,
    >)
        ensures
            r == match phase {
                Phase::PrepareStacks => Ok(
                    if stacks_prepared {
                        MutatorAction::FlushRememberedSets
                    } else {
                        MutatorAction::PrepareAndFlush
                    },
                ),
                Phase::Prepare => Ok(MutatorAction::Nothing),
                Phase::Release => Ok(MutatorAction::RebindAllocator),
                _ => Err(GcError::PhaseNotHandled),
            },
    {
        match phase {
            Phase::PrepareStacks => {
                if !stacks_prepared {
                    Ok(MutatorAction::PrepareAndFlush)
                } else {
                    Ok(MutatorAction::FlushRememberedSets)
                }
            },
            Phase::Prepare => Ok(MutatorAction::Nothing),
            Phase::Release => Ok(MutatorAction::RebindAllocator),
            _ => Err(GcError::PhaseNotHandled),
        }
    }

    /// The allocator that serves an allocation of the given kind: the copy
    /// space for ordinary objects, the versatile space for the rest.
    pub fn space_for(&self, allocator: Allocator) -> (r: MutatorSpace)
        ensures
            r == if allocator == Allocator::Default {
                MutatorSpace::CopySpace
            } else {
                MutatorSpace::VersatileSpace
            },
    {
        match allocator {
            Allocator::Default => MutatorSpace::CopySpace,
            _ => MutatorSpace::VersatileSpace,
        }
    }
}

} // verus!
