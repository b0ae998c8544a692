use vstd::prelude::*;

verus! {

/// Where the coordinator stands in a collection cycle.
#[derive(Clone, Copy, Debug, PartialEq, Eq, Structural)]
pub enum ControllerState {
    Idle,
    AbortingConcurrent,
    StoppingMutators,
    RunningWorkers,
    ResumingMutators,
}

/// What the coordinator thread must do next.
#[derive(Clone, Copy, Debug, PartialEq, Eq, Structural)]
pub enum ControllerAction {
    /// Wait until a collection is requested.
    WaitForRequest,
    /// Abort the concurrent worker group and wait for its workers to park.
    AbortConcurrentCycle,
    /// Stop every mutator at a safe point.
    StopMutators,
    /// Trigger the stop-the-world worker group and wait for its cycle.
    RunWorkers,
    /// Resume every mutator.
    ResumeMutators,
    /// The cycle is over; trigger the concurrent worker group if asked.
    CycleComplete { trigger_concurrent: bool },
}

/// The coordinator of stop-the-world collections: it serialises requests
/// and walks each cycle through its steps.
#[derive(Clone, Copy, Debug, PartialEq, Eq, Structural)]
pub struct ControllerCollectorContext {
    pub request_count: u64,
    pub last_request_count: u64,
    pub request_flag: bool,
    pub concurrent_collection: bool,
    pub state: ControllerState,
    pub cycles_completed: u64,
}

/// The coordinator after `request()`.
pub open spec fn requested(c: ControllerCollectorContext) -> ControllerCollectorContext {
    if c.request_flag {
        c
    } else {
        ControllerCollectorContext {
            request_flag: true,
            request_count: if c.request_count < u64::MAX {
                (c.request_count + 1) as u64
            } else {
                c.request_count
            },
            ..c
        }
    }
}

/// Asking again while a request is pending changes nothing: many mutators
/// that fail to allocate at once lead to a single collection.
pub proof fn lemma_request_coalesces(c: ControllerCollectorContext)
    ensures
        requested(requested(c)) == requested(c),
{
}

impl ControllerCollectorContext {
    pub open spec fn new_spec() -> ControllerCollectorContext {
        ControllerCollectorContext {
            request_count: 0,
            last_request_count: 0,
            request_flag: false,
            concurrent_collection: false,
            state: ControllerState::Idle,
            cycles_completed: 0,
        }
    }

    pub open spec fn has_pending(&self) -> bool {
        self.request_count > self.last_request_count
    }

    pub fn new() -> (r: ControllerCollectorContext)
        ensures
            r == ControllerCollectorContext::new_spec(),
    {
        ControllerCollectorContext {
            request_count: 0,
            last_request_count: 0,
            request_flag: false,
            concurrent_collection: false,
            state: ControllerState::Idle,
            cycles_completed: 0,
        }
    }

    /// Ask for a concurrent collection; it never blocks.
    pub fn request_concurrent_collection(&mut self)
        ensures
            *final(self) == (ControllerCollectorContext { concurrent_collection: true, ..*old(self) }),
    {
        self.concurrent_collection = true;
    }

    /// Ask for a collection. Cheap and without effect while one is pending.
    pub fn request(&mut self)
        ensures
            *final(self) == requested(*old(self)),
    {
        if self.request_flag {
            return;
        }
        self.request_flag = true;
        if self.request_count < u64::MAX {
            self.request_count = self.request_count + 1;
        }
    }

    /// Mark the pending request as taken, so a later request is seen anew.
    pub fn clear_request(&mut self)
        ensures
            *final(self) == (ControllerCollectorContext { request_flag: false, ..*old(self) }),
    {
        self.request_flag = false;
    }

    /// Whether a request arrived that no cycle has serviced yet.
    pub fn has_pending_request(&self) -> (r: bool)
        ensures
            r == self.has_pending(),
    {
        self.request_count > self.last_request_count
    }

    /// Advance the coordinator by one step and say what the coordinator
    /// thread must do. `user_triggered` is the plan's flag that a user asked
    /// for the collection; it is reset once the workers are done.
    pub fn step(&mut self, user_triggered: &mut bool) -> (r: ControllerAction)
        ensures
            final(self).request_count == old(self).request_count,
            final(self).concurrent_collection == (old(self).concurrent_collection
                && old(self).state != ControllerState::AbortingConcurrent),
            *final(user_triggered) == (*old(user_triggered) && old(self).state
                != ControllerState::RunningWorkers),
            final(self).request_flag == (old(self).request_flag && old(self).state
                != ControllerState::StoppingMutators),
            final(self).last_request_count == if old(self).state == ControllerState::Idle
                && old(self).has_pending() {
                old(self).last_request_count + 1
            } else {
                old(self).last_request_count as int
            },
            final(self).cycles_completed == if old(self).state == ControllerState::ResumingMutators
                && old(self).cycles_completed < u64::MAX {
                old(self).cycles_completed + 1
            } else {
                old(self).cycles_completed as int
            },
            match old(self).state {
                ControllerState::Idle => if !old(self).has_pending() {
                    r == ControllerAction::WaitForRequest && final(self).state
                        == ControllerState::Idle
                } else if old(self).concurrent_collection {
                    r == ControllerAction::AbortConcurrentCycle && final(self).state
                        == ControllerState::AbortingConcurrent
                } else {
                    r == ControllerAction::StopMutators && final(self).state
                        == ControllerState::StoppingMutators
                },
                ControllerState::AbortingConcurrent => r == ControllerAction::StopMutators
                    && final(self).state == ControllerState::StoppingMutators,
                ControllerState::StoppingMutators => r == ControllerAction::RunWorkers
                    && final(self).state == ControllerState::RunningWorkers,
                ControllerState::RunningWorkers => r == ControllerAction::ResumeMutators
                    && final(self).state == ControllerState::ResumingMutators,
                ControllerState::ResumingMutators => r == (ControllerAction::CycleComplete {
                    trigger_concurrent: old(self).concurrent_collection,
                }) && final(self).state == ControllerState::Idle,
            },
    {
        match self.state {
            ControllerState::Idle => {
                if !self.has_pending_request() {
                    return ControllerAction::WaitForRequest;
                }
                self.last_request_count = self.last_request_count + 1;
                if self.concurrent_collection {
                    self.state = ControllerState::AbortingConcurrent;
                    ControllerAction::AbortConcurrentCycle
                } else {
                    self.state = ControllerState::StoppingMutators;
                    ControllerAction::StopMutators
                }
            },
            ControllerState::AbortingConcurrent => {
                self.concurrent_collection = false;
                self.state = ControllerState::StoppingMutators;
                ControllerAction::StopMutators
            },
            ControllerState::StoppingMutators => {
                self.clear_request();
                self.state = ControllerState::RunningWorkers;
                ControllerAction::RunWorkers
            },
            ControllerState::RunningWorkers => {
                *user_triggered = false;
                self.state = ControllerState::ResumingMutators;
                ControllerAction::ResumeMutators
            },
            ControllerState::ResumingMutators => {
                if self.cycles_completed < u64::MAX {
                    self.cycles_completed = self.cycles_completed + 1;
                }
                self.state = ControllerState::Idle;
                ControllerAction::CycleComplete { trigger_concurrent: self.concurrent_collection }
            },
        }
    }
}

} // verus!
