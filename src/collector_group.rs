use vstd::prelude::*;

verus! {

/// A barrier over a fixed set of worker threads that run collection cycles.
/// Each worker is known by its ordinal, `0..contexts`.
pub struct ParallelCollectorGroup {
    pub contexts: usize,
    pub concurrent: bool,
    pub trigger_count: u64,
    pub contexts_parked: usize,
    pub aborted: bool,
    /// The trigger count that each worker has seen last.
    pub last_trigger_count: Vec<u64>,
    pub rendezvous_counter: [usize; 2],
    pub current_rendezvous_counter: usize,
}

impl ParallelCollectorGroup {
    pub open spec fn wf(&self) -> bool {
        &&& self.last_trigger_count@.len() == self.contexts
        &&& self.contexts_parked <= self.contexts
        &&& self.current_rendezvous_counter < 2
        &&& self.rendezvous_counter[0] <= self.contexts
        &&& self.rendezvous_counter[1] <= self.contexts
        &&& forall|i: int|
            0 <= i < self.contexts ==> #[trigger] self.last_trigger_count@[i] <= self.trigger_count
    }

    /// A group of `contexts` workers, all parked.
    pub fn new(contexts: usize, concurrent: bool) -> (r: ParallelCollectorGroup)
        ensures
            r.wf(),
            r.contexts == contexts,
            r.concurrent == concurrent,
            r.trigger_count == 0,
            r.contexts_parked == contexts,
            !r.aborted,
    {
        let mut last: Vec<u64> = Vec::new();
        let mut i: usize = 0;
        while i < contexts
            invariant
                i <= contexts,
                last@ =~= Seq::new(i as nat, |k: int| 0u64),
            decreases contexts - i,
        {
            last.push(0);
            i = i + 1;
        }
        ParallelCollectorGroup {
            contexts,
            concurrent,
            trigger_count: 0,
            contexts_parked: contexts,
            aborted: false,
            last_trigger_count: last,
            rendezvous_counter: [0, 0],
            current_rendezvous_counter: 0,
        }
    }

    pub fn active_worker_count(&self) -> (r: usize)
        ensures
            r == self.contexts,
    {
        self.contexts
    }

    /// Release every parked worker into a new cycle.
    pub fn trigger_cycle(&mut self)
        requires
            old(self).wf(),
            old(self).trigger_count < u64::MAX,
        ensures
            final(self).wf(),
            final(self).trigger_count == old(self).trigger_count + 1,
            final(self).contexts_parked == 0,
            final(self).contexts == old(self).contexts,
            final(self).last_trigger_count == old(self).last_trigger_count,
            final(self).aborted == old(self).aborted,
    {
        self.trigger_count = self.trigger_count + 1;
        self.contexts_parked = 0;
    }

    /// Whether every worker is parked again, so `wait_for_cycle` returns.
    pub fn is_cycle_complete(&self) -> (r: bool)
        ensures
            r == (self.contexts_parked == self.contexts),
    {
        self.contexts_parked == self.contexts
    }

    /// Ask the workers of the running cycle to stop early.
    pub fn abort_cycle(&mut self)
        requires
            old(self).wf(),
        ensures
            final(self).wf(),
            final(self).aborted,
            final(self).trigger_count == old(self).trigger_count,
            final(self).contexts_parked == old(self).contexts_parked,
            final(self).contexts == old(self).contexts,
    {
        self.aborted = true;
    }

    pub fn is_aborted(&self) -> (r: bool)
        ensures
            r == self.aborted,
    {
        self.aborted
    }

    /// Worker `ordinal` parks after its cycle. It stays parked while
    /// `is_released` says no.
    pub fn park(&mut self, ordinal: usize)
        requires
            old(self).wf(),
            ordinal < old(self).contexts,
        ensures
            final(self).wf(),
            final(self).trigger_count == old(self).trigger_count,
            final(self).contexts == old(self).contexts,
            old(self).last_trigger_count@[ordinal as int] < old(self).trigger_count ==> {
                &&& final(self).last_trigger_count@ == old(self).last_trigger_count@.update(
                    ordinal as int,
                    (old(self).last_trigger_count@[ordinal as int] + 1) as u64,
                )
                &&& final(self).contexts_parked == if old(self).last_trigger_count@[ordinal as int]
                    + 1 == old(self).trigger_count && old(self).contexts_parked < old(self).contexts {
                    old(self).contexts_parked + 1
                } else {
                    old(self).contexts_parked as int
                }
                &&& final(self).aborted == (old(self).aborted && final(self).contexts_parked
                    != final(self).contexts)
            },
            old(self).last_trigger_count@[ordinal as int] == old(self).trigger_count
                ==> *final(self) == *old(self),
    {
        let seen = self.last_trigger_count[ordinal];
        if seen == self.trigger_count {
            return;
        }
        let next = seen + 1;
        self.last_trigger_count.set(ordinal, next);
        if next == self.trigger_count && self.contexts_parked < self.contexts {
            self.contexts_parked = self.contexts_parked + 1;
        }
        if self.contexts_parked == self.contexts {
            self.aborted = false;
        }
    }

    /// Whether parked worker `ordinal` may start the next cycle.
    pub fn is_released(&self, ordinal: usize) -> (r: bool)
        requires
            self.wf(),
            ordinal < self.contexts,
        ensures
            r == (self.last_trigger_count@[ordinal as int] != self.trigger_count),
    {
        self.last_trigger_count[ordinal] != self.trigger_count
    }

    /// A worker arrives at a phase boundary. Returns its arrival order and
    /// the generation to wait on with `rendezvous_open`.
    pub fn rendezvous(&mut self) -> (r: (usize, usize))
        requires
            old(self).wf(),
            old(self).rendezvous_counter[old(self).current_rendezvous_counter as int] < old(
                self,
            ).contexts,
        ensures
            final(self).wf(),
            r.0 == old(self).rendezvous_counter[old(self).current_rendezvous_counter as int],
            r.1 == old(self).current_rendezvous_counter,
            final(self).rendezvous_counter[r.1 as int] == r.0 + 1,
            r.0 + 1 == old(self).contexts ==> {
                &&& final(self).current_rendezvous_counter == 1 - r.1
                &&& final(self).rendezvous_counter[1 - r.1] == 0
            },
            r.0 + 1 < old(self).contexts ==> {
                &&& final(self).current_rendezvous_counter == r.1
                &&& final(self).rendezvous_counter[1 - r.1] == old(self).rendezvous_counter[1
                    - r.1]
            },
            final(self).trigger_count == old(self).trigger_count,
            final(self).contexts == old(self).contexts,
            final(self).contexts_parked == old(self).contexts_parked,
    {
        let i = self.current_rendezvous_counter;
        let me = self.rendezvous_counter[i];
        self.rendezvous_counter[i] = me + 1;
        if me + 1 == self.contexts {
            let other = 1 - i;
            self.current_rendezvous_counter = other;
            self.rendezvous_counter[other] = 0;
        }
        (me, i)
    }

    /// Whether every worker has arrived at the rendezvous of `generation`.
    pub fn rendezvous_open(&self, generation: usize) -> (r: bool)
        requires
            generation < 2,
        ensures
            r == (self.rendezvous_counter[generation as int] >= self.contexts),
    {
        self.rendezvous_counter[generation] >= self.contexts
    }
}

} // verus!
