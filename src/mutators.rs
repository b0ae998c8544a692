use vstd::prelude::*;

use crate::address::{Address, ObjectReference};
use crate::layout::BYTES_IN_CHUNK;
use crate::word_table::WordTable;

verus! {

/// The kinds of allocation that a mutator serves.
#[derive(Clone, Copy, Debug, PartialEq, Eq, Structural)]
pub enum AllocationSemantics {
    Default,
    Immortal,
    Los,
    Code,
    ReadOnly,
    LargeCode,
}

/// One of a mutator's allocators.
#[derive(Clone, Copy, Debug, PartialEq, Eq, Structural)]
pub enum AllocatorSelector {
    BumpPointer(u8),
    LargeObject(u8),
}

/// How a mutator of a plan allocates: which allocator serves each kind of
/// allocation, and which space (by index) each allocator takes pages from.
pub struct MutatorConfig {
    pub allocator_mapping: Vec<(AllocationSemantics, AllocatorSelector)>,
    pub space_mapping: Vec<(AllocatorSelector, usize)>,
}

/// A thread-local allocation context.
pub struct Mutator {
    pub mutator_tls: u64,
    pub config: MutatorConfig,
}

/// The allocator of a generational copying mutator for each kind of allocation.
pub open spec fn gencopy_selector(sem: AllocationSemantics) -> AllocatorSelector {
    match sem {
        AllocationSemantics::Default => AllocatorSelector::BumpPointer(0),
        AllocationSemantics::Los => AllocatorSelector::LargeObject(0),
        _ => AllocatorSelector::BumpPointer(1),
    }
}

pub fn gencopy_allocator_mapping(sem: AllocationSemantics) -> (r: AllocatorSelector)
    ensures
        r == gencopy_selector(sem),
{
    match sem {
        AllocationSemantics::Default => AllocatorSelector::BumpPointer(0),
        AllocationSemantics::Los => AllocatorSelector::LargeObject(0),
        _ => AllocatorSelector::BumpPointer(1),
    }
}

/// A mutator of the generational copying plan: ordinary objects go to the
/// nursery, large ones to the large object space, the rest to the immortal space.
pub fn create_gencopy_mutator(mutator_tls: u64, nursery: usize, immortal: usize, los: usize) -> (r:
    Mutator)
    ensures
        r.mutator_tls == mutator_tls,
        r.config.allocator_mapping@ == seq![
            (AllocationSemantics::Default, gencopy_selector(AllocationSemantics::Default)),
            (AllocationSemantics::Immortal, gencopy_selector(AllocationSemantics::Immortal)),
            (AllocationSemantics::Code, gencopy_selector(AllocationSemantics::Code)),
            (AllocationSemantics::LargeCode, gencopy_selector(AllocationSemantics::LargeCode)),
            (AllocationSemantics::ReadOnly, gencopy_selector(AllocationSemantics::ReadOnly)),
            (AllocationSemantics::Los, gencopy_selector(AllocationSemantics::Los)),
        ],
        r.config.space_mapping@ == seq![
            (AllocatorSelector::BumpPointer(0), nursery),
            (AllocatorSelector::BumpPointer(1), immortal),
            (AllocatorSelector::LargeObject(0), los),
        ],
{
    let mut allocator_mapping: Vec<(AllocationSemantics, AllocatorSelector)> = Vec::new();
    allocator_mapping.push(
        (AllocationSemantics::Default, gencopy_allocator_mapping(AllocationSemantics::Default)),
    );
    allocator_mapping.push(
        (AllocationSemantics::Immortal, gencopy_allocator_mapping(AllocationSemantics::Immortal)),
    );
    allocator_mapping.push(
        (AllocationSemantics::Code, gencopy_allocator_mapping(AllocationSemantics::Code)),
    );
    allocator_mapping.push(
        (AllocationSemantics::LargeCode, gencopy_allocator_mapping(AllocationSemantics::LargeCode)),
    );
    allocator_mapping.push(
        (AllocationSemantics::ReadOnly, gencopy_allocator_mapping(AllocationSemantics::ReadOnly)),
    );
    allocator_mapping.push(
        (AllocationSemantics::Los, gencopy_allocator_mapping(AllocationSemantics::Los)),
    );
    let mut space_mapping: Vec<(AllocatorSelector, usize)> = Vec::new();
    space_mapping.push((AllocatorSelector::BumpPointer(0), nursery));
    space_mapping.push((AllocatorSelector::BumpPointer(1), immortal));
    space_mapping.push((AllocatorSelector::LargeObject(0), los));
    Mutator { mutator_tls, config: MutatorConfig { allocator_mapping, space_mapping } }
}

/// Nothing to do for a generational mutator before a collection.
pub fn gencopy_mutator_prepare(mutator: &mut Mutator, tls: u64)
    ensures
        final(mutator).mutator_tls == old(mutator).mutator_tls,
        final(mutator).config.allocator_mapping@ == old(mutator).config.allocator_mapping@,
        final(mutator).config.space_mapping@ == old(mutator).config.space_mapping@,
{
}

/// After a collection a generational mutator resets the allocator that
/// serves ordinary objects: the one returned.
pub fn gencopy_mutator_release(mutator: &Mutator, tls: u64) -> (r: AllocatorSelector)
    ensures
        r == gencopy_selector(AllocationSemantics::Default),
{
    gencopy_allocator_mapping(AllocationSemantics::Default)
}

/// The trace of a plan that never collects: nothing moves and all is live.
pub struct NoGCTraceLocal {
    pub traced: u64,
}

impl NoGCTraceLocal {
    pub fn new() -> (r: NoGCTraceLocal)
        ensures
            r.traced == 0,
    {
        NoGCTraceLocal { traced: 0 }
    }

    pub fn will_not_move_in_current_collection(&self, object: ObjectReference) -> (r: bool)
        ensures
            r,
    {
        true
    }

    pub fn is_live(&self, object: ObjectReference) -> (r: bool)
        ensures
            r,
    {
        true
    }
}

/// Granularity of malloc'd objects.
pub const MALLOC_ALIGN: u64 = 16;

/// A mark-sweep plan whose objects come from malloc. Each object has an
/// allocation bit and a mark bit, by address.
pub struct MallocMS {
    pub alloc_bits: WordTable,
    pub mark_bits: WordTable,
    /// Start of every chunk that holds malloc'd objects.
    pub chunks: Vec<u64>,
}

/// After a sweep: an allocated, unmarked object is freed; a marked one
/// loses its mark.
pub open spec fn swept_bits(alloc: u64, mark: u64) -> (u64, u64) {
    if alloc == 1 && mark == 0 {
        (0, mark)
    } else if alloc == 1 {
        (alloc, 0)
    } else {
        (alloc, mark)
    }
}

/// The address of the `k`-th object slot of the chunk at `chunk_start`.
pub open spec fn slot_address(chunk_start: u64, k: int) -> u64 {
    (chunk_start + k * MALLOC_ALIGN) as u64
}

/// The bits of the object at `a` went from `before` to `after` as a sweep sets them.
pub open spec fn swept_at(
    alloc_before: WordTable,
    mark_before: WordTable,
    alloc_after: WordTable,
    mark_after: WordTable,
    a: u64,
) -> bool {
    let s = swept_bits(alloc_before.at(a), mark_before.at(a));
    alloc_after.at(a) == s.0 && mark_after.at(a) == s.1
}

impl MallocMS {
    pub fn new() -> (r: MallocMS)
        ensures
            r.alloc_bits.view() == Map::<u64, u64>::empty(),
            r.mark_bits.view() == Map::<u64, u64>::empty(),
            r.chunks@.len() == 0,
    {
        MallocMS { alloc_bits: WordTable::new(), mark_bits: WordTable::new(), chunks: Vec::new() }
    }

    /// Sweep the chunk at `chunk_start`: returns the objects to free, in
    /// address order, and updates the bits as `swept_bits` says.
    pub fn sweep_chunk(&mut self, chunk_start: u64, freed: &mut Vec<Address>)
        requires
            chunk_start + BYTES_IN_CHUNK <= u64::MAX,
        ensures
            forall|k: int|
                0 <= k < BYTES_IN_CHUNK / MALLOC_ALIGN ==> swept_at(
                    old(self).alloc_bits,
                    old(self).mark_bits,
                    final(self).alloc_bits,
                    final(self).mark_bits,
                    #[trigger] slot_address(chunk_start, k),
                ),
            forall|i: int|
                old(freed)@.len() <= i < final(freed)@.len() ==> {
                    let a = (#[trigger] final(freed)@[i]).value;
                    &&& chunk_start <= a < chunk_start + BYTES_IN_CHUNK
                    &&& (a - chunk_start) % (MALLOC_ALIGN as int) == 0
                    &&& old(self).alloc_bits.at(a) == 1
                    &&& old(self).mark_bits.at(a) == 0
                },
            final(freed)@.subrange(0, old(freed)@.len() as int) == old(freed)@,
            final(freed)@.len() >= old(freed)@.len(),
            final(self).chunks == old(self).chunks,
            forall|a: u64|
                #![trigger final(self).alloc_bits.at(a)]
                !(chunk_start <= a < chunk_start + BYTES_IN_CHUNK) ==> final(self).alloc_bits.at(a)
                    == old(self).alloc_bits.at(a) && final(self).mark_bits.at(a) == old(
                    self,
                ).mark_bits.at(a),
            forall|k: int|
                0 <= k < BYTES_IN_CHUNK / MALLOC_ALIGN && old(self).alloc_bits.at(
                    #[trigger] slot_address(chunk_start, k),
                ) == 1 && old(self).mark_bits.at(slot_address(chunk_start, k)) == 0
                    ==> final(freed)@.contains(Address { value: slot_address(chunk_start, k) }),
    {
        let ghost before = *self;
        let end = chunk_start + BYTES_IN_CHUNK;
        let mut address = chunk_start;
        while address < end
            invariant
                chunk_start <= address <= end,
                end == chunk_start + BYTES_IN_CHUNK,
                (address - chunk_start) % (MALLOC_ALIGN as int) == 0,
                self.chunks == before.chunks,
                before == *old(self),
                forall|a: u64|
                    #![trigger self.alloc_bits.at(a)]
                    chunk_start <= a < address && (a - chunk_start) % (MALLOC_ALIGN as int) == 0 ==> {
                        let s = swept_bits(before.alloc_bits.at(a), before.mark_bits.at(a));
                        &&& self.alloc_bits.at(a) == s.0
                        &&& self.mark_bits.at(a) == s.1
                    },
                forall|a: u64|
                    #![trigger self.alloc_bits.at(a)]
                    !(chunk_start <= a < address) ==> self.alloc_bits.at(a) == before.alloc_bits.at(a)
                        && self.mark_bits.at(a) == before.mark_bits.at(a),
                forall|i: int|
                    old(freed)@.len() <= i < freed@.len() ==> {
                        let a = (#[trigger] freed@[i]).value;
                        &&& chunk_start <= a < address
                        &&& (a - chunk_start) % (MALLOC_ALIGN as int) == 0
                        &&& before.alloc_bits.at(a) == 1
                        &&& before.mark_bits.at(a) == 0
                    },
                freed@.subrange(0, old(freed)@.len() as int) == old(freed)@,
                freed@.len() >= old(freed)@.len(),
                forall|a: u64|
                    #![trigger before.alloc_bits.at(a)]
                    chunk_start <= a < address && (a - chunk_start) % (MALLOC_ALIGN as int) == 0
                        && before.alloc_bits.at(a) == 1 && before.mark_bits.at(a) == 0
                        ==> freed@.contains(Address { value: a }),
            decreases end - address,
        {
            let ghost pa = self.alloc_bits.view();
            let ghost pm = self.mark_bits.view();
            let ghost prev_a = self.alloc_bits;
            let ghost prev_m = self.mark_bits;
            let ghost pf = freed@;
            let alloc = self.alloc_bits.read(address);
            if alloc == 1 {
                if self.mark_bits.read(address) == 0 {
                    freed.push(Address::from_u64(address));
                    proof {
                        assert(freed@[pf.len() as int] == Address { value: address });
                    }
                    self.alloc_bits.write(address, 0);
                } else {
                    self.mark_bits.write(address, 0);
                }
            }
            proof {
                assert forall|a: u64|
                    #![trigger self.alloc_bits.at(a)]
                    chunk_start <= a < address + MALLOC_ALIGN && (a - chunk_start) % (MALLOC_ALIGN as int)
                        == 0 implies {
                        let s = swept_bits(before.alloc_bits.at(a), before.mark_bits.at(a));
                        &&& self.alloc_bits.at(a) == s.0
                        &&& self.mark_bits.at(a) == s.1
                    } by {
                    if a < address {
                        assert(self.alloc_bits.at(a) == prev_a.at(a));
                        assert(self.mark_bits.at(a) == prev_m.at(a));
                    } else {
                        assert(a == address) by (nonlinear_arith)
                            requires
                                address <= a < address + 16,
                                (a - chunk_start) % 16 == 0,
                                (address - chunk_start) % 16 == 0,
                                chunk_start <= address,
                        ;
                    }
                }
                assert forall|a: u64|
                    #![trigger before.alloc_bits.at(a)]
                    chunk_start <= a < address + MALLOC_ALIGN && (a - chunk_start) % (MALLOC_ALIGN as int)
                        == 0 && before.alloc_bits.at(a) == 1 && before.mark_bits.at(a) == 0
                        implies freed@.contains(Address { value: a }) by {
                    if a < address {
                        assert(pf.contains(Address { value: a }));
                        let m = choose|m: int| 0 <= m < pf.len() && pf[m] == Address { value: a };
                        assert(freed@[m] == pf[m]);
                    } else {
                        assert(a == address) by (nonlinear_arith)
                            requires
                                address <= a < address + 16,
                                (a - chunk_start) % 16 == 0,
                                (address - chunk_start) % 16 == 0,
                                chunk_start <= address,
                        ;
                        assert(freed@[pf.len() as int] == Address { value: address });
                    }
                }
                assert forall|a: u64|
                    #![trigger self.alloc_bits.at(a)]
                    !(chunk_start <= a < address + MALLOC_ALIGN) implies self.alloc_bits.at(a)
                        == before.alloc_bits.at(a) && self.mark_bits.at(a) == before.mark_bits.at(a) by {
                    assert(self.alloc_bits.at(a) == prev_a.at(a));
                    assert(self.mark_bits.at(a) == prev_m.at(a));
                }
            }
            address = address + MALLOC_ALIGN;
        }
        proof {
            assert forall|k: int|
                0 <= k < BYTES_IN_CHUNK / MALLOC_ALIGN implies swept_at(
                    before.alloc_bits,
                    before.mark_bits,
                    self.alloc_bits,
                    self.mark_bits,
                    #[trigger] slot_address(chunk_start, k),
                ) by {
                let a = slot_address(chunk_start, k);
                assert((a - chunk_start) % (MALLOC_ALIGN as int) == 0) by (nonlinear_arith)
                    requires a == chunk_start + k * 16, k >= 0;
                assert(a < end) by (nonlinear_arith)
                    requires a == chunk_start + k * 16, k < 262144int, end == chunk_start + 4194304;
            }
            assert forall|k: int|
                0 <= k < BYTES_IN_CHUNK / MALLOC_ALIGN && before.alloc_bits.at(
                    #[trigger] slot_address(chunk_start, k),
                ) == 1 && before.mark_bits.at(slot_address(chunk_start, k)) == 0
                    implies freed@.contains(Address { value: slot_address(chunk_start, k) }) by {
                let a = slot_address(chunk_start, k);
                assert((a - chunk_start) % (MALLOC_ALIGN as int) == 0) by (nonlinear_arith)
                    requires a == chunk_start + k * 16, k >= 0;
                assert(a < end) by (nonlinear_arith)
                    requires a == chunk_start + k * 16, k < 262144int, end == chunk_start + 4194304;
            }
        }
    }
}

/// No two chunks of `c` overlap.
pub open spec fn chunks_disjoint(c: Seq<u64>) -> bool {
    forall|i: int, j: int|
        0 <= i < c.len() && 0 <= j < c.len() && i != j ==> #[trigger] c[i] + BYTES_IN_CHUNK <= #[trigger] c[j]
            || c[j] + BYTES_IN_CHUNK <= c[i]
}

/// `a` lies in one of the chunks of `c`.
pub open spec fn in_some_chunk(c: Seq<u64>, a: u64) -> bool {
    exists|i: int| 0 <= i < c.len() && #[trigger] c[i] <= a < c[i] + BYTES_IN_CHUNK
}

proof fn lemma_slot_in_chunk(c: u64, k: int)
    requires
        0 <= k < BYTES_IN_CHUNK / MALLOC_ALIGN,
        c + BYTES_IN_CHUNK <= u64::MAX,
    ensures
        c <= slot_address(c, k) < c + BYTES_IN_CHUNK,
{
    assert(c + k * 16 < c + 4194304) by (nonlinear_arith)
        requires 0 <= k < 262144int;
}

impl MallocMS {
    /// Sweep every chunk; returns the objects to give back to malloc: every
    /// allocated object that is not marked.
    pub fn release(&mut self) -> (r: Vec<Address>)
        requires
            forall|i: int| 0 <= i < old(self).chunks@.len() ==> #[trigger] old(self).chunks@[i] + BYTES_IN_CHUNK <= u64::MAX,
            chunks_disjoint(old(self).chunks@),
        ensures
            final(self).chunks == old(self).chunks,
            forall|i: int, k: int|
                0 <= i < old(self).chunks@.len() && 0 <= k < BYTES_IN_CHUNK / MALLOC_ALIGN ==> swept_at(
                    old(self).alloc_bits,
                    old(self).mark_bits,
                    final(self).alloc_bits,
                    final(self).mark_bits,
                    #[trigger] slot_address(old(self).chunks@[i], k),
                ),
            forall|m: int|
                0 <= m < r@.len() ==> {
                    &&& old(self).alloc_bits.at((#[trigger] r@[m]).value) == 1
                    &&& old(self).mark_bits.at(r@[m].value) == 0
                    &&& in_some_chunk(old(self).chunks@, r@[m].value)
                },
            forall|i: int, k: int|
                0 <= i < old(self).chunks@.len() && 0 <= k < BYTES_IN_CHUNK / MALLOC_ALIGN
                    && old(self).alloc_bits.at(#[trigger] slot_address(old(self).chunks@[i], k)) == 1
                    && old(self).mark_bits.at(slot_address(old(self).chunks@[i], k)) == 0
                    ==> r@.contains(Address { value: slot_address(old(self).chunks@[i], k) }),
    {
        let ghost orig = *self;
        let ghost c = self.chunks@;
        let mut freed: Vec<Address> = Vec::new();
        let n = self.chunks.len();
        let mut i: usize = 0;
        while i < n
            invariant
                i <= n,
                n == c.len(),
                c == old(self).chunks@,
                orig == *old(self),
                self.chunks@ == c,
                self.chunks == old(self).chunks,
                forall|x: int| 0 <= x < c.len() ==> #[trigger] c[x] + BYTES_IN_CHUNK <= u64::MAX,
                chunks_disjoint(c),
                forall|j: int, k: int|
                    0 <= j < i && 0 <= k < BYTES_IN_CHUNK / MALLOC_ALIGN ==> swept_at(
                        orig.alloc_bits,
                        orig.mark_bits,
                        self.alloc_bits,
                        self.mark_bits,
                        #[trigger] slot_address(c[j], k),
                    ),
                forall|j: int, k: int|
                    i <= j < n && 0 <= k < BYTES_IN_CHUNK / MALLOC_ALIGN ==> {
                        &&& self.alloc_bits.at(#[trigger] slot_address(c[j], k)) == orig.alloc_bits.at(
                            slot_address(c[j], k),
                        )
                        &&& self.mark_bits.at(slot_address(c[j], k)) == orig.mark_bits.at(
                            slot_address(c[j], k),
                        )
                    },
                forall|m: int|
                    0 <= m < freed@.len() ==> {
                        &&& orig.alloc_bits.at((#[trigger] freed@[m]).value) == 1
                        &&& orig.mark_bits.at(freed@[m].value) == 0
                        &&& in_some_chunk(c, freed@[m].value)
                    },
                forall|j: int, k: int|
                    0 <= j < i && 0 <= k < BYTES_IN_CHUNK / MALLOC_ALIGN && orig.alloc_bits.at(
                        #[trigger] slot_address(c[j], k),
                    ) == 1 && orig.mark_bits.at(slot_address(c[j], k)) == 0 ==> freed@.contains(
                        Address { value: slot_address(c[j], k) },
                    ),
            decreases n - i,
        {
            let chunk = self.chunks[i];
            let ghost s0 = *self;
            let ghost f0 = freed@;
            self.sweep_chunk(chunk, &mut freed);
            proof {
                assert forall|j: int, k: int|
                    0 <= j < i + 1 && 0 <= k < BYTES_IN_CHUNK / MALLOC_ALIGN implies swept_at(
                        orig.alloc_bits,
                        orig.mark_bits,
                        self.alloc_bits,
                        self.mark_bits,
                        #[trigger] slot_address(c[j], k),
                    ) by {
                    let a = slot_address(c[j], k);
                    lemma_slot_in_chunk(c[j], k);
                    if j < i {
                        assert(c[j] + BYTES_IN_CHUNK <= c[i as int] || c[i as int] + BYTES_IN_CHUNK <= c[j]);
                        assert(self.alloc_bits.at(a) == s0.alloc_bits.at(a));
                    } else {
                        assert(s0.alloc_bits.at(a) == orig.alloc_bits.at(a));
                    }
                }
                assert forall|j: int, k: int|
                    i + 1 <= j < n && 0 <= k < BYTES_IN_CHUNK / MALLOC_ALIGN implies {
                        &&& self.alloc_bits.at(#[trigger] slot_address(c[j], k)) == orig.alloc_bits.at(
                            slot_address(c[j], k),
                        )
                        &&& self.mark_bits.at(slot_address(c[j], k)) == orig.mark_bits.at(
                            slot_address(c[j], k),
                        )
                    } by {
                    let a = slot_address(c[j], k);
                    lemma_slot_in_chunk(c[j], k);
                    assert(c[j] + BYTES_IN_CHUNK <= c[i as int] || c[i as int] + BYTES_IN_CHUNK <= c[j]);
                    assert(self.alloc_bits.at(a) == s0.alloc_bits.at(a));
                    assert(s0.alloc_bits.at(a) == orig.alloc_bits.at(a));
                }
                assert forall|m: int|
                    0 <= m < freed@.len() implies {
                        &&& orig.alloc_bits.at((#[trigger] freed@[m]).value) == 1
                        &&& orig.mark_bits.at(freed@[m].value) == 0
                        &&& in_some_chunk(c, freed@[m].value)
                    } by {
                    if m < f0.len() {
                        assert(freed@.subrange(0, f0.len() as int)[m] == freed@[m]);
                        assert(freed@[m] == f0[m]);
                    } else {
                        let a = freed@[m].value;
                        let k = (a - chunk) / (MALLOC_ALIGN as int);
                        assert(a == slot_address(chunk, k) && 0 <= k < BYTES_IN_CHUNK / MALLOC_ALIGN)
                            by (nonlinear_arith)
                            requires
                                chunk <= a < chunk + 4194304,
                                (a - chunk) % 16 == 0,
                                k == (a - chunk) / 16,
                        ;
                        assert(s0.alloc_bits.at(slot_address(c[i as int], k)) == orig.alloc_bits.at(
                            slot_address(c[i as int], k),
                        ));
                        assert(c[i as int] <= a < c[i as int] + BYTES_IN_CHUNK);
                    }
                }
                assert forall|j: int, k: int|
                    0 <= j < i + 1 && 0 <= k < BYTES_IN_CHUNK / MALLOC_ALIGN && orig.alloc_bits.at(
                        #[trigger] slot_address(c[j], k),
                    ) == 1 && orig.mark_bits.at(slot_address(c[j], k)) == 0 implies freed@.contains(
                        Address { value: slot_address(c[j], k) },
                    ) by {
                    if j < i {
                        let x = Address { value: slot_address(c[j], k) };
                        assert(f0.contains(x));
                        let m = choose|m: int| 0 <= m < f0.len() && f0[m] == x;
                        assert(freed@.subrange(0, f0.len() as int)[m] == freed@[m]);
                        assert(freed@[m] == f0[m]);
                    } else {
                        assert(s0.alloc_bits.at(slot_address(c[j], k)) == orig.alloc_bits.at(
                            slot_address(c[j], k),
                        ));
                    }
                }
            }
            i = i + 1;
        }
        freed
    }
}

/// Slots that one reference slot takes.
pub const REF_SLOT_SIZE: u64 = 2;

/// The static reference slots `[start, end)` that collector `ordinal` of
/// `number_of_collectors` scans: the slots are split into equal chunks,
/// the first collector skips slot 0 and the last takes the remainder.
pub open spec fn statics_range(number_of_references: u64, number_of_collectors: u64, ordinal: u64) -> (int, int) {
    let chunk = (number_of_references / number_of_collectors) as int - (number_of_references
        / number_of_collectors) as int % 2;
    let start = if ordinal == 0 {
        REF_SLOT_SIZE as int
    } else {
        ordinal * chunk
    };
    let end = if ordinal + 1 == number_of_collectors {
        number_of_references as int
    } else {
        (ordinal + 1) * chunk
    };
    (start, end)
}

/// The slots that collector `ordinal` scans, every `REF_SLOT_SIZE`-th
/// one of its range.
pub fn scan_statics(number_of_references: u64, number_of_collectors: u64, ordinal: u64) -> (r: Vec<u64>)
    requires
        0 < number_of_collectors,
        ordinal < number_of_collectors,
        number_of_references <= 0xFFFF_FFFF,
    ensures
        ({
            let (start, end) = statics_range(number_of_references, number_of_collectors, ordinal);
            &&& forall|i: int| 0 <= i < r@.len() ==> #[trigger] r@[i] == start + i * REF_SLOT_SIZE
            &&& forall|i: int| 0 <= i < r@.len() ==> #[trigger] r@[i] < end
            &&& (start + r@.len() * REF_SLOT_SIZE >= end)
        }),
{
    let per = number_of_references / number_of_collectors;
    let chunk_size = per - per % 2;
    proof {
        assert(per <= number_of_references) by (nonlinear_arith)
            requires per == number_of_references / number_of_collectors, number_of_collectors > 0;
        assert((ordinal + 1) * chunk_size <= number_of_collectors * chunk_size) by (nonlinear_arith)
            requires ordinal < number_of_collectors;
        assert(number_of_collectors * chunk_size <= number_of_collectors * per) by (nonlinear_arith)
            requires chunk_size <= per;
        assert(number_of_collectors * per <= number_of_references) by (nonlinear_arith)
            requires per == number_of_references / number_of_collectors, number_of_collectors > 0;
        assert(ordinal * chunk_size <= (ordinal + 1) * chunk_size) by (nonlinear_arith);
    }
    let start: u64 = if ordinal == 0 {
        REF_SLOT_SIZE
    } else {
        ordinal * chunk_size
    };
    let end: u64 = if ordinal + 1 == number_of_collectors {
        number_of_references
    } else {
        (ordinal + 1) * chunk_size
    };
    let mut slots: Vec<u64> = Vec::new();
    let mut slot = start;
    while slot < end
        invariant
            start <= slot,
            slot == start + slots@.len() * REF_SLOT_SIZE,
            slot == start || slot <= end + 1,
            end <= 0xFFFF_FFFF,
            start <= 0xFFFF_FFFF,
            forall|i: int| 0 <= i < slots@.len() ==> #[trigger] slots@[i] == start + i * REF_SLOT_SIZE,
            forall|i: int| 0 <= i < slots@.len() ==> #[trigger] slots@[i] < end,
        decreases end + 2 - slot,
    {
        slots.push(slot);
        slot = slot + REF_SLOT_SIZE;
    }
    slots
}

} // verus!
