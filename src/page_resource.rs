use vstd::prelude::*;

use crate::address::Address;
use crate::layout::BYTES_IN_PAGE;

verus! {

/// Pages in one region for the purpose of per-region metadata.
pub const PAGES_IN_REGION: u64 = 1024;

/// The allocation policy of a page resource.
#[derive(Clone, Copy, Debug, PartialEq, Eq, Structural)]
pub enum PageResourceKind {
    /// Bump-pointer allocation; pages are only given back all at once.
    Monotone,
    /// Individually releasable pages.
    FreeList,
}

/// The number of `true` entries of a sequence.
pub open spec fn count_true(s: Seq<bool>) -> nat
    decreases s.len(),
{
    if s.len() == 0 {
        0
    } else {
        count_true(s.drop_last()) + if s.last() {
            1nat
        } else {
            0nat
        }
    }
}

pub proof fn lemma_count_true_bound(s: Seq<bool>)
    ensures
        count_true(s) <= s.len(),
    decreases s.len(),
{
    if s.len() > 0 {
        lemma_count_true_bound(s.drop_last());
    }
}

pub proof fn lemma_count_true_update(s: Seq<bool>, i: int, v: bool)
    requires
        0 <= i < s.len(),
    ensures
        count_true(s.update(i, v)) + (if s[i] {
            1int
        } else {
            0int
        }) == count_true(s) + (if v {
            1int
        } else {
            0int
        }),
    decreases s.len(),
{
    let t = s.update(i, v);
    if i == s.len() - 1 {
        assert(t.drop_last() =~= s.drop_last());
    } else {
        lemma_count_true_update(s.drop_last(), i, v);
        assert(t.drop_last() =~= s.drop_last().update(i, v));
    }
}

pub proof fn lemma_count_true_none(n: nat)
    ensures
        count_true(Seq::new(n, |i: int| false)) == 0,
    decreases n,
{
    if n > 0 {
        lemma_count_true_none((n - 1) as nat);
        assert(Seq::new(n, |i: int| false).drop_last() =~= Seq::new((n - 1) as nat, |i: int| false));
    }
}

/// Pages `[i, i + n)` exist and none of them is in use.
pub open spec fn run_free(used: Seq<bool>, i: int, n: int) -> bool {
    0 <= i && i + n <= used.len() && forall|j: int| i <= j < i + n ==> !used[j]
}

/// A call that changes only the reservation of a page resource.
#[derive(Clone, Copy, Debug, PartialEq, Eq, Structural)]
pub enum ReservationOp {
    Reserve(u64),
    Clear(u64),
}

/// The page resource after `reserve_pages(pages)`.
pub open spec fn after_reserve(pr: PageResource, pages: u64) -> PageResource {
    PageResource { reserved: (pr.reserved + pr.adjusted(pages as int)) as u64, ..pr }
}

/// The page resource after `clear_request(reserved_pages)`.
pub open spec fn after_clear(pr: PageResource, reserved_pages: u64) -> PageResource {
    PageResource {
        reserved: if pr.reserved - pr.committed >= reserved_pages {
            (pr.reserved - reserved_pages) as u64
        } else {
            pr.committed
        },
        ..pr
    }
}

/// Whether each reservation of `ops`, applied in turn from `pr`, stays
/// within the capacity.
pub open spec fn reservations_fit(pr: PageResource, ops: Seq<ReservationOp>) -> bool
    decreases ops.len(),
{
    if ops.len() == 0 {
        true
    } else {
        match ops[0] {
            ReservationOp::Reserve(n) => n <= 0x8_0000_0000 && pr.reserved + pr.adjusted(n as int)
                <= pr.capacity && reservations_fit(after_reserve(pr, n), ops.drop_first()),
            ReservationOp::Clear(n) => reservations_fit(after_clear(pr, n), ops.drop_first()),
        }
    }
}

/// Whether every reservation of `ops`, applied in turn from `pr`, can be
/// counted without overflow (as `reserve_pages` requires).
pub open spec fn reservations_defined(pr: PageResource, ops: Seq<ReservationOp>) -> bool
    decreases ops.len(),
{
    if ops.len() == 0 {
        true
    } else {
        match ops[0] {
            ReservationOp::Reserve(n) => n <= 0x8_0000_0000 && pr.reserved + pr.adjusted(n as int)
                <= u64::MAX && reservations_defined(after_reserve(pr, n), ops.drop_first()),
            ReservationOp::Clear(n) => reservations_defined(after_clear(pr, n), ops.drop_first()),
        }
    }
}

/// The page resource after the calls of `ops`, in turn.
pub open spec fn after_ops(pr: PageResource, ops: Seq<ReservationOp>) -> PageResource
    decreases ops.len(),
{
    if ops.len() == 0 {
        pr
    } else {
        match ops[0] {
            ReservationOp::Reserve(n) => after_ops(after_reserve(pr, n), ops.drop_first()),
            ReservationOp::Clear(n) => after_ops(after_clear(pr, n), ops.drop_first()),
        }
    }
}

/// Over any sequence of reservations and cleared requests, reserved pages
/// never fall below committed pages (so never below zero), and, as long
/// as each reservation fits, never exceed the capacity.
pub proof fn lemma_reservations_keep_accounting(pr: PageResource, ops: Seq<ReservationOp>)
    requires
        pr.wf(),
        reservations_defined(pr, ops),
    ensures
        after_ops(pr, ops).wf(),
        after_ops(pr, ops).committed == pr.committed,
        after_ops(pr, ops).reserved >= after_ops(pr, ops).committed,
        pr.within_capacity() && reservations_fit(pr, ops) ==> after_ops(pr, ops).within_capacity(),
    decreases ops.len(),
{
    if ops.len() > 0 {
        match ops[0] {
            ReservationOp::Reserve(n) => {
                lemma_reservations_keep_accounting(after_reserve(pr, n), ops.drop_first());
            },
            ReservationOp::Clear(n) => {
                lemma_reservations_keep_accounting(after_clear(pr, n), ops.drop_first());
            },
        }
    }
}

/// Clearing the same reservation twice takes nothing more the second time.
pub proof fn lemma_clear_request_idempotent(pr: PageResource, reserved_pages: u64)
    requires
        pr.wf(),
        pr.reserved - pr.committed <= reserved_pages,
    ensures
        after_clear(after_clear(pr, reserved_pages), reserved_pages) == after_clear(
            pr,
            reserved_pages,
        ),
        after_clear(pr, reserved_pages).reserved >= after_clear(pr, reserved_pages).committed,
{
}

/// `k` is the first page at which `n` free pages start.
pub open spec fn first_fit(used: Seq<bool>, k: int, n: int) -> bool {
    run_free(used, k, n) && forall|k2: int| 0 <= k2 < k ==> !run_free(used, k2, n)
}

/// `f` is `o` after it handed out `required` pages at `addr`.
pub open spec fn granted(o: PageResource, f: PageResource, required: int, addr: u64) -> bool {
    &&& f.kind == o.kind
    &&& f.capacity == o.capacity
    &&& f.start == o.start
    &&& f.meta_pages_per_region == o.meta_pages_per_region
    &&& match o.kind {
        PageResourceKind::Monotone => {
            &&& o.cursor + required <= o.capacity
            &&& addr == o.page_address(o.cursor as int)
            &&& f.cursor == o.cursor + required
        },
        PageResourceKind::FreeList => exists|k: int|
            {
                &&& first_fit(o.used@, k, required)
                &&& addr == o.page_address(k)
                &&& f.used@ == o.used@.map(|j: int, u: bool| u || (k <= j < k + required))
                &&& f.run_len@ == if required > 0 {
                    o.run_len@.update(k, required as u64)
                } else {
                    o.run_len@
                }
            },
    }
}

/// The pages counter after `pages` more are committed, for a mutator or not.
pub open spec fn counted(before: u64, is_mutator: bool, pages: u64) -> u64 {
    if !is_mutator {
        before
    } else if before + pages <= u64::MAX {
        (before + pages) as u64
    } else {
        u64::MAX
    }
}

/// Handed-out pages lie in the region: `required` pages from a page boundary.
pub proof fn lemma_granted_in_region(o: PageResource, f: PageResource, required: int, addr: u64)
    requires
        o.wf(),
        required >= 0,
        granted(o, f, required, addr),
    ensures
        exists|k: int| 0 <= k && k + required <= o.capacity && addr == o.page_address(k),
{
    if o.kind == PageResourceKind::Monotone {
        assert(0 <= o.cursor && o.cursor + required <= o.capacity);
    } else {
        let k = choose|k: int| first_fit(o.used@, k, required) && addr == o.page_address(k);
        assert(0 <= k && k + required <= o.capacity);
    }
}

/// Pages come and go in runs of `g` pages that start on multiples of `g`.
#[verifier::opaque]
pub open spec fn runs_of(pr: PageResource, g: int) -> bool {
    &&& pr.kind == PageResourceKind::FreeList
    &&& g > 0
    &&& (pr.capacity as int) % g == 0
    &&& forall|j: int| 0 <= j < pr.capacity ==> #[trigger] pr.used@[j] == pr.used@[j - j % g]
    &&& forall|j: int|
        0 <= j < pr.capacity && j % g == 0 ==> (#[trigger] pr.run_len@[j] == 0 || pr.run_len@[j]
            == g)
}

proof fn lemma_same_granule(p: int, j: int, g: int)
    requires
        g > 0,
        p % g == 0,
        p <= j < p + g,
    ensures
        j % g == j - p,
        j - j % g == p,
{
    vstd::arithmetic::div_mod::lemma_fundamental_div_mod(p, g);
    vstd::arithmetic::div_mod::lemma_fundamental_div_mod_converse(j, g, p / g, j - p);
}

pub proof fn lemma_granule_start(j: int, g: int)
    requires
        g > 0,
        j >= 0,
    ensures
        (j - j % g) % g == 0,
        0 <= j % g < g,
        0 <= j - j % g <= j,
{
    vstd::arithmetic::div_mod::lemma_fundamental_div_mod(j, g);
    vstd::arithmetic::div_mod::lemma_mod_multiples_basic(j / g, g);
    vstd::arithmetic::div_mod::lemma_div_pos_is_pos(j, g);
    assert(j - j % g == (j / g) * g) by (nonlinear_arith)
        requires j == g * (j / g) + j % g;
    assert((j / g) * g >= 0) by (nonlinear_arith)
        requires j / g >= 0, g > 0;
}

proof fn lemma_next_granule(p: int, cap: int, g: int)
    requires
        g > 0,
        p % g == 0,
        cap % g == 0,
        0 <= p < cap,
    ensures
        p + g <= cap,
{
    vstd::arithmetic::div_mod::lemma_fundamental_div_mod(p, g);
    vstd::arithmetic::div_mod::lemma_fundamental_div_mod(cap, g);
    let a = p / g;
    let b = cap / g;
    assert(p + g <= cap) by (nonlinear_arith)
        requires
            p == g * a,
            cap == g * b,
            p < cap,
            g > 0,
    ;
}

/// With pages in runs of `g`, the first place where `g` pages are free
/// starts a run.
pub proof fn lemma_first_fit_aligned(pr: PageResource, g: int, k: int)
    requires
        pr.wf(),
        runs_of(pr, g),
        first_fit(pr.used@, k, g),
    ensures
        k % g == 0,
{
    reveal(runs_of);
    if k % g != 0 {
        lemma_granule_start(k, g);
        let c = k - k % g;
        assert(0 <= k && k + g <= pr.used@.len());
        assert(pr.used@.len() == pr.capacity);
        assert(pr.used@[k] == pr.used@[k - k % g]);
        assert(!pr.used@[k]);
        assert(c <= k);
        assert(c + g <= pr.capacity);
        assert forall|j: int| c <= j < c + g implies !pr.used@[j] by {
            lemma_same_granule(c, j, g);
            assert(0 <= j < pr.capacity);
            assert(pr.used@[j] == pr.used@[j - j % g]);
        }
        assert(run_free(pr.used@, c, g));
    }
}

/// Handing out a whole run of `g` pages keeps pages in runs of `g`.
pub proof fn lemma_grant_keeps_runs(o: PageResource, f: PageResource, g: int, k: int)
    requires
        o.wf(),
        runs_of(o, g),
        k % g == 0,
        run_free(o.used@, k, g),
        f.kind == o.kind,
        f.capacity == o.capacity,
        f.used@ == o.used@.map(|j: int, u: bool| u || (k <= j < k + g)),
        f.run_len@ == o.run_len@.update(k, g as u64),
    ensures
        runs_of(f, g),
{
    reveal(runs_of);
    assert forall|j: int| 0 <= j < f.capacity implies #[trigger] f.used@[j] == f.used@[j - j % g] by {
        lemma_granule_start(j, g);
        let q = j - j % g;
        assert(o.used@[j] == o.used@[q]);
        assert(o.used@.len() == o.capacity);
        if k <= j < k + g {
            lemma_same_granule(k, j, g);
        } else if k <= q < k + g {
            lemma_same_granule(k, q, g);
            lemma_granule_start(q, g);
        }
    }
    assert forall|j: int|
        0 <= j < f.capacity && j % g == 0 implies (#[trigger] f.run_len@[j] == 0 || f.run_len@[j] == g) by {
        if j != k {
            assert(f.run_len@[j] == o.run_len@[j]);
        }
    }
}

/// Giving back the run at a multiple of `g` keeps pages in runs of `g`.
pub proof fn lemma_release_keeps_runs(o: PageResource, f: PageResource, g: int, p: int, end: int)
    requires
        o.wf(),
        runs_of(o, g),
        p % g == 0,
        0 <= p < o.capacity,
        end == p + o.run_len@[p] || (end == o.capacity && o.run_len@[p] > o.capacity - p),
        f.kind == o.kind,
        f.capacity == o.capacity,
        f.used@ == o.used@.map(|j: int, u: bool| u && !(p <= j < end)),
        f.run_len@ == o.run_len@.update(p, 0),
    ensures
        runs_of(f, g),
{
    reveal(runs_of);
    lemma_next_granule(p, o.capacity as int, g);
    assert(end == p || end == p + g);
    assert forall|j: int| 0 <= j < f.capacity implies #[trigger] f.used@[j] == f.used@[j - j % g] by {
        lemma_granule_start(j, g);
        let q = j - j % g;
        assert(o.used@[j] == o.used@[q]);
        assert(o.used@.len() == o.capacity);
        if p <= j < p + g {
            lemma_same_granule(p, j, g);
        } else if p <= q < p + g {
            lemma_same_granule(p, q, g);
            lemma_granule_start(q, g);
        }
    }
    assert forall|j: int|
        0 <= j < f.capacity && j % g == 0 implies (#[trigger] f.run_len@[j] == 0 || f.run_len@[j] == g) by {
        if j != p {
            assert(f.run_len@[j] == o.run_len@[j]);
        }
    }
}

/// Runs of `g` pages depend only on which pages are in use and on the runs
/// handed out.
pub proof fn lemma_runs_same(o: PageResource, f: PageResource, g: int)
    requires
        runs_of(o, g),
        f.kind == o.kind,
        f.capacity == o.capacity,
        f.used == o.used,
        f.run_len == o.run_len,
    ensures
        runs_of(f, g),
{
    reveal(runs_of);
}

/// With no page in use and no run handed out, pages are in runs of any
/// `g` that divides the capacity.
pub proof fn lemma_runs_when_empty(pr: PageResource, g: int)
    requires
        pr.wf(),
        pr.kind == PageResourceKind::FreeList,
        g > 0,
        (pr.capacity as int) % g == 0,
        forall|i: int| 0 <= i < pr.capacity ==> !pr.used@[i],
        forall|i: int| 0 <= i < pr.capacity ==> pr.run_len@[i] == 0,
    ensures
        runs_of(pr, g),
{
    reveal(runs_of);
    assert forall|j: int| 0 <= j < pr.capacity implies #[trigger] pr.used@[j] == pr.used@[j - j % g] by {
        lemma_granule_start(j, g);
    }
}

/// The process-wide count of pages committed on behalf of mutators.
pub struct CumulativeCommitted {
    pub pages: u64,
}

impl CumulativeCommitted {
    pub fn new() -> (r: CumulativeCommitted)
        ensures
            r.pages == 0,
    {
        CumulativeCommitted { pages: 0 }
    }
}

/// The count of pages committed on behalf of mutators so far.
pub fn cumulative_committed_pages(counter: &CumulativeCommitted) -> (r: u64)
    ensures
        r == counter.pages,
{
    counter.pages
}

/// A page-granularity allocator over the region `[start, start + capacity pages)`
/// that accounts for reserved and committed pages.
pub struct PageResource {
    pub kind: PageResourceKind,
    pub reserved: u64,
    pub committed: u64,
    pub contiguous: bool,
    pub growable: bool,
    pub start: Address,
    /// Pages in the region.
    pub capacity: u64,
    pub meta_pages_per_region: u64,
    /// Monotone: pages handed out since the last reset.
    pub cursor: u64,
    /// Free list: whether each page is in use.
    pub used: Vec<bool>,
    /// Free list: the length of the run handed out at each page, 0 elsewhere.
    pub run_len: Vec<u64>,
}

impl PageResource {
    pub open spec fn wf(&self) -> bool {
        &&& self.committed <= self.reserved
        &&& self.committed <= self.capacity
        &&& self.start.value > 0
        &&& self.start.value + self.capacity * BYTES_IN_PAGE <= u64::MAX
        &&& self.meta_pages_per_region <= PAGES_IN_REGION
        &&& self.capacity <= 0x8_0000_0000
        &&& match self.kind {
            PageResourceKind::Monotone => self.cursor == self.committed,
            PageResourceKind::FreeList => {
                &&& self.used@.len() == self.capacity
                &&& self.run_len@.len() == self.capacity
                &&& self.committed == count_true(self.used@)
            },
        }
    }

    /// Reserved pages never exceed the capacity of the region.
    pub open spec fn within_capacity(&self) -> bool {
        self.reserved <= self.capacity
    }

    /// Pages reserved for a request of `pages` pages, metadata included.
    pub open spec fn adjusted(&self, pages: int) -> int {
        match self.kind {
            PageResourceKind::Monotone => pages + (pages + PAGES_IN_REGION - 1) / (
            PAGES_IN_REGION as int) * self.meta_pages_per_region,
            PageResourceKind::FreeList => pages,
        }
    }

    pub proof fn lemma_adjusted_bound(&self, pages: int)
        requires
            self.wf(),
            0 <= pages <= 0x8_0000_0000,
        ensures
            pages <= self.adjusted(pages) <= 0x10_0000_0400,
    {
        let regions = (pages + PAGES_IN_REGION - 1) / (PAGES_IN_REGION as int);
        assert(0 <= regions * self.meta_pages_per_region <= 0x8_0000_0400) by (nonlinear_arith)
            requires
                0 <= regions <= 33554433int,
                self.meta_pages_per_region <= 1024,
        ;
    }

    /// Whether the region has room for `required` more pages.
    pub open spec fn has_room(&self, required: int) -> bool {
        match self.kind {
            PageResourceKind::Monotone => self.cursor + required <= self.capacity,
            PageResourceKind::FreeList => exists|k: int| run_free(self.used@, k, required),
        }
    }

    /// The address of page `i` of the region.
    pub open spec fn page_address(&self, i: int) -> int {
        self.start.value + i * BYTES_IN_PAGE
    }

    pub fn new_monotone(start: Address, pages: u64, meta_pages_per_region: u64) -> (r:
        PageResource)
        requires
            start.value > 0,
            start.value + pages * BYTES_IN_PAGE <= u64::MAX,
            pages <= 0x8_0000_0000,
            meta_pages_per_region <= PAGES_IN_REGION,
        ensures
            r.wf(),
            r.kind == PageResourceKind::Monotone,
            r.reserved == 0,
            r.committed == 0,
            r.capacity == pages,
            r.start == start,
            r.meta_pages_per_region == meta_pages_per_region,
    {
        PageResource {
            kind: PageResourceKind::Monotone,
            reserved: 0,
            committed: 0,
            contiguous: true,
            growable: false,
            start,
            capacity: pages,
            meta_pages_per_region,
            cursor: 0,
            used: Vec::new(),
            run_len: Vec::new(),
        }
    }

    pub fn new_freelist(start: Address, pages: u64, meta_pages_per_region: u64) -> (r:
        PageResource)
        requires
            start.value > 0,
            start.value + pages * BYTES_IN_PAGE <= u64::MAX,
            pages <= 0x8_0000_0000,
            meta_pages_per_region <= PAGES_IN_REGION,
        ensures
            r.wf(),
            r.kind == PageResourceKind::FreeList,
            r.reserved == 0,
            r.committed == 0,
            r.capacity == pages,
            r.start == start,
            r.meta_pages_per_region == meta_pages_per_region,
            forall|i: int| 0 <= i < pages ==> !r.used@[i],
            forall|i: int| 0 <= i < pages ==> r.run_len@[i] == 0,
    {
        let mut used: Vec<bool> = Vec::new();
        let mut run_len: Vec<u64> = Vec::new();
        let mut i: u64 = 0;
        while i < pages
            invariant
                i <= pages,
                used@ =~= Seq::new(i as nat, |k: int| false),
                run_len@ =~= Seq::new(i as nat, |k: int| 0u64),
            decreases pages - i,
        {
            used.push(false);
            run_len.push(0);
            i = i + 1;
        }
        proof {
            lemma_count_true_none(pages as nat);
        }
        PageResource {
            kind: PageResourceKind::FreeList,
            reserved: 0,
            committed: 0,
            contiguous: true,
            growable: false,
            start,
            capacity: pages,
            meta_pages_per_region,
            cursor: 0,
            used,
            run_len,
        }
    }

    /// The pages to reserve for a request of `pages` pages.
    pub fn adjust_for_metadata(&self, pages: u64) -> (r: u64)
        requires
            self.wf(),
            pages <= 0x8_0000_0000,
        ensures
            r == self.adjusted(pages as int),
    {
        match self.kind {
            PageResourceKind::Monotone => {
                let regions = (pages + (PAGES_IN_REGION - 1)) / PAGES_IN_REGION;
                assert(regions * self.meta_pages_per_region <= 0x8_0000_0400int) by (nonlinear_arith)
                    requires
                        regions <= 33554433int,
                        self.meta_pages_per_region <= 1024,
                ;
                pages + regions * self.meta_pages_per_region
            },
            PageResourceKind::FreeList => pages,
        }
    }

    /// Reserve pages for a request of `pages` pages; returns the pages reserved.
    pub fn reserve_pages(&mut self, pages: u64) -> (r: u64)
        requires
            old(self).wf(),
            pages <= 0x8_0000_0000,
            old(self).reserved + old(self).adjusted(pages as int) <= u64::MAX,
        ensures
            final(self).wf(),
            r == old(self).adjusted(pages as int),
            *final(self) == after_reserve(*old(self), pages),
            final(self).reserved == old(self).reserved + r,
            old(self).within_capacity() && old(self).reserved + r <= old(self).capacity
                ==> final(self).within_capacity(),
            final(self).committed == old(self).committed,
            final(self).capacity == old(self).capacity,
            final(self).kind == old(self).kind,
            final(self).start == old(self).start,
            final(self).meta_pages_per_region == old(self).meta_pages_per_region,
            final(self).used@ == old(self).used@,
            final(self).cursor == old(self).cursor,
    {
        let adj = self.adjust_for_metadata(pages);
        self.reserved = self.reserved + adj;
        adj
    }

    /// Give back a reservation that was not used. Pages that are committed
    /// stay reserved, so a reservation given back twice takes nothing more.
    pub fn clear_request(&mut self, reserved_pages: u64)
        requires
            old(self).wf(),
        ensures
            final(self).wf(),
            final(self).reserved == if old(self).reserved - old(self).committed >= reserved_pages {
                old(self).reserved - reserved_pages
            } else {
                old(self).committed as int
            },
            *final(self) == after_clear(*old(self), reserved_pages),
            final(self).reserved <= old(self).reserved,
            old(self).within_capacity() ==> final(self).within_capacity(),
            final(self).committed == old(self).committed,
            final(self).capacity == old(self).capacity,
            final(self).kind == old(self).kind,
            final(self).start == old(self).start,
            final(self).meta_pages_per_region == old(self).meta_pages_per_region,
            final(self).used@ == old(self).used@,
            final(self).cursor == old(self).cursor,
    {
        let pending = self.reserved - self.committed;
        if pending >= reserved_pages {
            self.reserved = self.reserved - reserved_pages;
        } else {
            self.reserved = self.committed;
        }
    }

    /// Account for `actual_pages` pages handed out against a reservation of
    /// `reserved_pages` pages.
    fn commit_pages(
        &mut self,
        reserved_pages: u64,
        actual_pages: u64,
        is_mutator: bool,
        counter: &mut CumulativeCommitted,
    )
        requires
            reserved_pages <= old(self).reserved - old(self).committed,
            old(self).committed <= old(self).reserved,
            old(self).committed + actual_pages <= old(self).capacity,
            old(self).reserved + actual_pages <= u64::MAX,
        ensures
            final(self).reserved == old(self).reserved - reserved_pages + actual_pages,
            final(self).committed == old(self).committed + actual_pages,
            final(self).kind == old(self).kind,
            final(self).capacity == old(self).capacity,
            final(self).start == old(self).start,
            final(self).meta_pages_per_region == old(self).meta_pages_per_region,
            final(self).used == old(self).used,
            final(self).run_len == old(self).run_len,
            final(self).cursor == old(self).cursor,
            final(counter).pages == counted(old(counter).pages, is_mutator, actual_pages),
    {
        self.reserved = self.reserved - reserved_pages + actual_pages;
        self.committed = self.committed + actual_pages;
        if is_mutator {
            counter.pages = counter.pages.saturating_add(actual_pages);
        }
    }

    /// The start of the first page of `required` pages, or the zero address
    /// when the region has no room for them.
    pub fn get_new_pages(
        &mut self,
        reserved_pages: u64,
        required: u64,
        zeroed: bool,
        is_mutator: bool,
        counter: &mut CumulativeCommitted,
    ) -> (r: Address)
        requires
            old(self).wf(),
            reserved_pages <= old(self).reserved - old(self).committed,
            old(self).reserved + required <= u64::MAX,
        ensures
            final(self).wf(),
            final(self).kind == old(self).kind,
            final(self).capacity == old(self).capacity,
            final(self).start == old(self).start,
            final(self).meta_pages_per_region == old(self).meta_pages_per_region,
            r.value == 0 ==> *final(self) == *old(self) && final(counter).pages == old(
                counter,
            ).pages,
            r.value != 0 ==> {
                &&& final(self).reserved == old(self).reserved - reserved_pages + required
                &&& final(self).committed == old(self).committed + required
            },
            (r.value != 0) == old(self).has_room(required as int),
            r.value != 0 ==> granted(*old(self), *final(self), required as int, r.value),
            r.value != 0 ==> final(counter).pages == counted(old(counter).pages, is_mutator, required),
            old(self).kind == PageResourceKind::Monotone ==> {
                &&& (r.value != 0 <==> old(self).cursor + required <= old(self).capacity)
                &&& r.value != 0 ==> r.value == old(self).page_address(old(self).cursor as int)
                    && final(self).cursor == old(self).cursor + required
            },
            old(self).kind == PageResourceKind::FreeList ==> {
                &&& (r.value != 0 <==> exists|k: int| run_free(old(self).used@, k, required as int))
                &&& r.value != 0 ==> exists|k: int|
                    {
                        &&& run_free(old(self).used@, k, required as int)
                        &&& forall|k2: int| 0 <= k2 < k ==> !run_free(old(self).used@, k2, required as int)
                        &&& r.value == old(self).page_address(k)
                        &&& final(self).used@ == old(self).used@.map(
                            |j: int, u: bool| u || (k <= j < k + required),
                        )
                    }
            },
    {
        self.alloc_pages(reserved_pages, required, zeroed, is_mutator, counter)
    }

    fn alloc_pages(
        &mut self,
        reserved_pages: u64,
        required: u64,
        zeroed: bool,
        is_mutator: bool,
        counter: &mut CumulativeCommitted,
    ) -> (r: Address)
        requires
            old(self).wf(),
            reserved_pages <= old(self).reserved - old(self).committed,
            old(self).reserved + required <= u64::MAX,
        ensures
            final(self).wf(),
            final(self).kind == old(self).kind,
            final(self).capacity == old(self).capacity,
            final(self).start == old(self).start,
            final(self).meta_pages_per_region == old(self).meta_pages_per_region,
            r.value == 0 ==> *final(self) == *old(self) && final(counter).pages == old(
                counter,
            ).pages,
            r.value != 0 ==> {
                &&& final(self).reserved == old(self).reserved - reserved_pages + required
                &&& final(self).committed == old(self).committed + required
            },
            (r.value != 0) == old(self).has_room(required as int),
            r.value != 0 ==> granted(*old(self), *final(self), required as int, r.value),
            r.value != 0 ==> final(counter).pages == counted(old(counter).pages, is_mutator, required),
            old(self).kind == PageResourceKind::Monotone ==> {
                &&& (r.value != 0 <==> old(self).cursor + required <= old(self).capacity)
                &&& r.value != 0 ==> r.value == old(self).page_address(old(self).cursor as int)
                    && final(self).cursor == old(self).cursor + required
            },
            old(self).kind == PageResourceKind::FreeList ==> {
                &&& (r.value != 0 <==> exists|k: int| run_free(old(self).used@, k, required as int))
                &&& r.value != 0 ==> exists|k: int|
                    {
                        &&& run_free(old(self).used@, k, required as int)
                        &&& forall|k2: int| 0 <= k2 < k ==> !run_free(old(self).used@, k2, required as int)
                        &&& r.value == old(self).page_address(k)
                        &&& final(self).used@ == old(self).used@.map(
                            |j: int, u: bool| u || (k <= j < k + required),
                        )
                    }
            },
    {
        match self.kind {
            PageResourceKind::Monotone => {
                if required > self.capacity - self.cursor {
                    return Address::zero();
                }
                let first = self.cursor;
                proof {
                    assert(first * BYTES_IN_PAGE <= self.capacity * BYTES_IN_PAGE) by (nonlinear_arith)
                        requires first <= self.capacity;
                }
                let r = Address::from_u64(self.start.value + first * BYTES_IN_PAGE);
                self.cursor = self.cursor + required;
                self.commit_pages(reserved_pages, required, is_mutator, counter);
                r
            },
            PageResourceKind::FreeList => {
                self.alloc_from_free_list(reserved_pages, required, is_mutator, counter)
            },
        }
    }

    /// Whether pages `[i, i + n)` are all free.
    fn is_run_free(&self, i: usize, n: usize) -> (r: bool)
        requires
            self.wf(),
            self.kind == PageResourceKind::FreeList,
            i + n <= self.capacity,
        ensures
            r == run_free(self.used@, i as int, n as int),
    {
        let len = self.used.len();
        let mut j: usize = 0;
        while j < n
            invariant
                j <= n,
                len == self.used@.len(),
                i + n <= len,
                forall|m: int| i <= m < i + j ==> !self.used@[m],
            decreases n - j,
        {
            if self.used[i + j] {
                return false;
            }
            j = j + 1;
        }
        true
    }

    fn alloc_from_free_list(
        &mut self,
        reserved_pages: u64,
        required: u64,
        is_mutator: bool,
        counter: &mut CumulativeCommitted,
    ) -> (r: Address)
        requires
            old(self).wf(),
            old(self).kind == PageResourceKind::FreeList,
            reserved_pages <= old(self).reserved - old(self).committed,
            old(self).reserved + required <= u64::MAX,
        ensures
            final(self).wf(),
            final(self).kind == old(self).kind,
            final(self).capacity == old(self).capacity,
            final(self).start == old(self).start,
            final(self).meta_pages_per_region == old(self).meta_pages_per_region,
            r.value == 0 ==> *final(self) == *old(self) && final(counter).pages == old(
                counter,
            ).pages,
            r.value != 0 ==> {
                &&& final(self).reserved == old(self).reserved - reserved_pages + required
                &&& final(self).committed == old(self).committed + required
            },
            r.value != 0 ==> granted(*old(self), *final(self), required as int, r.value),
            r.value != 0 ==> final(counter).pages == counted(old(counter).pages, is_mutator, required),
            (r.value != 0 <==> exists|k: int| run_free(old(self).used@, k, required as int)),
            r.value != 0 ==> exists|k: int|
                {
                    &&& run_free(old(self).used@, k, required as int)
                    &&& forall|k2: int| 0 <= k2 < k ==> !run_free(old(self).used@, k2, required as int)
                    &&& r.value == old(self).page_address(k)
                    &&& final(self).used@ == old(self).used@.map(
                        |j: int, u: bool| u || (k <= j < k + required),
                    )
                },
    {
        let cap: usize = self.used.len();
        if required > self.capacity {
            assert forall|k: int| !run_free(self.used@, k, required as int) by {}
            return Address::zero();
        }
        let req: usize = required as usize;
        let mut i: usize = 0;
        while i <= cap - req
            invariant
                *self == *old(self),
                *counter == *old(counter),
                self.wf(),
                self.kind == PageResourceKind::FreeList,
                cap == self.capacity,
                req == required,
                req <= cap,
                i <= cap - req + 1,
                reserved_pages <= self.reserved - self.committed,
                self.reserved + required <= u64::MAX,
                forall|k: int| 0 <= k < i ==> !run_free(self.used@, k, required as int),
            decreases cap - i,
        {
            if self.is_run_free(i, req) {
                let ghost old_used = self.used@;
                let ghost old_self = *self;
                assert(old_used == old(self).used@);
                assert(forall|k2: int| 0 <= k2 < i ==> !run_free(old_used, k2, required as int));
                let mut j: usize = 0;
                while j < req
                    invariant
                        j <= req,
                        i + req <= cap,
                        cap == self.capacity,
                        self.used@.len() == cap,
                        self.run_len == old_self.run_len,
                        self.run_len@.len() == cap,
                        self.kind == old_self.kind,
                        self.capacity == old_self.capacity,
                        self.start == old_self.start,
                        self.meta_pages_per_region == old_self.meta_pages_per_region,
                        self.reserved == old_self.reserved,
                        self.cursor == old_self.cursor,
                        self.committed == old_self.committed,
                        run_free(old_used, i as int, req as int),
                        self.used@ =~= old_used.map(|m: int, u: bool| u || (i <= m < i + j)),
                        count_true(self.used@) == count_true(old_used) + j,
                    decreases req - j,
                {
                    proof {
                        lemma_count_true_update(self.used@, (i + j) as int, true);
                    }
                    self.used.set(i + j, true);
                    j = j + 1;
                }
                if req > 0 {
                    self.run_len.set(i, required);
                }
                proof {
                    lemma_count_true_bound(self.used@);
                    assert(i * BYTES_IN_PAGE <= self.capacity * BYTES_IN_PAGE) by (nonlinear_arith)
                        requires i <= self.capacity;
                }
                self.commit_pages(reserved_pages, required, is_mutator, counter);
                let r = Address::from_u64(self.start.value + (i as u64) * BYTES_IN_PAGE);
                proof {
                    assert(run_free(old(self).used@, i as int, required as int));
                    assert(self.used@ == old(self).used@.map(
                        |m: int, u: bool| u || (i <= m < i + required),
                    ));
                    assert(r.value == old(self).page_address(i as int));
                    assert(first_fit(old(self).used@, i as int, required as int));
                    assert(forall|k2: int| 0 <= k2 < i ==> !run_free(old(self).used@, k2, required as int));
                }
                return r;
            }
            i = i + 1;
        }
        assert forall|k: int| !run_free(self.used@, k, required as int) by {
            if 0 <= k && k + required <= self.used@.len() {
                assert(k < i);
            }
        }
        Address::zero()
    }

    /// Give back the run of pages handed out at `start`; returns the number
    /// of pages freed.
    pub fn release_pages(&mut self, start: Address) -> (r: u64)
        requires
            old(self).wf(),
            old(self).kind == PageResourceKind::FreeList,
        ensures
            final(self).wf(),
            final(self).kind == old(self).kind,
            final(self).capacity == old(self).capacity,
            final(self).start == old(self).start,
            final(self).meta_pages_per_region == old(self).meta_pages_per_region,
            final(self).committed == old(self).committed - r,
            final(self).reserved == old(self).reserved - r,
            ({
                let p = (start.value - old(self).start.value) / (BYTES_IN_PAGE as int);
                let n = old(self).run_len@[p];
                let end = if n > old(self).capacity - p {
                    old(self).capacity as int
                } else {
                    p + n
                };
                if start.value >= old(self).start.value && (start.value - old(self).start.value)
                    % (BYTES_IN_PAGE as int) == 0 && p < old(self).capacity {
                    &&& final(self).used@ == old(self).used@.map(|j: int, u: bool| u && !(p <= j < end))
                    &&& final(self).run_len@ == old(self).run_len@.update(p, 0)
                } else {
                    *final(self) == *old(self)
                }
            }),
    {
        if start.value < self.start.value {
            return 0;
        }
        let offset = start.value - self.start.value;
        if offset % BYTES_IN_PAGE != 0 {
            return 0;
        }
        let page64 = offset / BYTES_IN_PAGE;
        if page64 >= self.capacity {
            return 0;
        }
        let cap: usize = self.used.len();
        let page = page64 as usize;
        let n = self.run_len[page];
        let end: usize = if n > (cap - page) as u64 {
            cap
        } else {
            page + n as usize
        };
        let mut freed: u64 = 0;
        let mut j: usize = page;
        let ghost old_self = *self;
        while j < end
            invariant
                page <= j <= end <= cap,
                cap == self.capacity,
                self.used@.len() == cap,
                self.run_len@.len() == cap,
                self.kind == old_self.kind,
                self.capacity == old_self.capacity,
                self.start == old_self.start,
                self.meta_pages_per_region == old_self.meta_pages_per_region,
                old_self.wf(),
                self.committed == old_self.committed - freed,
                self.reserved == old_self.reserved - freed,
                self.committed == count_true(self.used@),
                self.committed <= self.reserved,
                self.cursor == old_self.cursor,
                freed <= old_self.committed,
                old_self == *old(self),
                self.run_len == old_self.run_len,
                self.used@ =~= old_self.used@.map(|m: int, u: bool| u && !(page <= m < j)),
            decreases end - j,
        {
            if self.used[j] {
                proof {
                    lemma_count_true_update(self.used@, j as int, false);
                }
                self.used.set(j, false);
                self.committed = self.committed - 1;
                self.reserved = self.reserved - 1;
                freed = freed + 1;
            }
            j = j + 1;
        }
        self.run_len.set(page, 0);
        freed
    }

    /// Give back every page at once (monotone resources only).
    pub fn reset(&mut self)
        requires
            old(self).wf(),
            old(self).kind == PageResourceKind::Monotone,
        ensures
            final(self).wf(),
            final(self).reserved == 0,
            final(self).committed == 0,
            final(self).cursor == 0,
            final(self).kind == old(self).kind,
            final(self).capacity == old(self).capacity,
            final(self).start == old(self).start,
            final(self).meta_pages_per_region == old(self).meta_pages_per_region,
    {
        self.reserved = 0;
        self.committed = 0;
        self.cursor = 0;
    }

    pub fn reserved_pages(&self) -> (r: u64)
        ensures
            r == self.reserved,
    {
        self.reserved
    }

    pub fn committed_pages(&self) -> (r: u64)
        ensures
            r == self.committed,
    {
        self.committed
    }
}

} // verus!
