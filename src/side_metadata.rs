use vstd::prelude::*;

use vstd::arithmetic::power2::{lemma_pow2_pos, pow2};
use vstd::bits::lemma_u64_shr_is_div;

use crate::address::Address;
use crate::layout::LOG_ADDRESS_SPACE;
use crate::word_table::{word_at, WordTable};

verus! {

/// Where global side metadata starts.
pub const GLOBAL_SIDE_METADATA_BASE_ADDRESS: u64 = 0x0000_0600_0000_0000;
/// Where policy-specific side metadata starts.
pub const LOCAL_SIDE_METADATA_BASE_ADDRESS: u64 = 0x0000_2600_0000_0000;
/// Where policy-specific side metadata must end.
pub const LOCAL_SIDE_METADATA_END_ADDRESS: u64 = 0x0000_4600_0000_0000;

/// Whether metadata is shared by all spaces or belongs to one policy.
#[derive(Clone, Copy, Debug, PartialEq, Eq, Structural)]
pub enum MetadataScope {
    Global,
    PolicySpecific,
}

/// A kind of per-object metadata: `num_of_bits` bits for every
/// `2^log_min_obj_size` bytes of data, in a table that starts at `offset`.
#[derive(Clone, Copy, Debug, PartialEq, Eq, Structural)]
pub struct MetadataSpec {
    pub is_on_side: bool,
    pub scope: MetadataScope,
    pub offset: u64,
    pub num_of_bits: u64,
    pub log_min_obj_size: u64,
}

/// The metadata that a space uses: the global kinds and its own.
pub struct SideMetadataContext {
    pub global: Vec<MetadataSpec>,
    pub local: Vec<MetadataSpec>,
}

pub open spec fn log_bits(bits: u64) -> u64 {
    if bits == 1 {
        0
    } else if bits == 2 {
        1
    } else if bits == 4 {
        2
    } else if bits == 8 {
        3
    } else if bits == 16 {
        4
    } else {
        5
    }
}

impl MetadataSpec {
    /// The kinds supported: a power of two from 1 to 32 bits, for data
    /// granules of at most 2^30 bytes, in a table below 2^48.
    pub open spec fn valid(&self) -> bool {
        &&& (self.num_of_bits == 1 || self.num_of_bits == 2 || self.num_of_bits == 4
            || self.num_of_bits == 8 || self.num_of_bits == 16 || self.num_of_bits == 32)
        &&& self.log_min_obj_size <= 30
        &&& self.offset <= 0x1_0000_0000_0000
    }

    /// The address of the metadata byte that describes `addr`.
    pub open spec fn meta_address(&self, addr: u64) -> int {
        self.offset + (addr as int / pow2(self.log_min_obj_size as nat) as int) * self.num_of_bits / 8
    }

    /// The position of `addr`'s bits within their byte, for kinds under 8 bits.
    pub open spec fn lshift(&self, addr: u64) -> int {
        if self.num_of_bits >= 8 {
            0
        } else {
            ((addr as int / pow2(self.log_min_obj_size as nat) as int) % (8int / self.num_of_bits as int))
                * self.num_of_bits
        }
    }

    /// The number of values a field can take.
    pub open spec fn modulus(&self) -> int {
        pow2(self.num_of_bits as nat) as int
    }
}

/// The value that `spec` holds for `addr` in metadata memory `mem`.
pub open spec fn field_value(mem: Map<u64, u64>, spec: MetadataSpec, addr: u64) -> u64 {
    let w = word_at(mem, spec.meta_address(addr) as u64);
    if spec.num_of_bits >= 8 {
        (w as int % spec.modulus()) as u64
    } else {
        ((w >> spec.lshift(addr) as u64) & ((1u64 << spec.num_of_bits) - 1) as u64) as u64
    }
}

fn bits_log(bits: u64) -> (r: u64)
    requires
        bits == 1 || bits == 2 || bits == 4 || bits == 8 || bits == 16 || bits == 32,
    ensures
        r == log_bits(bits),
        pow2(r as nat) == bits,
{
    proof {
        vstd::arithmetic::power2::lemma2_to64();
    }
    if bits == 1 {
        0
    } else if bits == 2 {
        1
    } else if bits == 4 {
        2
    } else if bits == 8 {
        3
    } else if bits == 16 {
        4
    } else {
        5
    }
}

fn field_modulus(bits: u64) -> (r: u64)
    requires
        bits == 1 || bits == 2 || bits == 4 || bits == 8 || bits == 16 || bits == 32,
    ensures
        r == pow2(bits as nat),
        r == 1u64 << bits,
        r >= 2,
{
    proof {
        vstd::arithmetic::power2::lemma2_to64();
        assert(1u64 << 1u64 == 2) by (bit_vector);
        assert(1u64 << 2u64 == 4) by (bit_vector);
        assert(1u64 << 4u64 == 16) by (bit_vector);
        assert(1u64 << 8u64 == 256) by (bit_vector);
        assert(1u64 << 16u64 == 65536) by (bit_vector);
        assert(1u64 << 32u64 == 4294967296) by (bit_vector);
    }
    if bits == 1 {
        2
    } else if bits == 2 {
        4
    } else if bits == 4 {
        16
    } else if bits == 8 {
        256
    } else if bits == 16 {
        65536
    } else {
        4294967296
    }
}

/// The address of the metadata byte that describes `data_addr`.
pub fn address_to_meta_address(spec: MetadataSpec, data_addr: Address) -> (r: Address)
    requires
        spec.valid(),
        data_addr.value < 0x1_0000_0000_0000,
    ensures
        r.value == spec.meta_address(data_addr.value),
{
    let granule = data_addr.value >> spec.log_min_obj_size;
    proof {
        lemma_u64_shr_is_div(data_addr.value, spec.log_min_obj_size);
        lemma_pow2_pos(spec.log_min_obj_size as nat);
        assert(granule <= data_addr.value) by (nonlinear_arith)
            requires
                granule == data_addr.value as nat / pow2(spec.log_min_obj_size as nat),
                pow2(spec.log_min_obj_size as nat) > 0,
        ;
        assert(granule * spec.num_of_bits <= 0x1_0000_0000_0000 * 32) by (nonlinear_arith)
            requires
                granule < 0x1_0000_0000_0000,
                spec.num_of_bits <= 32,
        ;
    }
    Address::from_u64(spec.offset + granule * spec.num_of_bits / 8)
}

/// The mask that selects one value of a kind within its byte.
pub fn meta_byte_mask(spec: MetadataSpec) -> (r: u8)
    requires
        spec.valid(),
    ensures
        r == if spec.num_of_bits >= 8 {
            255
        } else {
            pow2(spec.num_of_bits as nat) - 1
        },
{
    proof {
        vstd::arithmetic::power2::lemma2_to64();
    }
    if spec.num_of_bits >= 8 {
        255
    } else {
        (field_modulus(spec.num_of_bits) - 1) as u8
    }
}

/// The position of the bits for `data_addr` within their metadata byte.
pub fn meta_byte_lshift(spec: MetadataSpec, data_addr: Address) -> (r: u8)
    requires
        spec.valid(),
    ensures
        r == spec.lshift(data_addr.value),
        spec.num_of_bits < 8 ==> r + spec.num_of_bits <= 8 && r < 8,
{
    if spec.num_of_bits >= 8 {
        return 0;
    }
    let granule = data_addr.value >> spec.log_min_obj_size;
    proof {
        lemma_u64_shr_is_div(data_addr.value, spec.log_min_obj_size);
    }
    let per_byte: u64 = if spec.num_of_bits == 1 {
        8
    } else if spec.num_of_bits == 2 {
        4
    } else {
        2
    };
    assert(per_byte * spec.num_of_bits == 8);
    assert(per_byte == 8int / spec.num_of_bits as int) by (nonlinear_arith)
        requires
            per_byte * spec.num_of_bits == 8,
            spec.num_of_bits > 0,
    ;
    let rem = granule % per_byte;
    proof {
        assert(rem * spec.num_of_bits + spec.num_of_bits <= 8) by (nonlinear_arith)
            requires
                rem < per_byte,
                per_byte * spec.num_of_bits == 8,
        ;
    }
    let r = rem * spec.num_of_bits;
    r as u8
}

/// The bytes of address space that the table of a kind occupies.
pub fn metadata_address_range_size(spec: MetadataSpec) -> (r: u64)
    requires
        spec.valid(),
    ensures
        r == pow2((LOG_ADDRESS_SPACE - spec.log_min_obj_size - 3 + log_bits(spec.num_of_bits)) as nat),
{
    let log = LOG_ADDRESS_SPACE - spec.log_min_obj_size - 3 + bits_log(spec.num_of_bits);
    proof {
        vstd::bits::lemma_u64_pow2_no_overflow(log as nat);
        vstd::bits::lemma_u64_shl_is_mul(1, log);
    }
    1u64 << log
}

/// The addresses of metadata memory, with the data ranges whose
/// metadata is mapped. Metadata memory reads 0 where it was never written.
pub struct SideMetadata {
    pub context: SideMetadataContext,
    pub mapped: Vec<(u64, u64)>,
    pub memory: WordTable,
}

/// Why metadata space could not be mapped.
#[derive(Clone, Copy, Debug, PartialEq, Eq, Structural)]
pub enum MetadataError {
    EmptyRange,
}

pub open spec fn range_mapped(mapped: Seq<(u64, u64)>, addr: u64) -> bool {
    exists|i: int| 0 <= i < mapped.len() && (#[trigger] mapped[i]).0 <= addr < mapped[i].1
}

impl SideMetadata {
    pub fn new(context: SideMetadataContext) -> (r: SideMetadata)
        ensures
            r.mapped@.len() == 0,
            r.memory.view() == Map::<u64, u64>::empty(),
    {
        SideMetadata { context, mapped: Vec::new(), memory: WordTable::new() }
    }

    pub fn get_context(&self) -> (r: &SideMetadataContext)
        ensures
            r == &self.context,
    {
        &self.context
    }

    /// Map the metadata of every kind for the data range `[start, start + size)`.
    pub fn try_map_metadata_space(&mut self, start: Address, size: u64) -> (r: Result<
        (),
        MetadataError,
    >)
        ensures
            r.is_ok() <==> (size > 0 && start.value + size <= u64::MAX),
            r.is_ok() ==> final(self).mapped@ == old(self).mapped@.push(
                (start.value, (start.value + size) as u64),
            ),
            r.is_err() ==> final(self).mapped@ == old(self).mapped@,
            final(self).memory == old(self).memory,
    {
        if size == 0 || start.value > u64::MAX - size {
            return Err(MetadataError::EmptyRange);
        }
        let end = start.value + size;
        self.mapped.push((start.value, end));
        Ok(())
    }

    /// Unmap the metadata of the data range `[start, start + size)` that
    /// was mapped as one range.
    pub fn ensure_unmap_metadata_space(&mut self, start: Address, size: u64)
        ensures
            final(self).memory == old(self).memory,
            forall|i: int|
                0 <= i < final(self).mapped@.len() ==> old(self).mapped@.contains(
                    #[trigger] final(self).mapped@[i],
                ),
            forall|i: int|
                0 <= i < final(self).mapped@.len() ==> #[trigger] final(self).mapped@[i].0
                    != start.value,
            forall|i: int|
                0 <= i < old(self).mapped@.len() && #[trigger] old(self).mapped@[i].0 != start.value
                    ==> final(self).mapped@.contains(old(self).mapped@[i]),
    {
        let mut kept: Vec<(u64, u64)> = Vec::new();
        let mut i: usize = 0;
        while i < self.mapped.len()
            invariant
                i <= self.mapped@.len(),
                self.mapped@ == old(self).mapped@,
                self.memory == old(self).memory,
                forall|k: int| 0 <= k < kept@.len() ==> old(self).mapped@.contains(#[trigger] kept@[k]),
                forall|k: int| 0 <= k < kept@.len() ==> #[trigger] kept@[k].0 != start.value,
                forall|k: int|
                    0 <= k < i && #[trigger] old(self).mapped@[k].0 != start.value ==> kept@.contains(
                        old(self).mapped@[k],
                    ),
            decreases self.mapped@.len() - i,
        {
            let (s, e) = self.mapped[i];
            if s != start.value {
                proof {
                    assert(old(self).mapped@[i as int] == (s, e));
                }
                let ghost before = kept@;
                kept.push((s, e));
                proof {
                    assert(kept@[before.len() as int] == (s, e));
                    assert forall|k: int|
                        0 <= k < i + 1 && #[trigger] old(self).mapped@[k].0 != start.value
                            implies kept@.contains(old(self).mapped@[k]) by {
                        if k < i {
                            let j = choose|j: int| 0 <= j < before.len() && before[j] == old(self).mapped@[k];
                            assert(kept@[j] == old(self).mapped@[k]);
                        }
                    }
                }
            }
            i = i + 1;
        }
        self.mapped = kept;
    }
}

/// Whether the metadata of `spec` for `data_addr` is mapped.
pub fn ensure_metadata_is_mapped(metadata: &SideMetadata, spec: MetadataSpec, data_addr: Address) -> (r:
    bool)
    ensures
        r == range_mapped(metadata.mapped@, data_addr.value),
{
    let mut i: usize = 0;
    while i < metadata.mapped.len()
        invariant
            i <= metadata.mapped@.len(),
            forall|k: int|
                0 <= k < i ==> !((#[trigger] metadata.mapped@[k]).0 <= data_addr.value < metadata.mapped@[k].1),
        decreases metadata.mapped@.len() - i,
    {
        let (s, e) = metadata.mapped[i];
        if s <= data_addr.value && data_addr.value < e {
            return true;
        }
        i = i + 1;
    }
    false
}

/// The value that `spec` holds for `data_addr`.
pub fn load_atomic(metadata: &SideMetadata, spec: MetadataSpec, data_addr: Address) -> (r: u64)
    requires
        spec.valid(),
        data_addr.value < 0x1_0000_0000_0000,
    ensures
        r == field_value(metadata.memory.view(), spec, data_addr.value),
{
    let meta = address_to_meta_address(spec, data_addr);
    let w = metadata.memory.read(meta.value);
    if spec.num_of_bits >= 8 {
        w % field_modulus(spec.num_of_bits)
    } else {
        let shift = meta_byte_lshift(spec, data_addr) as u64;
        let m = field_modulus(spec.num_of_bits);
        (w >> shift) & (m - 1)
    }
}

/// Write `value` as the value of `spec` for `data_addr`, leaving every
/// other value in metadata memory as it was.
fn store_field(metadata: &mut SideMetadata, spec: MetadataSpec, data_addr: Address, value: u64)
    requires
        spec.valid(),
        data_addr.value < 0x1_0000_0000_0000,
        value < spec.modulus(),
    ensures
        field_value(final(metadata).memory.view(), spec, data_addr.value) == value,
        final(metadata).mapped == old(metadata).mapped,
        ({
            let key = spec.meta_address(data_addr.value) as u64;
            let w = word_at(old(metadata).memory.view(), key);
            let nw = word_at(final(metadata).memory.view(), key);
            &&& final(metadata).memory.view() == old(metadata).memory.view().insert(key, nw)
            &&& spec.num_of_bits < 8 ==> {
                let mask = ((1u64 << spec.num_of_bits) - 1) as u64;
                let s = spec.lshift(data_addr.value) as u64;
                nw & !(mask << s) == w & !(mask << s)
            }
        }),
{
    let meta = address_to_meta_address(spec, data_addr);
    let m = field_modulus(spec.num_of_bits);
    if spec.num_of_bits >= 8 {
        metadata.memory.write(meta.value, value);
        proof {
            assert(value as int % spec.modulus() == value) by (nonlinear_arith)
                requires value < spec.modulus();
        }
    } else {
        let w = metadata.memory.read(meta.value);
        let s = meta_byte_lshift(spec, data_addr) as u64;
        let mask = m - 1;
        let b = spec.num_of_bits;
        let nw = (w & !(mask << s)) | (value << s);
        proof {
            assert(((nw >> s) & mask) == value && nw & !(mask << s) == w & !(mask << s))
                by (bit_vector)
                requires
                    s < 8,
                    b <= 4,
                    s + b <= 8,
                    m == 1u64 << b,
                    mask == vstd::prelude::sub(m, 1),
                    value < m,
                    nw == (w & !(mask << s)) | (value << s),
            ;
        }
        metadata.memory.write(meta.value, nw);
    }
}

/// Add `val` to the value of `spec` for `data_addr`, wrapping around;
/// returns the value before.
pub fn fetch_add_atomic(metadata: &mut SideMetadata, spec: MetadataSpec, data_addr: Address, val: u64) -> (r:
    u64)
    requires
        spec.valid(),
        data_addr.value < 0x1_0000_0000_0000,
    ensures
        r == field_value(old(metadata).memory.view(), spec, data_addr.value),
        field_value(final(metadata).memory.view(), spec, data_addr.value) == (r as int + val as int
            % spec.modulus()) % spec.modulus(),
        final(metadata).mapped == old(metadata).mapped,
        final(metadata).memory.view() == old(metadata).memory.view().insert(
            spec.meta_address(data_addr.value) as u64,
            word_at(final(metadata).memory.view(), spec.meta_address(data_addr.value) as u64),
        ),
        spec.num_of_bits < 8 ==> {
            let key = spec.meta_address(data_addr.value) as u64;
            let mask = ((1u64 << spec.num_of_bits) - 1) as u64;
            let s = spec.lshift(data_addr.value) as u64;
            word_at(final(metadata).memory.view(), key) & !(mask << s) == word_at(
                old(metadata).memory.view(),
                key,
            ) & !(mask << s)
        },
{
    let old_value = load_atomic(metadata, spec, data_addr);
    let m = field_modulus(spec.num_of_bits);
    proof {
        vstd::arithmetic::power2::lemma2_to64();
        if spec.num_of_bits < 8 {
            let w = word_at(old(metadata).memory.view(), spec.meta_address(data_addr.value) as u64);
            let s = spec.lshift(data_addr.value) as u64;
            assert((w >> s) & vstd::prelude::sub(m, 1) < m) by (bit_vector)
                requires m >= 2, m <= 16;
        }
    }
    assert(old_value < m);
    let new_value = (old_value + val % m) % m;
    store_field(metadata, spec, data_addr, new_value);
    old_value
}

/// Subtract `val` from the value of `spec` for `data_addr`, wrapping
/// around; returns the value before.
pub fn fetch_sub_atomic(metadata: &mut SideMetadata, spec: MetadataSpec, data_addr: Address, val: u64) -> (r:
    u64)
    requires
        spec.valid(),
        data_addr.value < 0x1_0000_0000_0000,
    ensures
        r == field_value(old(metadata).memory.view(), spec, data_addr.value),
        field_value(final(metadata).memory.view(), spec, data_addr.value) == (r as int
            + spec.modulus() - val as int % spec.modulus()) % spec.modulus(),
        final(metadata).mapped == old(metadata).mapped,
        final(metadata).memory.view() == old(metadata).memory.view().insert(
            spec.meta_address(data_addr.value) as u64,
            word_at(final(metadata).memory.view(), spec.meta_address(data_addr.value) as u64),
        ),
        spec.num_of_bits < 8 ==> {
            let key = spec.meta_address(data_addr.value) as u64;
            let mask = ((1u64 << spec.num_of_bits) - 1) as u64;
            let s = spec.lshift(data_addr.value) as u64;
            word_at(final(metadata).memory.view(), key) & !(mask << s) == word_at(
                old(metadata).memory.view(),
                key,
            ) & !(mask << s)
        },
{
    let old_value = load_atomic(metadata, spec, data_addr);
    let m = field_modulus(spec.num_of_bits);
    proof {
        vstd::arithmetic::power2::lemma2_to64();
        if spec.num_of_bits < 8 {
            let w = word_at(old(metadata).memory.view(), spec.meta_address(data_addr.value) as u64);
            let s = spec.lshift(data_addr.value) as u64;
            assert((w >> s) & vstd::prelude::sub(m, 1) < m) by (bit_vector)
                requires m >= 2, m <= 16;
        }
    }
    assert(old_value < m);
    let new_value = (old_value + (m - val % m)) % m;
    store_field(metadata, spec, data_addr, new_value);
    old_value
}

/// Zero the metadata bytes of `spec` for the data range `[start, start + size)`.
pub fn bzero_metadata(metadata: &mut SideMetadata, spec: MetadataSpec, start: Address, size: u64)
    requires
        spec.valid(),
        start.value + size < 0x1_0000_0000_0000,
    ensures
        final(metadata).mapped == old(metadata).mapped,
        forall|k: u64|
            #![trigger word_at(final(metadata).memory.view(), k)]
            word_at(final(metadata).memory.view(), k) == if spec.meta_address(start.value) <= k
                < spec.meta_address((start.value + size) as u64) {
                0
            } else {
                word_at(old(metadata).memory.view(), k)
            },
{
    let first = address_to_meta_address(spec, start).value;
    let last = address_to_meta_address(spec, Address::from_u64(start.value + size)).value;
    let mut k = first;
    while k < last
        invariant
            first <= k,
            k == first || k <= last,
            first == spec.meta_address(start.value),
            last == spec.meta_address((start.value + size) as u64),
            metadata.mapped == old(metadata).mapped,
            forall|j: u64|
                #![trigger word_at(metadata.memory.view(), j)]
                word_at(metadata.memory.view(), j) == if first <= j < k {
                    0
                } else {
                    word_at(old(metadata).memory.view(), j)
                },
        decreases last - k,
    {
        let ghost prev = metadata.memory.view();
        metadata.memory.write(k, 0);
        proof {
            assert forall|j: u64|
                #![trigger word_at(metadata.memory.view(), j)]
                word_at(metadata.memory.view(), j) == if first <= j < k + 1 {
                    0
                } else {
                    word_at(old(metadata).memory.view(), j)
                } by {
                if j != k {
                    assert(word_at(metadata.memory.view(), j) == word_at(prev, j));
                }
            }
        }
        k = k + 1;
    }
}

/// Checks that the kinds of metadata in use do not overlap.
pub struct SideMetadataSanity {
    pub global: Vec<MetadataSpec>,
    pub local: Vec<MetadataSpec>,
}

/// The end of the table of `spec`.
pub open spec fn table_end(spec: MetadataSpec) -> int {
    spec.offset + pow2((LOG_ADDRESS_SPACE - spec.log_min_obj_size - 3 + log_bits(spec.num_of_bits)) as nat)
}

pub open spec fn tables_disjoint(a: MetadataSpec, b: MetadataSpec) -> bool {
    table_end(a) <= b.offset || table_end(b) <= a.offset
}

/// Every kind of `specs` lies on the side within `[lo, hi)`, in scope
/// `scope`, and no two tables overlap.
/// The kind lies on the side within `[lo, hi)`, in scope `scope`.
pub open spec fn in_area(s: MetadataSpec, scope: MetadataScope, lo: int, hi: int) -> bool {
    &&& s.valid()
    &&& s.is_on_side
    &&& s.scope == scope
    &&& lo <= s.offset
    &&& table_end(s) <= hi
}

pub open spec fn specs_sane(specs: Seq<MetadataSpec>, scope: MetadataScope, lo: int, hi: int) -> bool {
    &&& forall|i: int| 0 <= i < specs.len() ==> in_area(#[trigger] specs[i], scope, lo, hi)
    &&& forall|i: int, j: int|
        0 <= i < j < specs.len() ==> tables_disjoint(#[trigger] specs[i], #[trigger] specs[j])
}

fn check_specs(specs: &Vec<MetadataSpec>, scope: MetadataScope, lo: u64, hi: u64) -> (r: bool)
    ensures
        r == specs_sane(specs@, scope, lo as int, hi as int),
{
    let n = specs.len();
    let mut i: usize = 0;
    while i < n
        invariant
            i <= n,
            n == specs@.len(),
            forall|k: int|
                0 <= k < i ==> in_area(#[trigger] specs@[k], scope, lo as int, hi as int),
            forall|a: int, b: int|
                0 <= a < b < i ==> tables_disjoint(#[trigger] specs@[a], #[trigger] specs@[b]),
        decreases n - i,
    {
        let s = specs[i];
        if !(s.num_of_bits == 1 || s.num_of_bits == 2 || s.num_of_bits == 4 || s.num_of_bits == 8
            || s.num_of_bits == 16 || s.num_of_bits == 32) || s.log_min_obj_size > 30 || s.offset
            > 0x1_0000_0000_0000 {
            assert(specs@[i as int] == s);
            assert(!specs@[i as int].valid());
            assert(!in_area(specs@[i as int], scope, lo as int, hi as int));
            assert(!specs_sane(specs@, scope, lo as int, hi as int));
            return false;
        }
        assert(specs@[i as int] == s);
        assert(specs@[i as int].valid());
        if !s.is_on_side || s.scope != scope || s.offset < lo {
            assert(!in_area(specs@[i as int], scope, lo as int, hi as int));
            assert(!specs_sane(specs@, scope, lo as int, hi as int));
            return false;
        }
        let size = metadata_address_range_size(s);
        if size > hi || s.offset > hi - size {
            assert(table_end(specs@[i as int]) > hi);
            assert(!in_area(specs@[i as int], scope, lo as int, hi as int));
            assert(!specs_sane(specs@, scope, lo as int, hi as int));
            return false;
        }
        let mut j: usize = 0;
        while j < i
            invariant
                j <= i < n,
                n == specs@.len(),
                s == specs@[i as int],
                size == table_end(s) - s.offset,
                s.offset + size <= hi,
                forall|k: int|
                    0 <= k < i ==> in_area(#[trigger] specs@[k], scope, lo as int, hi as int),
                forall|a: int, b: int|
                    0 <= a < b < i ==> tables_disjoint(#[trigger] specs@[a], #[trigger] specs@[b]),
                s.valid(),
                s.is_on_side,
                s.scope == scope,
                lo <= s.offset,
                forall|b: int| 0 <= b < j ==> tables_disjoint(#[trigger] specs@[b], s),
            decreases i - j,
        {
            let t = specs[j];
            assert(specs@[j as int].valid());
            let tsize = metadata_address_range_size(t);
            let disjoint = (t.offset <= u64::MAX - tsize && t.offset + tsize <= s.offset) || s.offset
                + size <= t.offset;
            if !disjoint {
                assert(!tables_disjoint(specs@[j as int], specs@[i as int]));
                return false;
            }
            j = j + 1;
        }
        proof {
            assert(in_area(specs@[i as int], scope, lo as int, hi as int));
            assert forall|a: int, b: int|
                0 <= a < b < i + 1 implies tables_disjoint(#[trigger] specs@[a], #[trigger] specs@[b]) by {
                if b == i {
                    assert(tables_disjoint(specs@[a], s));
                }
            }
        }
        i = i + 1;
    }
    true
}

impl SideMetadataSanity {
    pub fn new() -> (r: SideMetadataSanity)
        ensures
            r.global@.len() == 0,
            r.local@.len() == 0,
    {
        SideMetadataSanity { global: Vec::new(), local: Vec::new() }
    }

    pub fn reset(&mut self)
        ensures
            final(self).global@.len() == 0,
            final(self).local@.len() == 0,
    {
        self.global = Vec::new();
        self.local = Vec::new();
    }

    /// Check the metadata that a policy uses: the global kinds lie in the
    /// global area, the policy's kinds in the local area, and no two
    /// tables overlap. The kinds are recorded on success.
    pub fn verify_metadata_context(&mut self, policy_name: &str, context: &SideMetadataContext) -> (r:
        bool)
        ensures
            r == (specs_sane(
                context.global@,
                MetadataScope::Global,
                GLOBAL_SIDE_METADATA_BASE_ADDRESS as int,
                LOCAL_SIDE_METADATA_BASE_ADDRESS as int,
            ) && specs_sane(
                context.local@,
                MetadataScope::PolicySpecific,
                LOCAL_SIDE_METADATA_BASE_ADDRESS as int,
                LOCAL_SIDE_METADATA_END_ADDRESS as int,
            )),
    {
        let ok = check_specs(
            &context.global,
            MetadataScope::Global,
            GLOBAL_SIDE_METADATA_BASE_ADDRESS,
            LOCAL_SIDE_METADATA_BASE_ADDRESS,
        ) && check_specs(
            &context.local,
            MetadataScope::PolicySpecific,
            LOCAL_SIDE_METADATA_BASE_ADDRESS,
            LOCAL_SIDE_METADATA_END_ADDRESS,
        );
        if ok {
            let mut i: usize = 0;
            while i < context.global.len()
                invariant
                    i <= context.global@.len(),
                decreases context.global@.len() - i,
            {
                self.global.push(context.global[i]);
                i = i + 1;
            }
            let mut i: usize = 0;
            while i < context.local.len()
                invariant
                    i <= context.local@.len(),
                decreases context.local@.len() - i,
            {
                self.local.push(context.local[i]);
                i = i + 1;
            }
        }
        ok
    }
}

} // verus!
