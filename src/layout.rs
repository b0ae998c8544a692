use vstd::prelude::*;

use crate::address::Address;

verus! {

pub const LOG_BYTES_IN_PAGE: u64 = 12;
pub const BYTES_IN_PAGE: u64 = 4096;
pub const LOG_BYTES_IN_CHUNK: u64 = 22;
pub const BYTES_IN_CHUNK: u64 = 4194304;
pub const PAGES_IN_CHUNK: u64 = 1024;
pub const LOG_BYTES_IN_MBYTE: u64 = 20;
pub const BYTES_IN_MBYTE: u64 = 1048576;
pub const LOG_BYTES_IN_WORD: u64 = 3;
pub const LOG_BITS_IN_BYTE: u64 = 3;
/// Number of address bits that the heap and its metadata may use.
pub const LOG_ADDRESS_SPACE: u64 = 47;
/// The lowest address of the heap.
pub const HEAP_START: u64 = 0x0000_0200_0000_0000;
/// The address just above the heap.
pub const HEAP_END: u64 = 0x0000_2200_0000_0000;
/// Bytes of address space between the heap's start and its end.
pub const AVAILABLE_BYTES: u64 = 0x0000_2000_0000_0000;

/// Round a byte count to a whole number of chunks, down or up.
pub open spec fn chunk_align_spec(bytes: int, down: bool) -> int {
    if down || bytes % (BYTES_IN_CHUNK as int) == 0 {
        bytes - bytes % (BYTES_IN_CHUNK as int)
    } else {
        bytes - bytes % (BYTES_IN_CHUNK as int) + BYTES_IN_CHUNK as int
    }
}

pub open spec fn is_chunk_aligned(bytes: int) -> bool {
    bytes % (BYTES_IN_CHUNK as int) == 0
}

pub fn raw_chunk_align(bytes: u64, down: bool) -> (r: u64)
    requires
        down || bytes + BYTES_IN_CHUNK <= u64::MAX,
    ensures
        r == chunk_align_spec(bytes as int, down),
        is_chunk_aligned(r as int),
{
    let rem = bytes % BYTES_IN_CHUNK;
    if down || rem == 0 {
        bytes - rem
    } else {
        bytes - rem + BYTES_IN_CHUNK
    }
}

pub fn chunk_align(addr: Address, down: bool) -> (r: Address)
    requires
        down || addr.value + BYTES_IN_CHUNK <= u64::MAX,
    ensures
        r.value == chunk_align_spec(addr.value as int, down),
{
    Address { value: raw_chunk_align(addr.value, down) }
}

pub fn pages_to_bytes(pages: u64) -> (r: u64)
    requires
        pages * BYTES_IN_PAGE <= u64::MAX,
    ensures
        r == pages * BYTES_IN_PAGE,
{
    pages * BYTES_IN_PAGE
}

pub fn bytes_to_pages_up(bytes: u64) -> (r: u64)
    requires
        bytes + BYTES_IN_PAGE <= u64::MAX,
    ensures
        r == (bytes + BYTES_IN_PAGE - 1) / (BYTES_IN_PAGE as int),
{
    (bytes + BYTES_IN_PAGE - 1) / BYTES_IN_PAGE
}

/// The number of whole chunks that `pages` pages occupy.
pub fn required_chunks(pages: u64) -> (r: u64)
    requires
        pages <= 0x0000_0100_0000_0000,
    ensures
        r == (pages + PAGES_IN_CHUNK - 1) / (PAGES_IN_CHUNK as int),
{
    let bytes = pages_to_bytes(pages);
    let extent = raw_chunk_align(bytes, false);
    let r = extent / BYTES_IN_CHUNK;
    assert(r == (pages + 1023) / 1024) by (nonlinear_arith)
        requires
            bytes == pages * 4096,
            extent == chunk_align_spec(bytes as int, false),
            r == extent / 4194304,
    ;
    r
}

} // verus!
