//! Reading and writing the low-order bits of a byte.
use vstd::prelude::*;

verus! {

/// A byte whose `n` lowest bits are set (all eight when `n >= 8`).
pub open spec fn low_mask(n: u8) -> u8 {
    if n >= 8 {
        0xffu8
    } else {
        ((1u8 << n) - 1) as u8
    }
}

/// The `count` low-order bits of `byte`, as a number.
pub open spec fn low_bits(byte: u8, count: u8) -> u8 {
    byte & low_mask(count)
}

/// `byte` with the bits `[offset, offset + count)` replaced by the `count` low
/// bits of `source`.
pub open spec fn with_bits(byte: u8, offset: u8, count: u8, source: u8) -> u8 {
    (byte & !((low_mask(count) << offset) as u8)) | (((source & low_mask(count)) << offset) as u8)
}

/// The mask of the `n` low bits.
pub fn mask_of(n: u8) -> (r: u8)
    requires
        n <= 8,
    ensures
        r == low_mask(n),
{
    if n >= 8 {
        0xff
    } else {
        assert(1u8 << n >= 1) by (bit_vector)
            requires
                n < 8,
        ;
        (1u8 << n) - 1
    }
}

/// The `count` low-order bits of `byte` (bit 0 is the least significant).
pub fn get_bits(byte: u8, count: u8) -> (r: u8)
    requires
        count <= 8,
    ensures
        r == low_bits(byte, count),
{
    byte & mask_of(count)
}

/// `byte` with the bits `[offset, offset + count)` replaced by the low `count`
/// bits of `source`; every other bit of `byte` is kept.
pub fn put_bits(byte: u8, offset: u8, count: u8, source: u8) -> (r: u8)
    requires
        offset < 8,
        offset + count <= 8,
    ensures
        r == with_bits(byte, offset, count, source),
{
    let m = mask_of(count);
    (byte & !(m << offset)) | ((source & m) << offset)
}

/// Writing `count <= n` bits at offset 0 leaves every bit at or above `n` as
/// it was.
pub proof fn lemma_with_bits_keeps_above(byte: u8, count: u8, n: u8, source: u8)
    requires
        count <= n <= 8,
    ensures
        with_bits(byte, 0, count, source) & !low_mask(n) == byte & !low_mask(n),
{
    assert(with_bits(byte, 0, count, source) & !low_mask(n) == byte & !low_mask(n))
        by (bit_vector)
        requires
            count <= n <= 8,
    ;
}

/// Reading back the bits just written at offset 0 gives the bits of `source`.
pub proof fn lemma_with_bits_reads_back(byte: u8, count: u8, source: u8)
    requires
        count <= 8,
    ensures
        low_bits(with_bits(byte, 0, count, source), count) == low_bits(source, count),
{
    assert(low_bits(with_bits(byte, 0, count, source), count) == low_bits(source, count))
        by (bit_vector)
        requires
            count <= 8,
    ;
}

/// No bits read as 0, all eight bits as the byte itself, and taking the low
/// bits twice changes nothing.
pub proof fn lemma_low_bits_edges(b: u8, n: u8)
    requires
        n <= 8,
    ensures
        low_bits(b, 0) == 0,
        low_bits(b, 8) == b,
        low_bits(low_bits(b, n), n) == low_bits(b, n),
{
    assert(low_bits(b, 0) == 0) by (bit_vector);
    assert(low_bits(b, 8) == b) by (bit_vector);
    assert(low_bits(low_bits(b, n), n) == low_bits(b, n)) by (bit_vector)
        requires
            n <= 8,
    ;
}

/// Placing the next `count` bits of `b` above its `offset` low bits gives its
/// `offset + count` low bits.
pub proof fn lemma_with_bits_extends(b: u8, offset: u8, count: u8)
    requires
        offset + count <= 8,
    ensures
        with_bits(low_bits(b, offset), offset, count, low_bits((b >> offset) as u8, count))
            == low_bits(b, (offset + count) as u8),
{
    assert(with_bits(low_bits(b, offset), offset, count, low_bits((b >> offset) as u8, count))
        == low_bits(b, (offset + count) as u8)) by (bit_vector)
        requires
            offset + count <= 8,
    ;
}

/// Pixels that carry one payload byte when each carries `k` bits: the byte's
/// bits are cut, least significant first, into chunks of `k` bits, the last
/// chunk holding what is left.
pub open spec fn chunks_per_byte(k: nat) -> nat {
    (k + 7) / k
}

/// Number of bits in chunk `j` of a byte.
pub open spec fn chunk_len(k: nat, j: nat) -> nat {
    if (j + 1) * k <= 8 {
        k
    } else {
        (8 - j * k) as nat
    }
}

/// The bits of `byte` that chunk `j` carries, as a number.
pub open spec fn chunk_bits(byte: u8, k: nat, j: nat) -> u8 {
    low_bits((byte >> ((j * k) as u8)) as u8, chunk_len(k, j) as u8)
}

/// Eight, four, three, two, two, two, two and one pixels per byte for one to
/// eight bits per pixel.
pub proof fn lemma_chunks_per_byte(k: nat)
    requires
        1 <= k <= 8,
    ensures
        1 <= chunks_per_byte(k) <= 8,
        chunks_per_byte(k) == (if k == 1 { 8nat } else if k == 2 { 4 } else if k == 3 { 3 } else if k < 8 { 2 } else { 1 }),
{
    if k == 1 {
        assert(chunks_per_byte(1) == 8);
    } else if k == 2 {
        assert(chunks_per_byte(2) == 4);
    } else if k == 3 {
        assert(chunks_per_byte(3) == 3);
    } else if k == 4 {
        assert(chunks_per_byte(4) == 2);
    } else if k == 5 {
        assert(chunks_per_byte(5) == 2);
    } else if k == 6 {
        assert(chunks_per_byte(6) == 2);
    } else if k == 7 {
        assert(chunks_per_byte(7) == 2);
    } else {
        assert(chunks_per_byte(8) == 1);
    }
}

/// Chunk `j` starts inside the byte, and the chunks end exactly at its last
/// bit.
pub proof fn lemma_chunk_geometry(k: nat, j: nat)
    requires
        1 <= k <= 8,
        j < chunks_per_byte(k),
    ensures
        j * k < 8,
        (j + 1) * k == j * k + k,
        1 <= chunk_len(k, j) <= k,
        j + 1 < chunks_per_byte(k) ==> j * k + chunk_len(k, j) == (j + 1) * k,
        j + 1 == chunks_per_byte(k) ==> j * k + chunk_len(k, j) == 8,
{
    lemma_chunks_per_byte(k);
    assert((j + 1) * k == j * k + k) by (nonlinear_arith);
    assert(j * k < 8 && ((j + 1) < chunks_per_byte(k) ==> (j + 1) * k < 8) && ((j + 1) == chunks_per_byte(k) ==> (j + 1) * k >= 8)) by (nonlinear_arith)
        requires
            1 <= k <= 8,
            j < chunks_per_byte(k),
            chunks_per_byte(k) == (if k == 1 { 8nat } else if k == 2 { 4 } else if k == 3 { 3 } else if k < 8 { 2 } else { 1 }),
    ;
}

/// Pixels needed for one payload byte with `k` bits per pixel.
pub fn pixels_per_byte(k: usize) -> (r: usize)
    requires
        1 <= k <= 8,
    ensures
        r == chunks_per_byte(k as nat),
        1 <= r <= 8,
{
    proof {
        lemma_chunks_per_byte(k as nat);
    }
    (k + 7) / k
}

/// Pixel visits that a payload of `n` bytes needs with `k` bits per pixel.
pub fn required_pixel_visits(n: usize, k: usize) -> (r: u128)
    requires
        1 <= k <= 8,
    ensures
        r == n * chunks_per_byte(k as nat),
{
    let c = pixels_per_byte(k);
    assert(n as int * c as int <= 8 * usize::MAX) by (nonlinear_arith)
        requires
            c <= 8,
    ;
    n as u128 * c as u128
}

} // verus!
