use vstd::arithmetic::div_mod::{lemma_fundamental_div_mod, lemma_mod_bound};
use vstd::prelude::*;

verus! {

/// A power of two, written as the usual bit test.
pub open spec fn pow2_u32(n: u32) -> bool {
    n != 0 && n & ((n - 1) as u32) == 0
}

/// A power of two, written as the usual bit test.
pub open spec fn pow2_u16(n: u16) -> bool {
    n != 0 && n & ((n - 1) as u16) == 0
}

/// The number of slots of `size` bytes needed to hold `len` bytes:
/// `len / size`, rounded up.
pub open spec fn div_ceil_spec(len: int, size: int) -> int
    recommends
        size >= 1,
{
    (len + size - 1) / size
}

/// Masking a counter with a power of two minus one reduces it modulo
/// that power of two.
pub proof fn lemma_pow2_mask_is_mod(t: u16, c: u16)
    requires
        pow2_u16(c),
    ensures
        t & ((c - 1) as u16) == t % c,
        t % c < c,
{
    assert(t & ((c - 1) as u16) == t % c) by (bit_vector)
        requires
            c != 0 && c & ((c - 1) as u16) == 0,
    ;
}

/// A u16 power of two is at most 2^15.
pub proof fn lemma_pow2_u16_bound(c: u16)
    requires
        pow2_u16(c),
    ensures
        c <= 0x8000,
{
    assert(c <= 0x8000) by (bit_vector)
        requires
            c != 0 && c & ((c - 1) as u16) == 0,
    ;
}

/// Masking a 32-bit counter with a 16-bit power of two minus one reduces it
/// modulo that power of two.
#[verifier::rlimit(30)]
pub proof fn lemma_pow2_mask_is_mod_u32(x: u32, c: u16)
    requires
        pow2_u16(c),
    ensures
        x & ((c - 1) as u32) == x % (c as u32),
        x % (c as u32) < c,
{
    assert(x & ((c - 1) as u32) == x % (c as u32) && x % (c as u32) < c) by (bit_vector)
        requires
            c != 0 && c & ((c - 1) as u16) == 0,
    ;
}

/// `div_ceil_spec(len, size)` is the least slot count whose capacity
/// covers `len` bytes.
pub proof fn lemma_div_ceil(len: int, size: int)
    requires
        size >= 1,
        len >= 0,
    ensures
        (div_ceil_spec(len, size) - 1) * size < len <= div_ceil_spec(len, size) * size,
        len >= 1 ==> div_ceil_spec(len, size) >= 1,
        len == 0 ==> div_ceil_spec(len, size) == 0,
{
    let x = len + size - 1;
    let k = x / size;
    lemma_fundamental_div_mod(x, size);
    lemma_mod_bound(x, size);
    assert(x == size * k + x % size);
    assert(k * size == size * k) by (nonlinear_arith);
    assert((k - 1) * size == size * k - size) by (nonlinear_arith);
    if len >= 1 {
        assert(k >= 1) by (nonlinear_arith)
            requires
                size >= 1 && len >= 1 && len <= k * size,
        ;
    }
}

/// A byte count of exactly `m` full slots needs exactly `m` slots.
pub proof fn lemma_div_ceil_exact(m: int, size: int)
    requires
        size >= 1,
        m >= 0,
    ensures
        div_ceil_spec(m * size, size) == m,
{
    lemma_div_ceil(m * size, size);
    let k = div_ceil_spec(m * size, size);
    assert(k == m) by (nonlinear_arith)
        requires
            size >= 1 && m >= 0 && (k - 1) * size < m * size <= k * size,
    ;
}

/// Rounding up to slots is monotone in the byte count and bounded by the
/// slot count whenever the byte count is bounded by the total capacity.
pub proof fn lemma_div_ceil_le(len: int, size: int, count: int)
    requires
        size >= 1,
        0 <= len <= count * size,
    ensures
        div_ceil_spec(len, size) <= count,
{
    lemma_div_ceil(len, size);
    let k = div_ceil_spec(len, size);
    assert((k - 1) * size < count * size);
    assert(k - 1 < count) by (nonlinear_arith)
        requires
            size >= 1 && (k - 1) * size < count * size,
    ;
}

} // verus!
