//! Population count and powers of two on 64-bit words.
use vstd::prelude::*;
use vstd::std_specs::bits::{axiom_u64_trailing_zeros, u64_trailing_zeros};
use crate::tnum::wrap;

verus! {

/// The number of one bits of `x`.
pub open spec fn pop(x: u64) -> nat
    decreases x,
{
    if x == 0 {
        0
    } else {
        (x % 2) as nat + pop(x / 2)
    }
}

proof fn lemma_bit_step(x: u64, k: u64, w: u64)
    by (bit_vector)
    ensures
        x >> 1u64 == x / 2,
        x & 1 == x % 2,
        k < 64 ==> (x >> k) >> 1u64 == x >> ((k + 1) as u64),
        x >> 64u64 == 0,
        x >> 0u64 == x,
        (x != 0 && x & 1 == 0 && w == x >> 1u64 && w & ((w - 1) as u64) == 0) ==> x & ((x - 1) as u64) == 0,
        (x != 0 && x & ((x - 1) as u64) == 0 && k < 64 && (x >> k) & 1 == 1) ==> x == 1u64 << k,
{
}

/// A word holds at most 64 one bits, and only the zero word holds none.
pub proof fn lemma_pop_bounds(x: u64)
    ensures
        pop(x) <= 64,
        pop(x) == 0 <==> x == 0,
{
    lemma_pop_prefix(x, 0);
    lemma_bit_step(x, 0, 0);
}

proof fn lemma_pop_prefix(x: u64, k: u64)
    requires
        k <= 64,
    ensures
        pop(x >> k) <= 64 - k,
        pop(x >> k) == 0 <==> x >> k == 0,
    decreases 64 - k,
{
    lemma_bit_step(x, k, 0);
    let y = x >> k;
    lemma_bit_step(y, 0, 0);
    if k < 64 {
        lemma_pop_prefix(x, (k + 1) as u64);
        assert(y >> 1u64 == x >> ((k + 1) as u64));
    } else {
        assert(y == 0);
    }
}

/// Counts the one bits of `x`.
pub fn popcount(x: u64) -> (r: u32)
    ensures
        r == pop(x),
{
    let mut n: u32 = 0;
    let mut y = x;
    let ghost mut k: u64 = 0;
    proof {
        lemma_bit_step(x, 0, 0);
    }
    while y != 0
        invariant
            k <= 64,
            y == x >> k,
            n <= k,
            pop(x) == n + pop(y),
        decreases 64 - k,
    {
        proof {
            lemma_bit_step(x, k, 0);
            lemma_bit_step(y, 0, 0);
            if k == 64 {
                assert(y == 0);
            }
        }
        n = n + (y & 1) as u32;
        y = y >> 1;
        proof {
            k = (k + 1) as u64;
        }
    }
    n
}

/// A word with a single one bit is a power of two, the bit standing at its count of
/// trailing zeros.
pub proof fn lemma_single_bit(v: u64)
    requires
        pop(v) == 1,
    ensures
        u64_trailing_zeros(v) < 64,
        v == 1u64 << (u64_trailing_zeros(v) as u64),
{
    lemma_pop_power(v);
    axiom_u64_trailing_zeros(v);
    lemma_bit_step(v, u64_trailing_zeros(v) as u64, 0);
}

proof fn lemma_pop_power(v: u64)
    requires
        pop(v) == 1,
    ensures
        v != 0,
        v & ((v - 1) as u64) == 0,
    decreases v,
{
    lemma_bit_step(v, 0, 0);
    lemma_pop_bounds(v / 2);
    if v % 2 == 1 {
        assert(v == 1);
        assert(1u64 & 0u64 == 0) by (bit_vector);
    } else {
        lemma_pop_power(v / 2);
        lemma_bit_step(v, 0, v / 2);
    }
}

/// The recursion of `pop` holds at zero as well.
pub proof fn lemma_pop_unfold(x: u64)
    ensures
        pop(x) == (x % 2) as nat + pop(x / 2),
{
}

proof fn lemma_clear_bits(w: u64, k: u64)
    by (bit_vector)
    ensures
        (w & 1 == 1) ==> (w & !(1u64 << 0u64)) == ((w - 1) as u64) && ((w - 1) as u64) / 2 == w / 2
            && ((w - 1) as u64) % 2 == 0 && w % 2 == 1,
        (0 < k < 64) ==> (w & !(1u64 << k)) % 2 == w % 2,
        (0 < k < 64) ==> (w & !(1u64 << k)) / 2 == (w / 2) & !(1u64 << ((k - 1) as u64)),
        (0 < k < 64 && (w >> k) & 1 == 1) ==> ((w / 2) >> ((k - 1) as u64)) & 1 == 1,
        w >> 0u64 == w,
{
}

/// Clearing a set bit takes one from the count of one bits.
pub proof fn lemma_pop_clear(w: u64, k: u64)
    requires
        k < 64,
        (w >> k) & 1 == 1,
    ensures
        pop(w & !(1u64 << k)) + 1 == pop(w),
    decreases k,
{
    lemma_clear_bits(w, k);
    let c = w & !(1u64 << k);
    lemma_pop_unfold(w);
    lemma_pop_unfold(c);
    if k > 0 {
        lemma_pop_clear(w / 2, (k - 1) as u64);
    }
}

proof fn lemma_shift_zero_bits(w: u64, k: u64)
    by (bit_vector)
    requires
        0 < k <= 64,
        w == (w >> k) << k,
    ensures
        w & 1 == 0,
        w / 2 == w >> 1u64,
        w >> 1u64 == ((w >> 1u64) >> ((k - 1) as u64)) << ((k - 1) as u64),
        (w >> 1u64) >> ((k - 1) as u64) == w >> k,
{
}

/// Shifting out bits that are all zero keeps the count of one bits.
proof fn lemma_pop_shift_zero(w: u64, k: u64)
    requires
        k <= 64,
        w == (w >> k) << k,
    ensures
        pop(w >> k) == pop(w),
    decreases k,
{
    lemma_clear_bits(w, 0);
    if k > 0 {
        lemma_shift_zero_bits(w, k);
        lemma_pop_unfold(w);
        lemma_bit_step(w, 0, 0);
        lemma_pop_shift_zero(w >> 1u64, (k - 1) as u64);
    }
}

proof fn lemma_lowest_bits(m: u64, t: u64)
    by (bit_vector)
    requires
        t < 64,
        (m >> t) & 1 == 1,
        m << ((64 - t) as u64) == 0,
    ensures
        ({
            let c = m & !(1u64 << t);
            &&& c == (c >> ((t + 1) as u64)) << ((t + 1) as u64)
            &&& m >> ((t + 1) as u8) == c >> ((t + 1) as u64)
        }),
{
}

/// Dropping the lowest one bit of a nonzero word, and the zeros below it, takes one from
/// its count of one bits.
pub proof fn lemma_pop_drop_lowest(m: u64)
    requires
        m != 0,
    ensures
        u64_trailing_zeros(m) < 64,
        pop(m >> ((u64_trailing_zeros(m) + 1) as u8)) + 1 == pop(m),
{
    axiom_u64_trailing_zeros(m);
    let t = u64_trailing_zeros(m) as u64;
    lemma_lowest_bits(m, t);
    lemma_pop_clear(m, t);
    lemma_pop_shift_zero(m & !(1u64 << t), (t + 1) as u64);
}

/// Multiplying by a power of two is shifting left by its exponent.
pub proof fn lemma_mul_pow2(k: u64, y: u64)
    by (bit_vector)
    requires
        k < 64,
    ensures
        wrap((1u64 << k) * y) == y << k,
{
}

} // verus!
