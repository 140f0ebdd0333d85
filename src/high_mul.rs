//! Tnum multiplication by clearing the highest possibly-one bit of the larger operand and
//! joining the products for that bit set and clear.
use vstd::prelude::*;
use vstd::std_specs::bits::axiom_u64_leading_zeros;
use crate::arith::{add_spec, lemma_add_sound, tnum_add};
use crate::bits::{lemma_mul_pow2, lemma_pop_bounds, lemma_pop_clear, pop, popcount};
use crate::bitwise::{lemma_shift_sound, lshift_spec, tnum_lshift};
use crate::mul::{lemma_wrap_add, lemma_wrap_div};
use crate::tnum::{
    bit_len, join_spec, lemma_join_sound, lemma_zero_mask, tnum_join, tv, wrap, Tnum, TnumView,
};

verus! {

/// The largest word of `a`: every possibly-one bit set.
pub open spec fn max_spec(a: TnumView) -> u64 {
    a.value | a.mask
}

/// The number of bits needed to write every word of `a`.
pub open spec fn size_spec(a: TnumView) -> u8 {
    if bit_len(a.value) < bit_len(a.mask) {
        bit_len(a.mask) as u8
    } else {
        bit_len(a.value) as u8
    }
}

/// Whether bit `pos` of `num` is set (never from bit 64 on).
pub open spec fn testbit_spec(num: u64, pos: u8) -> bool {
    pos < 64 && num & (1u64 << pos) != 0
}

/// `a` with bit `pos` cleared in value and mask.
pub open spec fn clearbit_spec(a: TnumView, pos: u8) -> TnumView {
    tv(a.value & !(1u64 << pos), a.mask & !(1u64 << pos))
}

/// The product of `x` and `y` with fuel `n`: the highest possibly-one bit of `y` is
/// cleared, the rest multiplied recursively with the larger operand second, and `x`
/// shifted to that bit added, both outcomes joined where the bit is unknown.
pub open spec fn xhigh_spec(x: TnumView, y: TnumView, n: u8) -> TnumView
    decreases n,
{
    if x.mask == 0 && y.mask == 0 {
        tv(wrap(x.value * y.value), 0)
    } else if n == 0 {
        tv(0, 0)
    } else if size_spec(y) == 0 {
        tv(0, 0)
    } else {
        let k = (size_spec(y) - 1) as u8;
        let y1 = clearbit_spec(y, k);
        let p = if max_spec(y1) <= max_spec(x) {
            xhigh_spec(y1, x, (n - 1) as u8)
        } else {
            xhigh_spec(x, y1, (n - 1) as u8)
        };
        if testbit_spec(y.mask, k) {
            join_spec(add_spec(p, lshift_spec(x, k)), p)
        } else {
            add_spec(p, lshift_spec(x, k))
        }
    }
}

/// The fuel of the top call: the count of possibly-one bits of both operands.
pub open spec fn high_fuel(x: TnumView, y: TnumView) -> nat {
    pop(max_spec(x)) + pop(max_spec(y))
}

/// The product by clearing bits from the top, with the fuel of the top call.
pub open spec fn xhigh_top_spec(x: TnumView, y: TnumView) -> TnumView {
    xhigh_spec(x, y, high_fuel(x, y) as u8)
}

/// Clears bit `pos` of `num`.
fn clear_bit(num: u64, pos: u8) -> (r: u64)
    requires
        pos < 64,
    ensures
        r == num & !(1u64 << pos),
{
    num & !(1u64 << pos)
}

proof fn lemma_clearbit_bits(v: u64, m: u64, w: u64, pos: u8)
    by (bit_vector)
    ensures
        v & m == 0 ==> (v & !(1u64 << pos)) & (m & !(1u64 << pos)) == 0,
        w & !m == v ==> (w & !(1u64 << pos)) & !(m & !(1u64 << pos)) == v & !(1u64 << pos),
        (v & !(1u64 << pos)) | (m & !(1u64 << pos)) == (v | m) & !(1u64 << pos),
        pos < 64 ==> (w & (1u64 << pos) == 0 ==> w & !(1u64 << pos) == w),
        pos < 64 ==> (w & (1u64 << pos) != 0 ==> (w & !(1u64 << pos)) + (1u64 << pos) == w),
        pos < 64 ==> ((w & (1u64 << pos) != 0) == ((w >> (pos as u64)) & 1 == 1)),
        (pos < 64 && w & !m == v && m & (1u64 << pos) == 0 && (v | m) & (1u64 << pos) != 0)
            ==> w & (1u64 << pos) != 0,
        (v | m == 0) ==> m == 0 && v == 0,
{
}

/// Clears bit `pos` of both parts of `x`.
fn tnum_clearbit(x: Tnum, pos: u8) -> (r: Tnum)
    requires
        pos < 64,
    ensures
        r@ == clearbit_spec(x@, pos),
{
    proof {
        use_type_invariant(&x);
        Tnum::lemma_wf(x);
        lemma_clearbit_bits(x@.value, x@.mask, 0, pos);
    }
    Tnum::new(clear_bit(x.value(), pos), clear_bit(x.mask(), pos))
}

/// The number of bits needed to write every word of `x`.
fn tnum_size(x: Tnum) -> (r: u8)
    ensures
        r == size_spec(x@),
        r <= 64,
{
    proof {
        axiom_u64_leading_zeros(x@.value);
        axiom_u64_leading_zeros(x@.mask);
    }
    let a = 64 - x.value().leading_zeros();
    let b = 64 - x.mask().leading_zeros();
    if a < b {
        b as u8
    } else {
        a as u8
    }
}

/// The largest word of `a`.
fn tnum_max(a: Tnum) -> (r: u64)
    ensures
        r == max_spec(a@),
{
    a.value() | a.mask()
}

/// Whether bit `pos` of `num` is set; false from bit 64 on.
fn testbit(num: u64, pos: u8) -> (r: bool)
    ensures
        r == testbit_spec(num, pos),
{
    if pos >= 64 {
        false
    } else {
        (num & (1u64 << pos)) != 0
    }
}

/// The top possibly-one bit of a nonzero `y` stands at `size - 1`.
proof fn lemma_top_bit(y: TnumView)
    requires
        size_spec(y) > 0,
    ensures
        size_spec(y) <= 64,
        (max_spec(y) >> ((size_spec(y) - 1) as u64)) & 1 == 1,
{
    axiom_u64_leading_zeros(y.value);
    axiom_u64_leading_zeros(y.mask);
    let k = (size_spec(y) - 1) as u64;
    if bit_len(y.value) < bit_len(y.mask) {
        assert((y.mask >> k) & 1 != 0);
    } else {
        assert((y.value >> k) & 1 != 0);
    }
    lemma_or_bit(y.value, y.mask, k);
}

proof fn lemma_or_bit(v: u64, m: u64, k: u64)
    by (bit_vector)
    ensures
        ((v >> k) & 1 != 0 || (m >> k) & 1 != 0) ==> ((v | m) >> k) & 1 == 1,
{
}

/// `xhigh_spec` holds the wrapped product of every pair of words when the fuel covers the
/// possibly-one bits of both operands.
proof fn lemma_xhigh_sound(x: TnumView, y: TnumView, n: u8, u: u64, v: u64)
    requires
        x.wf(),
        y.wf(),
        high_fuel(x, y) <= n,
        x.has(u),
        y.has(v),
    ensures
        xhigh_spec(x, y, n).has(wrap(u * v)),
        xhigh_spec(x, y, n).wf(),
    decreases n,
{
    lemma_zero_mask(0, 0);
    if x.mask == 0 && y.mask == 0 {
        lemma_zero_mask(x.value, u);
        lemma_zero_mask(y.value, v);
        lemma_zero_mask(wrap(u * v), wrap(u * v));
    } else if n == 0 {
        lemma_pop_bounds(max_spec(x));
        lemma_pop_bounds(max_spec(y));
        lemma_clearbit_bits(x.value, x.mask, 0, 0);
        lemma_clearbit_bits(y.value, y.mask, 0, 0);
    } else if size_spec(y) == 0 {
        axiom_u64_leading_zeros(y.value);
        axiom_u64_leading_zeros(y.mask);
        lemma_zero_mask(0, v);
        assert(u * 0 == 0);
        lemma_wrap_div(0);
    } else {
        lemma_top_bit(y);
        let k = (size_spec(y) - 1) as u8;
        let bit = 1u64 << k;
        let y1 = clearbit_spec(y, k);
        let v1 = v & !bit;
        lemma_clearbit_bits(y.value, y.mask, v, k);
        lemma_clearbit_bits(y.value, y.mask, y.value | y.mask, k);
        lemma_pop_clear(max_spec(y), k as u64);
        assert(high_fuel(x, y1) + 1 <= n);
        let p = if max_spec(y1) <= max_spec(x) {
            xhigh_spec(y1, x, (n - 1) as u8)
        } else {
            xhigh_spec(x, y1, (n - 1) as u8)
        };
        if max_spec(y1) <= max_spec(x) {
            lemma_xhigh_sound(y1, x, (n - 1) as u8, v1, u);
            assert(v1 * u == u * v1) by (nonlinear_arith);
        } else {
            lemma_xhigh_sound(x, y1, (n - 1) as u8, u, v1);
        }
        lemma_shift_sound(x, k, u);
        lemma_mul_pow2(k as u64, u);
        let s = lshift_spec(x, k);
        lemma_add_sound(p, s, wrap(u * v1), u << k);
        lemma_join_sound(add_spec(p, s), p, wrap(u * v));
        if v & bit != 0 {
            assert(v == v1 + bit);
            assert(u * v == u * v1 + bit * u) by (nonlinear_arith)
                requires
                    v == v1 + bit,
            ;
            lemma_wrap_add(u * v1, bit * u);
            lemma_wrap_add(wrap(u * v1) as int, bit * u);
        } else {
            assert(v1 == v);
        }
    }
}

/// The product by clearing bits from the top holds the wrapped product of every pair of
/// words of its operands.
pub proof fn lemma_xhigh_top_sound(a: TnumView, b: TnumView, x: u64, y: u64)
    requires
        a.wf(),
        b.wf(),
        a.has(x),
        b.has(y),
    ensures
        xhigh_top_spec(a, b).has(wrap(x * y)),
{
    lemma_pop_bounds(max_spec(a));
    lemma_pop_bounds(max_spec(b));
    lemma_xhigh_sound(a, b, high_fuel(a, b) as u8, x, y);
}

/// Multiplies `x` by `y` by clearing the highest possibly-one bit of `y`, multiplying the
/// rest recursively with the larger operand second, and adding `x` shifted to that bit;
/// where the bit is unknown the sums with and without it are joined. `n` is the fuel.
fn xtnum_mul_high(x: Tnum, y: Tnum, n: u8) -> (r: Tnum)
    ensures
        r@ == xhigh_spec(x@, y@, n),
    decreases n,
{
    if x.mask() == 0 && y.mask() == 0 {
        proof {
            lemma_zero_mask(x@.value.wrapping_mul(y@.value), 0);
        }
        Tnum::new(x.value().wrapping_mul(y.value()), 0)
    } else if n == 0 {
        proof {
            lemma_zero_mask(0, 0);
        }
        Tnum::new(0, 0)
    } else {
        let b = tnum_size(y);
        if b == 0 {
            proof {
                lemma_zero_mask(0, 0);
            }
            return Tnum::new(0, 0);
        }
        let ym = testbit(y.mask(), b - 1);
        let y_prime = tnum_clearbit(y, b - 1);
        let p = if tnum_max(y_prime) <= tnum_max(x) {
            xtnum_mul_high(y_prime, x, n - 1)
        } else {
            xtnum_mul_high(x, y_prime, n - 1)
        };
        if ym {
            tnum_join(tnum_add(p, tnum_lshift(x, b - 1)), p)
        } else {
            tnum_add(p, tnum_lshift(x, b - 1))
        }
    }
}

/// Multiplies `x` by `y` by clearing possibly-one bits from the top, with the count of
/// possibly-one bits of both operands as fuel.
pub fn xtnum_mul_high_top(x: Tnum, y: Tnum) -> (r: Tnum)
    ensures
        r@ == xhigh_top_spec(x@, y@),
        forall|u: u64, v: u64| x@.has(u) && y@.has(v) ==> r@.has(#[trigger] wrap(u * v)),
{
    proof {
        lemma_pop_bounds(max_spec(x@));
        lemma_pop_bounds(max_spec(y@));
        use_type_invariant(&x);
        use_type_invariant(&y);
        Tnum::lemma_wf(x);
        Tnum::lemma_wf(y);
    }
    let n = (popcount(x.value() | x.mask()) + popcount(y.value() | y.mask())) as u8;
    let r = xtnum_mul_high(x, y, n);
    assert forall|u: u64, v: u64| x@.has(u) && y@.has(v) implies r@.has(wrap(u * v)) by {
        lemma_xhigh_top_sound(x@, y@, u, v);
    }
    r
}

} // verus!
