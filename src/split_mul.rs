//! Tnum multiplication by splitting an operand at an unknown bit and joining the two
//! products that the bit allows.
use vstd::prelude::*;
use vstd::std_specs::bits::{axiom_u64_trailing_zeros, u64_trailing_zeros};
use crate::arith::{add_spec, lemma_add_sound, tnum_add};
use crate::bitwise::{lemma_shift_sound, lshift_spec, rshift_spec, tnum_lshift, tnum_rshift};
use crate::mul::{lemma_wrap_add, lemma_wrap_congruent, lemma_wrap_div};
use crate::bits::{lemma_pop_bounds, lemma_pop_drop_lowest, pop, popcount};
use crate::tnum::{
    join_spec, lemma_join_sound, lemma_zero_mask, tnum_join, tv, wrap, Tnum, TnumView,
};

verus! {

/// The low `i` bits set (every bit from 64 on).
pub open spec fn low_mask(i: u32) -> u64 {
    if i >= 64 {
        u64::MAX
    } else {
        ((1u64 << i) - 1) as u64
    }
}

/// Splits `x` at its lowest unknown bit `i` (64 where every bit is known): the part above
/// bit `i`, shifted down, the index `i`, and the part below bit `i`, which is fully known.
pub open spec fn split_spec(x: TnumView) -> (TnumView, u32, TnumView) {
    let i = u64_trailing_zeros(x.mask);
    (rshift_spec(x, (i + 1) as u8), i, tv(x.value & low_mask(i), x.mask & low_mask(i)))
}

/// The product of the known `c` and `x`, splitting `x` `n` times: `c` times the part above
/// the split, shifted back, plus `c` times the known part below, joined with the same sum
/// plus `c` shifted to the split bit.
pub open spec fn mul_const_spec(c: u64, x: TnumView, n: u64) -> TnumView
    decreases n,
{
    if n == 0 {
        tv(wrap(c * x.value), 0)
    } else {
        let (y1, i1, y2) = split_spec(x);
        let p = mul_const_spec(c, y1, (n - 1) as u64);
        let mc = tv(wrap(c * y2.value), 0);
        let mu0 = add_spec(lshift_spec(p, (i1 + 1) as u8), mc);
        let mu1 = add_spec(mu0, tv(c << (i1 % 64), 0));
        join_spec(mu0, mu1)
    }
}

/// The product of `x`, counted as having `i` unknown bits, and `y`, counted as having `j`,
/// with fuel `n`.
pub open spec fn xmul_spec(x: TnumView, i: u64, y: TnumView, j: u64, n: u64) -> TnumView
    decreases n,
{
    if n == 0 {
        tv(wrap(x.value * y.value), 0)
    } else {
        let (y1, i1, y2) = split_spec(y);
        let p = if i == j {
            xmul_spec(y1, (j - 1) as u64, x, i, (n - 1) as u64)
        } else {
            xmul_spec(x, i, y1, (j - 1) as u64, (n - 1) as u64)
        };
        let mc = mul_const_spec(y2.value, x, i);
        let mu0 = add_spec(lshift_spec(p, (i1 + 1) as u8), mc);
        let mu1 = add_spec(mu0, lshift_spec(x, i1 as u8));
        join_spec(mu0, mu1)
    }
}

/// The split product with the unknown bits of each operand counted, the operand with fewer
/// of them first.
pub open spec fn xmul_top_spec(x: TnumView, y: TnumView) -> TnumView {
    let i = pop(x.mask) as u64;
    let j = pop(y.mask) as u64;
    if i <= j {
        xmul_spec(x, i, y, j, (i + j) as u64)
    } else {
        xmul_spec(y, j, x, i, (j + i) as u64)
    }
}

/// 2^k below 64, and 0 from 64 on: what shifting left by `k` multiplies by, modulo 2^64.
pub open spec fn scale(k: u8) -> u64 {
    if k < 64 {
        1u64 << k
    } else {
        0
    }
}

/// Bit `k` of `v`, and 0 from bit 64 on.
pub open spec fn digit(v: u64, k: u32) -> u64 {
    if k < 64 {
        (v >> k) & 1
    } else {
        0
    }
}

proof fn lemma_low_known(v: u64, m: u64, x: u64, t: u32)
    by (bit_vector)
    requires
        t <= 64,
        t < 64 ==> m << ((64 - t) as u64) == 0,
        t == 64 ==> m == 0,
    ensures
        m & low_mask(t) == 0,
        x & !m == v ==> x & low_mask(t) == v & low_mask(t),
        t < 64 ==> (1u64 << t) >= 1,
        (v & low_mask(t)) & (m & low_mask(t)) == 0,
{
}

/// A word split at bit `k`: the part above, the digit, and the part below.
proof fn lemma_split_word(v: u64, k: u32)
    by (bit_vector)
    requires
        k <= 64,
    ensures
        v as int == (v >> ((k + 1) as u8)) * scale((k + 1) as u8) + digit(v, k) * scale(k as u8)
            + (v & low_mask(k)),
        digit(v, k) == 0 || digit(v, k) == 1,
{
}

/// Shifting left by `k` is multiplying by `scale(k)`, modulo 2^64.
proof fn lemma_shl_scale(w: u64, k: u32)
    by (bit_vector)
    requires
        k <= 65,
    ensures
        w << (k as u8) == wrap(scale(k as u8) * w),
{
}

/// Multiplying by a wrapped factor is multiplying by the factor, modulo 2^64.
proof fn lemma_wrap_mul(a: int, b: int)
    ensures
        wrap(b * wrap(a)) == wrap(b * a),
{
    let m: int = 0x1_0000_0000_0000_0000;
    lemma_wrap_div(a);
    assert(b * wrap(a) == b * a + m * (-(b * (a / m)))) by (nonlinear_arith)
        requires
            wrap(a) == a - m * (a / m),
    ;
    lemma_wrap_congruent(b * wrap(a), b * a, -(b * (a / m)));
}

/// The sums of the split: `f` times the upper part, scaled back, plus `f` times the part
/// below, plus, where the digit is one, `f` scaled to the split bit, give `f * v`.
proof fn lemma_split_arith(f: int, v: int, h: int, d: int, l: int, p: int, q: int)
    requires
        v == h * q + d * p + l,
        d == 0 || d == 1,
    ensures
        d == 0 ==> wrap(wrap(q * wrap(f * h)) + wrap(f * l)) == wrap(f * v),
        d == 1 ==> wrap(wrap(wrap(q * wrap(f * h)) + wrap(f * l)) + wrap(p * f)) == wrap(f * v),
{
    lemma_wrap_mul(f * h, q);
    let t = q * (f * h) + f * l;
    lemma_wrap_add(q * (f * h), wrap(f * l) as int);
    lemma_wrap_add(q * (f * h), f * l);
    lemma_wrap_add(t, wrap(p * f) as int);
    lemma_wrap_add(t, p * f);
    assert(f * v == t + d * (p * f)) by (nonlinear_arith)
        requires
            v == h * q + d * p + l,
            t == q * (f * h) + f * l,
    ;
    assert(d * (p * f) == 0 || d * (p * f) == p * f) by (nonlinear_arith)
        requires
            d == 0 || d == 1,
    ;
}

/// What the split of `y` gives: the upper part holds the upper part of each word and has
/// one unknown bit fewer, and the part below is known and equal to that of each word.
proof fn lemma_split_facts(y: TnumView, v: u64)
    requires
        y.wf(),
        y.has(v),
    ensures
        ({
            let (y1, i1, y2) = split_spec(y);
            &&& i1 <= 64
            &&& y1.wf()
            &&& y1.has(v >> ((i1 + 1) as u8))
            &&& pop(y1.mask) + (if y.mask == 0 { 0nat } else { 1nat }) == pop(y.mask)
            &&& y2.mask == 0
            &&& y2.value == v & low_mask(i1)
        }),
{
    axiom_u64_trailing_zeros(y.mask);
    let i1 = u64_trailing_zeros(y.mask);
    lemma_low_known(y.value, y.mask, v, i1);
    lemma_shift_sound(y, (i1 + 1) as u8, v);
    if y.mask == 0 {
        lemma_shift_zero(0, (i1 + 1) as u8);
    } else {
        lemma_pop_drop_lowest(y.mask);
        lemma_shift_zero(y.mask, (i1 + 1) as u8);
    }
}

proof fn lemma_shift_zero(m: u64, s: u8)
    by (bit_vector)
    ensures
        s >= 64 ==> m >> s == 0,
        0u64 >> s == 0,
{
}

/// One split step: if `p` holds `f` times the upper part of `v`, `mc` holds `f` times its
/// known part below, and `low` holds `f` scaled to the split bit, the joined sums hold
/// `f * v`.
proof fn lemma_split_step(f: u64, y: TnumView, v: u64, p: TnumView, mc: TnumView, low: TnumView)
    requires
        y.wf(),
        y.has(v),
        p.has(wrap(f * (v >> ((split_spec(y).1 + 1) as u8)))),
        mc.has(wrap(f * (y.value & low_mask(split_spec(y).1)))),
        split_spec(y).1 < 64 ==> low.has(wrap(scale(split_spec(y).1 as u8) * f)),
    ensures
        ({
            let i1 = split_spec(y).1;
            let mu0 = add_spec(lshift_spec(p, (i1 + 1) as u8), mc);
            join_spec(mu0, add_spec(mu0, low)).has(wrap(f * v)) && join_spec(
                mu0,
                add_spec(mu0, low),
            ).wf()
        }),
{
    lemma_split_facts(y, v);
    let i1 = split_spec(y).1;
    let s = (i1 + 1) as u8;
    let h = v >> s;
    let l = v & low_mask(i1);
    let w = wrap(f * h);
    lemma_shift_sound(p, s, w);
    lemma_shl_scale(w, (i1 + 1) as u32);
    let mu0 = add_spec(lshift_spec(p, s), mc);
    lemma_add_sound(lshift_spec(p, s), mc, w << s, wrap(f * l));
    lemma_split_word(v, i1);
    let d = digit(v, i1);
    lemma_split_arith(
        f as int,
        v as int,
        h as int,
        d as int,
        l as int,
        scale(i1 as u8) as int,
        scale(s) as int,
    );
    let t0 = wrap((w << s) + wrap(f * l));
    if d == 1 {
        lemma_add_sound(mu0, low, t0, wrap(scale(i1 as u8) * f));
    }
    lemma_join_sound(mu0, add_spec(mu0, low), wrap(f * v));
}

/// `mul_const_spec` holds `c` times every word of `x` when the fuel covers its unknown
/// bits.
proof fn lemma_mul_const_sound(c: u64, x: TnumView, n: u64, u: u64)
    requires
        x.wf(),
        pop(x.mask) <= n,
        x.has(u),
    ensures
        mul_const_spec(c, x, n).has(wrap(c * u)),
        mul_const_spec(c, x, n).wf(),
    decreases n,
{
    if n == 0 {
        lemma_pop_bounds(x.mask);
        lemma_zero_mask(x.value, u);
        lemma_zero_mask(wrap(c * u), wrap(c * u));
    } else {
        lemma_split_facts(x, u);
        let (y1, i1, y2) = split_spec(x);
        let s = (i1 + 1) as u8;
        lemma_mul_const_sound(c, y1, (n - 1) as u64, u >> s);
        let p = mul_const_spec(c, y1, (n - 1) as u64);
        let mc = tv(wrap(c * y2.value), 0);
        let low = tv(c << (i1 % 64), 0);
        lemma_zero_mask(wrap(c * y2.value), wrap(c * y2.value));
        lemma_zero_mask(c << (i1 % 64), c << (i1 % 64));
        lemma_shl_scale(c, i1);
        lemma_split_step(c, x, u, p, mc, low);
    }
}

/// `xmul_spec` holds the wrapped product of every pair of words when the counts cover the
/// unknown bits and the fuel is their sum.
proof fn lemma_xmul_sound(x: TnumView, i: u64, y: TnumView, j: u64, n: u64, u: u64, v: u64)
    requires
        x.wf(),
        y.wf(),
        pop(x.mask) <= i,
        pop(y.mask) <= j,
        n == i + j,
        i <= j,
        x.has(u),
        y.has(v),
    ensures
        xmul_spec(x, i, y, j, n).has(wrap(u * v)),
        xmul_spec(x, i, y, j, n).wf(),
    decreases n,
{
    if n == 0 {
        lemma_pop_bounds(x.mask);
        lemma_pop_bounds(y.mask);
        lemma_zero_mask(x.value, u);
        lemma_zero_mask(y.value, v);
        lemma_zero_mask(wrap(u * v), wrap(u * v));
    } else {
        lemma_split_facts(y, v);
        let (y1, i1, y2) = split_spec(y);
        let s = (i1 + 1) as u8;
        let h = v >> s;
        let p = if i == j {
            xmul_spec(y1, (j - 1) as u64, x, i, (n - 1) as u64)
        } else {
            xmul_spec(x, i, y1, (j - 1) as u64, (n - 1) as u64)
        };
        if i == j {
            lemma_xmul_sound(y1, (j - 1) as u64, x, i, (n - 1) as u64, h, u);
            assert(h * u == u * h) by (nonlinear_arith);
        } else {
            lemma_xmul_sound(x, i, y1, (j - 1) as u64, (n - 1) as u64, u, h);
        }
        lemma_mul_const_sound(y2.value, x, i, u);
        assert(y2.value * u == u * y2.value) by (nonlinear_arith);
        lemma_shift_sound(x, i1 as u8, u);
        lemma_shl_scale(u, i1);
        lemma_split_step(u, y, v, p, mul_const_spec(y2.value, x, i), lshift_spec(x, i1 as u8));
    }
}

/// The split product holds the wrapped product of every pair of words of its operands.
pub proof fn lemma_xmul_top_sound(a: TnumView, b: TnumView, x: u64, y: u64)
    requires
        a.wf(),
        b.wf(),
        a.has(x),
        b.has(y),
    ensures
        xmul_top_spec(a, b).has(wrap(x * y)),
{
    lemma_pop_bounds(a.mask);
    lemma_pop_bounds(b.mask);
    let i = pop(a.mask) as u64;
    let j = pop(b.mask) as u64;
    if i <= j {
        lemma_xmul_sound(a, i, b, j, (i + j) as u64, x, y);
    } else {
        lemma_xmul_sound(b, j, a, i, (j + i) as u64, y, x);
        assert(y * x == x * y) by (nonlinear_arith);
    }
}

/// Splits `x` at its lowest unknown bit.
fn split_at_mu(x: Tnum) -> (r: (Tnum, u32, Tnum))
    ensures
        (r.0@, r.1, r.2@) == split_spec(x@),
{
    proof {
        use_type_invariant(&x);
        Tnum::lemma_wf(x);
        axiom_u64_trailing_zeros(x@.mask);
        lemma_low_known(x@.value, x@.mask, 0, u64_trailing_zeros(x@.mask));
    }
    let i = x.mask().trailing_zeros();
    let x1 = tnum_rshift(x, (i + 1) as u8);
    let lm: u64 = if i >= 64 {
        u64::MAX
    } else {
        (1u64 << i) - 1
    };
    let x2 = Tnum::new(x.value() & lm, x.mask() & lm);
    (x1, i, x2)
}

/// Multiplies the known `c` by `x`, splitting `x` once per unit of the fuel `n`. With fuel
/// for every unknown bit of `x`, the result holds `c` times every word of `x`.
fn tnum_mul_const(c: u64, x: Tnum, n: u64) -> (r: Tnum)
    ensures
        r@ == mul_const_spec(c, x@, n),
        pop(x@.mask) <= n ==> forall|u: u64| x@.has(u) ==> r@.has(#[trigger] wrap(c * u)),
    decreases n,
{
    proof {
        use_type_invariant(&x);
        Tnum::lemma_wf(x);
        if pop(x@.mask) <= n {
            assert forall|u: u64| x@.has(u) implies mul_const_spec(c, x@, n).has(wrap(c * u)) by {
                lemma_mul_const_sound(c, x@, n, u);
            }
        }
    }
    if n == 0 {
        proof {
            lemma_zero_mask(c.wrapping_mul(x@.value), 0);
        }
        Tnum::new(c.wrapping_mul(x.value()), 0)
    } else {
        let (y1, i1, y2) = split_at_mu(x);
        let p = tnum_mul_const(c, y1, n - 1);
        proof {
            lemma_zero_mask(c.wrapping_mul(y2@.value), 0);
            lemma_zero_mask(c.wrapping_shl(i1), 0);
        }
        let mc = Tnum::new(c.wrapping_mul(y2.value()), 0);
        let mu0 = tnum_add(tnum_lshift(p, (i1 + 1) as u8), mc);
        let mu1 = tnum_add(mu0, Tnum::new(c.wrapping_shl(i1), 0));
        tnum_join(mu0, mu1)
    }
}

/// Multiplies `x`, which has `i` unknown bits, by `y`, which has `j`, where `i <= j`; the
/// fuel `n` is at most `i + j`. `y` is split at its lowest unknown bit; the product of the
/// part above it is found recursively, with the operands exchanged when both counts are
/// equal, `x` times the known part below is added, and the sums for the split bit set and
/// clear are joined. When the counts cover the unknown bits and the fuel is their sum, the
/// result holds every product.
pub fn xtnum_mul(x: Tnum, i: u64, y: Tnum, j: u64, n: u64) -> (r: Tnum)
    requires
        i <= j,
        n <= i + j,
    ensures
        r@ == xmul_spec(x@, i, y@, j, n),
        (n == i + j && pop(x@.mask) <= i && pop(y@.mask) <= j) ==> forall|u: u64, v: u64|
            x@.has(u) && y@.has(v) ==> r@.has(#[trigger] wrap(u * v)),
    decreases n,
{
    let r = if n == 0 {
        proof {
            lemma_zero_mask(x@.value.wrapping_mul(y@.value), 0);
        }
        Tnum::new(x.value().wrapping_mul(y.value()), 0)
    } else {
        let (y1, i1, y2) = split_at_mu(y);
        let p = if i == j {
            xtnum_mul(y1, j - 1, x, i, n - 1)
        } else {
            xtnum_mul(x, i, y1, j - 1, n - 1)
        };
        let mc = tnum_mul_const(y2.value(), x, i);
        let mu0 = tnum_add(tnum_lshift(p, (i1 + 1) as u8), mc);
        let mu1 = tnum_add(mu0, tnum_lshift(x, i1 as u8));
        tnum_join(mu0, mu1)
    };
    proof {
        if n == i + j && pop(x@.mask) <= i && pop(y@.mask) <= j {
            use_type_invariant(&x);
            use_type_invariant(&y);
            Tnum::lemma_wf(x);
            Tnum::lemma_wf(y);
            assert forall|u: u64, v: u64| x@.has(u) && y@.has(v) implies r@.has(wrap(u * v)) by {
                lemma_xmul_sound(x@, i, y@, j, n, u, v);
            }
        }
    }
    r
}

/// Multiplies `x` by `y` by splitting, with the counts of unknown bits of the operands as
/// counts and their sum as fuel.
pub fn xtnum_mul_top(x: Tnum, y: Tnum) -> (r: Tnum)
    ensures
        r@ == xmul_top_spec(x@, y@),
        forall|u: u64, v: u64| x@.has(u) && y@.has(v) ==> r@.has(#[trigger] wrap(u * v)),
{
    let i = popcount(x.mask()) as u64;
    let j = popcount(y.mask()) as u64;
    proof {
        lemma_pop_bounds(x@.mask);
        lemma_pop_bounds(y@.mask);
    }
    let r = if i <= j {
        xtnum_mul(x, i, y, j, i + j)
    } else {
        xtnum_mul(y, j, x, i, j + i)
    };
    proof {
        use_type_invariant(&x);
        use_type_invariant(&y);
        Tnum::lemma_wf(x);
        Tnum::lemma_wf(y);
        assert forall|u: u64, v: u64| x@.has(u) && y@.has(v) implies r@.has(wrap(u * v)) by {
            lemma_xmul_top_sound(x@, y@, u, v);
        }
    }
    r
}

} // verus!
