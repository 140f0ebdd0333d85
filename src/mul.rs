//! Tnum multiplication by scanning the bits of one operand, and its fast path for
//! powers of two.
use vstd::prelude::*;
use vstd::arithmetic::div_mod::{lemma_fundamental_div_mod, lemma_mod_multiples_vanish};
use vstd::std_specs::bits::u64_trailing_zeros;
use crate::arith::{add_spec, lemma_add_sound, tnum_add};
use crate::bitwise::{lshift_spec, rshift_spec, tnum_lshift, tnum_rshift};
use crate::bits::{lemma_mul_pow2, lemma_single_bit, pop, popcount};
use crate::tnum::{lemma_zero_mask, tv, wrap, Tnum, TnumView};

verus! {

/// Integers that differ by a multiple of 2^64 wrap to the same word.
pub proof fn lemma_wrap_congruent(p: int, q: int, k: int)
    requires
        p == q + 0x1_0000_0000_0000_0000 * k,
    ensures
        wrap(p) == wrap(q),
{
    lemma_mod_multiples_vanish(k, q, 0x1_0000_0000_0000_0000);
}

/// Wrapping an integer subtracts a multiple of 2^64 from it.
pub proof fn lemma_wrap_div(n: int)
    ensures
        wrap(n) == n - 0x1_0000_0000_0000_0000 * (n / 0x1_0000_0000_0000_0000),
        0 <= n < 0x1_0000_0000_0000_0000 ==> wrap(n) == n,
{
    lemma_fundamental_div_mod(n, 0x1_0000_0000_0000_0000);
}

/// Wrapping the parts of a sum does not change the wrapped sum.
pub proof fn lemma_wrap_add(p: int, q: int)
    ensures
        wrap(wrap(p) + q) == wrap(p + q),
        wrap(p + wrap(q)) == wrap(p + q),
{
    lemma_wrap_div(p);
    lemma_wrap_div(q);
    lemma_wrap_congruent(wrap(p) + q, p + q, -(p / 0x1_0000_0000_0000_0000));
    lemma_wrap_congruent(p + wrap(q), p + q, -(q / 0x1_0000_0000_0000_0000));
}

/// Folds one bit of the scanned operand into the running sum: the digit's own term plus
/// the product of the shifted operands gives back the product of the unshifted ones.
proof fn lemma_mul_step(s: int, x: int, y: int, a: int, b: int)
    requires
        x >= 0,
        a >= 0,
    ensures
        wrap(wrap(s + (x % 2) * y - (a % 2) * b) + (x / 2) * wrap(2 * y) - (a / 2) * wrap(2 * b))
            == wrap(s + x * y - a * b),
{
    let m: int = 0x1_0000_0000_0000_0000;
    let t = s + (x % 2) * y - (a % 2) * b;
    let q1 = t / m;
    let q2 = (2 * y) / m;
    let q3 = (2 * b) / m;
    lemma_wrap_div(t);
    lemma_wrap_div(2 * y);
    lemma_wrap_div(2 * b);
    let x1 = x / 2;
    let a1 = a / 2;
    assert(x == 2 * x1 + x % 2);
    assert(a == 2 * a1 + a % 2);
    let w2: int = wrap(2 * y) as int;
    let w3: int = wrap(2 * b) as int;
    assert(x1 * w2 == 2 * x1 * y - m * (x1 * q2)) by (nonlinear_arith)
        requires
            w2 == 2 * y - m * q2,
    ;
    assert(a1 * w3 == 2 * a1 * b - m * (a1 * q3)) by (nonlinear_arith)
        requires
            w3 == 2 * b - m * q3,
    ;
    assert(x * y == 2 * x1 * y + (x % 2) * y) by (nonlinear_arith)
        requires
            x == 2 * x1 + x % 2,
    ;
    assert(a * b == 2 * a1 * b + (a % 2) * b) by (nonlinear_arith)
        requires
            a == 2 * a1 + a % 2,
    ;
    let p = wrap(t) + x1 * w2 - a1 * w3;
    lemma_wrap_congruent(p, s + x * y - a * b, -q1 - x1 * q2 + a1 * q3);
}

/// The unknown part of the product: for each bit of `a` from the lowest, the correspondingly
/// shifted `b` is added as unknown bits, its mask where the bit is known one and all its
/// possibly-one bits where the bit is unknown.
pub open spec fn mul_acc(a: TnumView, b: TnumView, acc: TnumView) -> TnumView
    decreases a.value + a.mask,
{
    if a.value == 0 && a.mask == 0 {
        acc
    } else {
        let acc2 = if a.value & 1 != 0 {
            add_spec(acc, tv(0, b.mask))
        } else if a.mask & 1 != 0 {
            add_spec(acc, tv(0, b.value | b.mask))
        } else {
            acc
        };
        proof {
            lemma_halve(a.value, 0, 0, 0, 0, 0);
            lemma_halve(a.mask, 0, 0, 0, 0, 0);
        }
        mul_acc(rshift_spec(a, 1), lshift_spec(b, 1), acc2)
    }
}

/// The product by bit scanning: the product of the known values plus the unknown part.
pub open spec fn mul_spec(a: TnumView, b: TnumView) -> TnumView {
    add_spec(tv(wrap(a.value * b.value), 0), mul_acc(a, b, tv(0, 0)))
}

/// Bit facts for one step of the scan: halving and doubling a word, and what the lowest
/// bit of a word of `(av, am)` is, and how a word of `(bv, bm)` sits above its known part.
pub proof fn lemma_halve(v: u64, av: u64, am: u64, bv: u64, bm: u64, x: u64)
    by (bit_vector)
    ensures
        v >> 1u8 == v / 2,
        v & 1 == v % 2,
        v << 1u8 == wrap(2 * v),
        0u64 & v == 0,
        (av & am == 0 && x & !am == av) ==> (av & 1 != 0 ==> x & 1 == 1),
        (av & am == 0 && x & !am == av) ==> (av & 1 == 0 && am & 1 == 0 ==> x & 1 == 0),
        v & !bm == bv ==> (v - bv) as u64 & !bm == 0 && v >= bv,
        v & !bm == bv ==> v & !(bv | bm) == 0,
        0u64 & !bm == 0,
{
}

/// Every product of a word of `a` and a word of `b`, added to a word `s` of `acc`, less the
/// product of the known values, is a word of the accumulated result.
proof fn lemma_mul_acc_sound(a: TnumView, b: TnumView, acc: TnumView, x: u64, y: u64, s: u64)
    requires
        a.wf(),
        b.wf(),
        a.has(x),
        b.has(y),
        acc.has(s),
    ensures
        mul_acc(a, b, acc).has(wrap(s + x * y - a.value * b.value)),
    decreases a.value + a.mask,
{
    lemma_halve(x, a.value, a.mask, 0, 0, x);
    lemma_halve(a.value, 0, 0, 0, 0, 0);
    lemma_halve(a.mask, 0, 0, 0, 0, 0);
    lemma_halve(y, 0, 0, b.value, b.mask, 0);
    lemma_halve(b.value, 0, 0, 0, 0, 0);
    lemma_wrap_div(s as int);
    if a.value == 0 && a.mask == 0 {
        lemma_zero_mask(0, x);
    } else {
        let t: int = (x % 2) * y - (a.value % 2) * b.value;
        let acc2 = if a.value & 1 != 0 {
            add_spec(acc, tv(0, b.mask))
        } else if a.mask & 1 != 0 {
            add_spec(acc, tv(0, b.value | b.mask))
        } else {
            acc
        };
        if a.value & 1 != 0 {
            assert(x % 2 == 1 && a.value % 2 == 1);
            assert(t == y - b.value) by (nonlinear_arith)
                requires
                    x % 2 == 1,
                    a.value % 2 == 1,
                    t == (x % 2) * y - (a.value % 2) * b.value,
            ;
            assert(((y - b.value) as u64) as int == t);
            lemma_add_sound(acc, tv(0, b.mask), s, (y - b.value) as u64);
        } else if a.mask & 1 != 0 {
            lemma_wrap_div(t);
            lemma_halve(0, 0, 0, 0, b.value | b.mask, 0);
            assert(a.value % 2 == 0);
            if x % 2 == 0 {
                assert(t == 0) by (nonlinear_arith)
                    requires
                        x % 2 == 0,
                        a.value % 2 == 0,
                        t == (x % 2) * y - (a.value % 2) * b.value,
                ;
                lemma_add_sound(acc, tv(0, b.value | b.mask), s, 0);
            } else {
                assert(t == y) by (nonlinear_arith)
                    requires
                        x % 2 == 1,
                        a.value % 2 == 0,
                        t == (x % 2) * y - (a.value % 2) * b.value,
                ;
                lemma_add_sound(acc, tv(0, b.value | b.mask), s, y);
            }
        } else {
            assert(x % 2 == 0 && a.value % 2 == 0);
            assert(t == 0) by (nonlinear_arith)
                requires
                    x % 2 == 0,
                    a.value % 2 == 0,
                    t == (x % 2) * y - (a.value % 2) * b.value,
            ;
        }
        assert(acc2.has(wrap(s + t)));
        let a1 = rshift_spec(a, 1);
        let b1 = lshift_spec(b, 1);
        crate::bitwise::lemma_shift_sound(a, 1, x);
        crate::bitwise::lemma_shift_sound(b, 1, y);
        lemma_mul_acc_sound(a1, b1, acc2, x >> 1u8, y << 1u8, wrap(s + t));
        lemma_mul_step(s as int, x as int, y as int, a.value as int, b.value as int);
    }
}

/// The bit-scanning product holds the wrapped product of every pair of words of its operands.
pub proof fn lemma_mul_sound(a: TnumView, b: TnumView, x: u64, y: u64)
    requires
        a.wf(),
        b.wf(),
        a.has(x),
        b.has(y),
    ensures
        mul_spec(a, b).has(wrap(x * y)),
{
    lemma_zero_mask(0, 0);
    lemma_zero_mask(wrap(a.value * b.value), wrap(a.value * b.value));
    lemma_mul_acc_sound(a, b, tv(0, 0), x, y, 0);
    let u = wrap(0 + x * y - a.value * b.value);
    lemma_add_sound(tv(wrap(a.value * b.value), 0), mul_acc(a, b, tv(0, 0)), wrap(a.value * b.value), u);
    lemma_wrap_add(a.value * b.value, x * y - a.value * b.value);
    lemma_wrap_add(wrap(a.value * b.value) as int, x * y - a.value * b.value);
}

/// Tnum multiplication by bit scanning: `a` is consumed from its lowest bit, `b` shifted
/// left in step, and the contribution of each bit accumulated as unknown bits.
pub fn tnum_mul(a: Tnum, b: Tnum) -> (r: Tnum)
    ensures
        r@ == mul_spec(a@, b@),
        forall|x: u64, y: u64| a@.has(x) && b@.has(y) ==> r@.has(#[trigger] wrap(x * y)),
{
    proof {
        use_type_invariant(&a);
        use_type_invariant(&b);
        Tnum::lemma_wf(a);
        Tnum::lemma_wf(b);
        lemma_zero_mask(0, 0);
    }
    let acc_v = a.value().wrapping_mul(b.value());
    let mut acc_m = Tnum::new(0, 0);
    let mut a1 = a;
    let mut b1 = b;
    while a1.value() != 0 || a1.mask() != 0
        invariant
            mul_acc(a1@, b1@, acc_m@) == mul_acc(a@, b@, tv(0, 0)),
        decreases a1@.value + a1@.mask,
    {
        proof {
            lemma_halve(a1@.value, 0, 0, 0, 0, 0);
            lemma_halve(a1@.mask, 0, 0, 0, 0, 0);
            lemma_halve(b1@.mask, 0, 0, 0, 0, 0);
            lemma_halve(b1@.value | b1@.mask, 0, 0, 0, 0, 0);
        }
        if (a1.value() & 1) != 0 {
            acc_m = tnum_add(acc_m, Tnum::new(0, b1.mask()));
        } else if (a1.mask() & 1) != 0 {
            acc_m = tnum_add(acc_m, Tnum::new(0, b1.value() | b1.mask()));
        }
        a1 = tnum_rshift(a1, 1);
        b1 = tnum_lshift(b1, 1);
    }
    proof {
        lemma_zero_mask(acc_v, 0);
    }
    let r = tnum_add(Tnum::new(acc_v, 0), acc_m);
    assert forall|x: u64, y: u64| a@.has(x) && b@.has(y) implies r@.has(wrap(x * y)) by {
        lemma_mul_sound(a@, b@, x, y);
    }
    r
}

/// The product with a fast path: a known power of two shifts the other operand; otherwise
/// the operand with fewer possibly-one bits is the one scanned.
pub open spec fn mul_opt_spec(a: TnumView, b: TnumView) -> TnumView {
    if a.mask == 0 && pop(a.value) == 1 {
        lshift_spec(b, u64_trailing_zeros(a.value) as u8)
    } else if b.mask == 0 && pop(b.value) == 1 {
        lshift_spec(a, u64_trailing_zeros(b.value) as u8)
    } else if pop(a.value | a.mask) <= pop(b.value | b.mask) {
        mul_spec(a, b)
    } else {
        mul_spec(b, a)
    }
}

/// Multiplying by a known power of two: the product of any word `y` of `b` is `y`
/// shifted, a word of the shifted `b`.
proof fn lemma_mul_pow2_sound(a: TnumView, b: TnumView, x: u64, y: u64)
    requires
        b.wf(),
        a.mask == 0,
        pop(a.value) == 1,
        a.has(x),
        b.has(y),
    ensures
        lshift_spec(b, u64_trailing_zeros(a.value) as u8).has(wrap(x * y)),
        lshift_spec(b, u64_trailing_zeros(a.value) as u8).has(wrap(y * x)),
{
    lemma_zero_mask(0, x);
    lemma_single_bit(a.value);
    let k = u64_trailing_zeros(a.value);
    lemma_mul_pow2(k as u64, y);
    crate::bitwise::lemma_shift_sound(b, k as u8, y);
    assert(y * x == x * y) by (nonlinear_arith);
}

/// The fast-path product holds the wrapped product of every pair of words of its operands.
pub proof fn lemma_mul_opt_sound(a: TnumView, b: TnumView, x: u64, y: u64)
    requires
        a.wf(),
        b.wf(),
        a.has(x),
        b.has(y),
    ensures
        mul_opt_spec(a, b).has(wrap(x * y)),
{
    assert(y * x == x * y) by (nonlinear_arith);
    if a.mask == 0 && pop(a.value) == 1 {
        lemma_mul_pow2_sound(a, b, x, y);
    } else if b.mask == 0 && pop(b.value) == 1 {
        lemma_mul_pow2_sound(b, a, y, x);
    } else if pop(a.value | a.mask) <= pop(b.value | b.mask) {
        lemma_mul_sound(a, b, x, y);
    } else {
        lemma_mul_sound(b, a, y, x);
    }
}

/// Tnum multiplication with a fast path: a known power of two becomes a left shift of the
/// other operand, which loses no precision; otherwise the operand with fewer possibly-one
/// bits is scanned by `tnum_mul`.
pub fn tnum_mul_opt(a: Tnum, b: Tnum) -> (r: Tnum)
    ensures
        r@ == mul_opt_spec(a@, b@),
        forall|x: u64, y: u64| a@.has(x) && b@.has(y) ==> r@.has(#[trigger] wrap(x * y)),
{
    proof {
        use_type_invariant(&a);
        use_type_invariant(&b);
        Tnum::lemma_wf(a);
        Tnum::lemma_wf(b);
    }
    let r = if a.mask() == 0 && popcount(a.value()) == 1 {
        proof {
            lemma_single_bit(a@.value);
        }
        tnum_lshift(b, a.value().trailing_zeros() as u8)
    } else if b.mask() == 0 && popcount(b.value()) == 1 {
        proof {
            lemma_single_bit(b@.value);
        }
        tnum_lshift(a, b.value().trailing_zeros() as u8)
    } else if popcount(a.value() | a.mask()) <= popcount(b.value() | b.mask()) {
        tnum_mul(a, b)
    } else {
        tnum_mul(b, a)
    };
    assert forall|x: u64, y: u64| a@.has(x) && b@.has(y) implies r@.has(wrap(x * y)) by {
        lemma_mul_opt_sound(a@, b@, x, y);
    }
    r
}

} // verus!
