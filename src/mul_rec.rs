//! An experimental recursive tnum multiplication on halved operands.
use vstd::prelude::*;
use crate::mul::lemma_halve;
use crate::tnum::{lemma_zero_mask, tv, wrap, Tnum, TnumView};

verus! {

/// The experimental recursive product. Its short cuts: both operands known, both fully
/// unknown, either known zero, either known one. Otherwise only the upper parts (each
/// operand shifted right by one) are multiplied; the cross terms with the low bits are
/// left out.
pub open spec fn mul_rec_spec(a: TnumView, b: TnumView) -> TnumView
    decreases a.value + a.mask + b.value + b.mask,
{
    if a.mask == 0 && b.mask == 0 {
        tv(wrap(a.value * b.value), 0)
    } else if a.mask == u64::MAX && b.mask == u64::MAX {
        tv(0, u64::MAX)
    } else if (a.value == 0 && a.mask == 0) || (b.value == 0 && b.mask == 0) {
        tv(0, 0)
    } else if a.value == 1 && a.mask == 0 {
        b
    } else if b.value == 1 && b.mask == 0 {
        a
    } else {
        proof {
            lemma_halve(a.value, 0, 0, 0, 0, 0);
            lemma_halve(a.mask, 0, 0, 0, 0, 0);
            lemma_halve(b.value, 0, 0, 0, 0, 0);
            lemma_halve(b.mask, 0, 0, 0, 0, 0);
        }
        mul_rec_spec(tv(a.value >> 1u8, a.mask >> 1u8), tv(b.value >> 1u8, b.mask >> 1u8))
    }
}

proof fn lemma_halves(v: u64, m: u64)
    by (bit_vector)
    ensures
        v >> 1u8 == v / 2,
        m >> 1u8 == m / 2,
        v & m == 0 ==> (v >> 1u8) & (m >> 1u8) == 0,
        (v & 1) & (m & 1) == (v & m) & 1,
        0u64 & u64::MAX == 0,
{
}

/// Splits `a` into its upper part (shifted right by one) and its lowest bit.
fn tnum_decompose(a: Tnum) -> (r: (Tnum, Tnum))
    ensures
        r.0@ == tv(a@.value >> 1u8, a@.mask >> 1u8),
        r.1@ == tv(a@.value & 1, a@.mask & 1),
{
    proof {
        use_type_invariant(&a);
        Tnum::lemma_wf(a);
        lemma_halves(a@.value, a@.mask);
        lemma_zero_mask(0, 0);
        assert(0u64 & 1 == 0) by (bit_vector);
    }
    (Tnum::new(a.value() >> 1, a.mask() >> 1), Tnum::new(a.value() & 1, a.mask() & 1))
}

/// Experimental recursive multiplication, which does not hold the product in general: past
/// its short cuts it multiplies only the upper parts of the operands and leaves out the
/// terms of their low bits. Not to be taken as a reference for the other products.
pub fn tnum_mul_rec(a: Tnum, b: Tnum) -> (r: Tnum)
    ensures
        r@ == mul_rec_spec(a@, b@),
    decreases a@.value + a@.mask + b@.value + b@.mask,
{
    proof {
        lemma_zero_mask(0, 0);
        lemma_halves(0, 0);
        lemma_zero_mask(a@.value.wrapping_mul(b@.value), 0);
    }
    if a.mask() == 0 && b.mask() == 0 {
        Tnum::new(a.value().wrapping_mul(b.value()), 0)
    } else if a.mask() == u64::MAX && b.mask() == u64::MAX {
        Tnum::new(0, u64::MAX)
    } else if (a.value() == 0 && a.mask() == 0) || (b.value() == 0 && b.mask() == 0) {
        Tnum::new(0, 0)
    } else if a.value() == 1 && a.mask() == 0 {
        b
    } else if b.value() == 1 && b.mask() == 0 {
        a
    } else {
        proof {
            lemma_halves(a@.value, a@.mask);
            lemma_halves(b@.value, b@.mask);
        }
        let (a_up, _a_low) = tnum_decompose(a);
        let (b_up, _b_low) = tnum_decompose(b);
        tnum_mul_rec(a_up, b_up)
    }
}

} // verus!
