//! Bitwise operators, shifts and the 32-bit subregister of a tnum.
use vstd::prelude::*;
use crate::tnum::{lemma_clear_wf, lemma_zero_mask, tnum_cast, tnum_const, tv, Tnum, TnumView};

verus! {

/// Bitwise and: known one where both are known one, unknown where both may be one.
pub open spec fn and_spec(a: TnumView, b: TnumView) -> TnumView {
    let alpha = a.value | a.mask;
    let beta = b.value | b.mask;
    let v = a.value & b.value;
    tv(v, alpha & beta & !v)
}

/// Bitwise or: known one where either is known one, unknown where either may be one.
pub open spec fn or_spec(a: TnumView, b: TnumView) -> TnumView {
    let v = a.value | b.value;
    let mu = a.mask | b.mask;
    tv(v, mu & !v)
}

/// Bitwise xor: the xor of the values where both bits are known, unknown elsewhere.
pub open spec fn xor_spec(a: TnumView, b: TnumView) -> TnumView {
    let v = a.value ^ b.value;
    let mu = a.mask | b.mask;
    tv(v & !mu, mu)
}

/// Both parts shifted left; from a shift of 64 on every bit is shifted out.
pub open spec fn lshift_spec(a: TnumView, shift: u8) -> TnumView {
    if shift >= 64 {
        tv(0, 0)
    } else {
        tv(a.value << shift, a.mask << shift)
    }
}

/// Both parts shifted right; from a shift of 64 on every bit is shifted out.
pub open spec fn rshift_spec(a: TnumView, shift: u8) -> TnumView {
    if shift >= 64 {
        tv(0, 0)
    } else {
        tv(a.value >> shift, a.mask >> shift)
    }
}

/// The low 32 bits of `x` read as a signed word, shifted right arithmetically, and
/// zero-extended back to 64 bits.
pub open spec fn sar32(x: u64, shift: u8) -> u64 {
    (((x as i32) >> shift) as u32) as u64
}

/// `x` read as a signed word and shifted right arithmetically.
pub open spec fn sar64(x: u64, shift: u8) -> u64 {
    ((x as i64) >> shift) as u64
}

/// Arithmetic right shift of value and mask alike, in 32-bit mode for bitness 32 and in
/// 64-bit mode otherwise.
pub open spec fn arshift_spec(a: TnumView, shift: u8, bitness: u8) -> TnumView {
    if bitness == 32 {
        tv(sar32(a.value, shift), sar32(a.mask, shift))
    } else {
        tv(sar64(a.value, shift), sar64(a.mask, shift))
    }
}

proof fn lemma_bitwise_bits(av: u64, am: u64, bv: u64, bm: u64, x: u64, y: u64)
    by (bit_vector)
    requires
        x & !am == av,
        y & !bm == bv,
    ensures
        (x & y) & !((av | am) & (bv | bm) & !(av & bv)) == av & bv,
        (x | y) & !((am | bm) & !(av | bv)) == av | bv,
        (x ^ y) & !(am | bm) == (av ^ bv) & !(am | bm),
{
}

/// Tnum bitwise and: a bit is known one where both are, unknown where both may be one.
pub fn tnum_and(a: Tnum, b: Tnum) -> (r: Tnum)
    ensures
        r@ == and_spec(a@, b@),
        forall|x: u64, y: u64| a@.has(x) && b@.has(y) ==> r@.has(#[trigger] (x & y)),
{
    let alpha = a.value() | a.mask();
    let beta = b.value() | b.mask();
    let v = a.value() & b.value();
    proof {
        lemma_clear_wf(alpha & beta, v);
    }
    let r = Tnum::new(v, alpha & beta & !v);
    assert forall|x: u64, y: u64| a@.has(x) && b@.has(y) implies r@.has(x & y) by {
        lemma_bitwise_bits(a@.value, a@.mask, b@.value, b@.mask, x, y);
    }
    r
}

/// Tnum bitwise or: a bit is known one where either is, unknown where either may be one.
pub fn tnum_or(a: Tnum, b: Tnum) -> (r: Tnum)
    ensures
        r@ == or_spec(a@, b@),
        forall|x: u64, y: u64| a@.has(x) && b@.has(y) ==> r@.has(#[trigger] (x | y)),
{
    let v = a.value() | b.value();
    let mu = a.mask() | b.mask();
    proof {
        lemma_clear_wf(mu, v);
    }
    let r = Tnum::new(v, mu & !v);
    assert forall|x: u64, y: u64| a@.has(x) && b@.has(y) implies r@.has(x | y) by {
        lemma_bitwise_bits(a@.value, a@.mask, b@.value, b@.mask, x, y);
    }
    r
}

/// Tnum bitwise xor: known where both are known.
pub fn tnum_xor(a: Tnum, b: Tnum) -> (r: Tnum)
    ensures
        r@ == xor_spec(a@, b@),
        forall|x: u64, y: u64| a@.has(x) && b@.has(y) ==> r@.has(#[trigger] (x ^ y)),
{
    let v = a.value() ^ b.value();
    let mu = a.mask() | b.mask();
    proof {
        lemma_clear_wf(v, mu);
    }
    let r = Tnum::new(v & !mu, mu);
    assert forall|x: u64, y: u64| a@.has(x) && b@.has(y) implies r@.has(x ^ y) by {
        lemma_bitwise_bits(a@.value, a@.mask, b@.value, b@.mask, x, y);
    }
    r
}

proof fn lemma_shift_bits(v: u64, m: u64, x: u64, s: u8)
    by (bit_vector)
    ensures
        v & m == 0 ==> (v << s) & (m << s) == 0,
        v & m == 0 ==> (v >> s) & (m >> s) == 0,
        x << 0u8 == x,
        x & !m == v ==> (x << s) & !(m << s) == v << s,
        x & !m == v ==> (x >> s) & !(m >> s) == v >> s,
        s >= 64 ==> x << s == 0 && x >> s == 0,
{
}

/// Shifting a word of `a` gives a word of the shifted `a`, and the shifted `a` stays well formed.
pub proof fn lemma_shift_sound(a: TnumView, shift: u8, x: u64)
    ensures
        a.wf() ==> lshift_spec(a, shift).wf(),
        a.wf() ==> rshift_spec(a, shift).wf(),
        x << 0u8 == x,
        a.has(x) ==> lshift_spec(a, shift).has(x << shift),
        a.has(x) ==> rshift_spec(a, shift).has(x >> shift),
{
    lemma_zero_mask(0, 0);
    lemma_shift_bits(a.value, a.mask, x, shift);
}

/// Shifts `a` left by `shift` bits; from 64 on every bit is shifted out.
pub fn tnum_lshift(a: Tnum, shift: u8) -> (r: Tnum)
    ensures
        r@ == lshift_spec(a@, shift),
        r@.wf(),
        forall|x: u64| a@.has(x) ==> r@.has(#[trigger] (x << shift)),
{
    proof {
        use_type_invariant(&a);
        Tnum::lemma_wf(a);
        lemma_zero_mask(0, 0);
        assert forall|x: u64| a@.has(x) implies lshift_spec(a@, shift).has(x << shift) by {
            lemma_shift_bits(a@.value, a@.mask, x, shift);
        }
        lemma_shift_bits(a@.value, a@.mask, 0, shift);
    }
    if shift >= 64 {
        Tnum::new(0, 0)
    } else {
        Tnum::new(a.value() << shift, a.mask() << shift)
    }
}

/// Shifts `a` right by `shift` bits; from 64 on every bit is shifted out.
pub fn tnum_rshift(a: Tnum, shift: u8) -> (r: Tnum)
    ensures
        r@ == rshift_spec(a@, shift),
        r@.wf(),
        forall|x: u64| a@.has(x) ==> r@.has(#[trigger] (x >> shift)),
{
    proof {
        use_type_invariant(&a);
        Tnum::lemma_wf(a);
        lemma_zero_mask(0, 0);
        assert forall|x: u64| a@.has(x) implies rshift_spec(a@, shift).has(x >> shift) by {
            lemma_shift_bits(a@.value, a@.mask, x, shift);
        }
        lemma_shift_bits(a@.value, a@.mask, 0, shift);
    }
    if shift >= 64 {
        Tnum::new(0, 0)
    } else {
        Tnum::new(a.value() >> shift, a.mask() >> shift)
    }
}

proof fn lemma_sar32_bits(v: u64, m: u64, x: u64, s: u8)
    by (bit_vector)
    ensures
        v & m == 0 ==> sar32(v, s) & sar32(m, s) == 0,
        sar32(v, s) == (((v as i32) >> (if s > 31 { 31u8 } else { s })) as u32) as u64,
        x & !m == v ==> sar32(x, s) & !sar32(m, s) == sar32(v, s),
{
}

proof fn lemma_sar64_bits(v: u64, m: u64, x: u64, s: u8)
    by (bit_vector)
    ensures
        v & m == 0 ==> sar64(v, s) & sar64(m, s) == 0,
        sar64(v, s) == ((v as i64) >> (if s > 63 { 63u8 } else { s })) as u64,
        x & !m == v ==> sar64(x, s) & !sar64(m, s) == sar64(v, s),
{
}

/// Arithmetic right shift by `min_shift` in 32-bit mode (`insn_bitness == 32`) or in 64-bit
/// mode (any other bitness): value and mask are each sign-extended from the width's top bit.
/// A shift past the width leaves only copies of that bit.
pub fn tnum_arshift(a: Tnum, min_shift: u8, insn_bitness: u8) -> (r: Tnum)
    ensures
        r@ == arshift_spec(a@, min_shift, insn_bitness),
        insn_bitness == 32 ==> forall|x: u64| a@.has(x) ==> r@.has(#[trigger] sar32(x, min_shift)),
        insn_bitness != 32 ==> forall|x: u64| a@.has(x) ==> r@.has(#[trigger] sar64(x, min_shift)),
{
    proof {
        use_type_invariant(&a);
        Tnum::lemma_wf(a);
        lemma_sar32_bits(a@.value, a@.mask, 0, min_shift);
        lemma_sar32_bits(a@.mask, 0, 0, min_shift);
        lemma_sar64_bits(a@.value, a@.mask, 0, min_shift);
        lemma_sar64_bits(a@.mask, 0, 0, min_shift);
        assert forall|x: u64| a@.has(x) implies arshift_spec(a@, min_shift, insn_bitness).has(
            if insn_bitness == 32 { sar32(x, min_shift) } else { sar64(x, min_shift) },
        ) by {
            lemma_sar32_bits(a@.value, a@.mask, x, min_shift);
            lemma_sar64_bits(a@.value, a@.mask, x, min_shift);
        }
    }
    if insn_bitness == 32 {
        let s: u8 = if min_shift > 31 { 31 } else { min_shift };
        let sv = #[verifier::truncate] (a.value() as i32);
        let sm = #[verifier::truncate] (a.mask() as i32);
        let value = #[verifier::truncate] ((sv >> s) as u32);
        let mask = #[verifier::truncate] ((sm >> s) as u32);
        Tnum::new(value as u64, mask as u64)
    } else {
        let s: u8 = if min_shift > 63 { 63 } else { min_shift };
        let sv = #[verifier::truncate] (a.value() as i64);
        let sm = #[verifier::truncate] (a.mask() as i64);
        let value = #[verifier::truncate] ((sv >> s) as u64);
        let mask = #[verifier::truncate] ((sm >> s) as u64);
        Tnum::new(value, mask)
    }
}

} // verus!

verus! {

/// The low 32 bits of a word.
pub open spec fn low32() -> u64 {
    0xffff_ffffu64
}

/// The high 32 bits of a word.
pub open spec fn high32() -> u64 {
    0xffff_ffff_0000_0000u64
}

proof fn lemma_subreg_bits(rv: u64, rm: u64, sv: u64, sm: u64)
    by (bit_vector)
    ensures
        ((1u64 << (4u8 * 8)) - 1) as u64 == low32(),
        (rv >> 32u8) << 32u8 == rv & high32(),
        (rm >> 32u8) << 32u8 == rm & high32(),
        (rv & rm == 0 && sv & sm == 0) ==> ({
            let v = (rv & high32()) | (sv & low32());
            let mu = (rm & high32()) | (sm & low32());
            (mu & !v) == mu
        }),
{
}

/// The 32-bit subregister of `a`: its low 32 bits.
pub fn tnum_subreg(a: Tnum) -> (r: Tnum)
    ensures
        r@ == tv(a@.value & low32(), a@.mask & low32()),
{
    proof {
        lemma_subreg_bits(0, 0, 0, 0);
    }
    tnum_cast(a, 4)
}

/// `a` with its 32-bit subregister cleared to known zero.
pub fn tnum_clear_subreg(a: Tnum) -> (r: Tnum)
    ensures
        r@ == tv(a@.value & high32(), a@.mask & high32()),
{
    proof {
        lemma_subreg_bits(a@.value, a@.mask, 0, 0);
    }
    tnum_lshift(tnum_rshift(a, 32), 32)
}

/// The high 32 bits of `reg` with the low 32 bits of `subreg`.
pub fn tnum_with_subreg(reg: Tnum, subreg: Tnum) -> (r: Tnum)
    ensures
        r@ == tv(
            (reg@.value & high32()) | (subreg@.value & low32()),
            (reg@.mask & high32()) | (subreg@.mask & low32()),
        ),
{
    proof {
        use_type_invariant(&reg);
        use_type_invariant(&subreg);
        Tnum::lemma_wf(reg);
        Tnum::lemma_wf(subreg);
        lemma_subreg_bits(reg@.value, reg@.mask, subreg@.value, subreg@.mask);
    }
    tnum_or(tnum_clear_subreg(reg), tnum_subreg(subreg))
}

/// The high 32 bits of `a` with the known low 32 bits `value`.
pub fn tnum_const_subreg(a: Tnum, value: u32) -> (r: Tnum)
    ensures
        r@ == tv((a@.value & high32()) | value as u64, a@.mask & high32()),
{
    proof {
        lemma_subreg_low(a@.mask, value);
    }
    tnum_with_subreg(a, tnum_const(value as u64))
}

proof fn lemma_subreg_low(m: u64, value: u32)
    by (bit_vector)
    ensures
        (value as u64) & low32() == value as u64,
        (m & high32()) | (0u64 & low32()) == m & high32(),
{
}

} // verus!
