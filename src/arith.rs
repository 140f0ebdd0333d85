//! Addition and subtraction of tnums by carry propagation.
use vstd::prelude::*;
use crate::tnum::{tv, wrap, Tnum, TnumView};

verus! {

/// The tnum sum: the sum of the known values, with every bit that a carry out of an
/// unknown bit may reach marked unknown.
pub open spec fn add_spec(a: TnumView, b: TnumView) -> TnumView {
    let sm = (a.mask + b.mask) as u64;
    let sv = (a.value + b.value) as u64;
    let sigma = (sm + sv) as u64;
    let chi = sigma ^ sv;
    let mu = chi | a.mask | b.mask;
    tv(sv & !mu, mu)
}

/// The tnum difference: the difference of the known values, with every bit that a borrow
/// through an unknown bit may reach marked unknown.
pub open spec fn sub_spec(a: TnumView, b: TnumView) -> TnumView {
    let dv = (a.value - b.value) as u64;
    let alpha = (dv + a.mask) as u64;
    let beta = (dv - b.mask) as u64;
    let chi = alpha ^ beta;
    let mu = chi | a.mask | b.mask;
    tv(dv & !mu, mu)
}

/// 64-bit wrapping addition and subtraction, and the truncating casts of the formulas.
pub proof fn lemma_wrapping(x: u64, y: u64)
    by (bit_vector)
    ensures
        x.wrapping_add(y) == (x + y) as u64,
        x.wrapping_sub(y) == (x - y) as u64,
        (x + y) as u64 == wrap(x + y),
        (x - y) as u64 == wrap(x - y),
{
}

proof fn lemma_add_bits(av: u64, am: u64, bv: u64, bm: u64, x: u64, y: u64)
    by (bit_vector)
    requires
        x & !am == av,
        y & !bm == bv,
    ensures
        ({
            let sm = (am + bm) as u64;
            let sv = (av + bv) as u64;
            let mu = (((sm + sv) as u64) ^ sv) | am | bm;
            wrap(x + y) & !mu == sv & !mu
        }),
{
}

proof fn lemma_sub_bits(av: u64, am: u64, bv: u64, bm: u64, x: u64, y: u64)
    by (bit_vector)
    requires
        x & !am == av,
        y & !bm == bv,
    ensures
        ({
            let dv = (av - bv) as u64;
            let mu = (((dv + am) as u64) ^ ((dv - bm) as u64)) | am | bm;
            wrap(x - y) & !mu == dv & !mu
        }),
{
}

/// The sum of a word of `a` and a word of `b` is a word of their tnum sum.
pub proof fn lemma_add_sound(a: TnumView, b: TnumView, x: u64, y: u64)
    requires
        a.has(x),
        b.has(y),
    ensures
        add_spec(a, b).has(wrap(x + y)),
        add_spec(a, b).wf(),
{
    lemma_add_bits(a.value, a.mask, b.value, b.mask, x, y);
    crate::tnum::lemma_clear_wf(((a.value + b.value) as u64), add_spec(a, b).mask);
}

/// The difference of a word of `a` and a word of `b` is a word of their tnum difference.
pub proof fn lemma_sub_sound(a: TnumView, b: TnumView, x: u64, y: u64)
    requires
        a.has(x),
        b.has(y),
    ensures
        sub_spec(a, b).has(wrap(x - y)),
{
    lemma_sub_bits(a.value, a.mask, b.value, b.mask, x, y);
}

/// Tnum addition: the known sum, with every bit that a carry out of an unknown bit may
/// reach marked unknown.
pub fn tnum_add(a: Tnum, b: Tnum) -> (r: Tnum)
    ensures
        r@ == add_spec(a@, b@),
        forall|x: u64, y: u64| a@.has(x) && b@.has(y) ==> r@.has(#[trigger] wrap(x + y)),
{
    let (av, am, bv, bm) = (a.value(), a.mask(), b.value(), b.mask());
    proof {
        lemma_wrapping(am, bm);
        lemma_wrapping(av, bv);
        lemma_wrapping(am.wrapping_add(bm), av.wrapping_add(bv));
    }
    let sm = am.wrapping_add(bm);
    let sv = av.wrapping_add(bv);
    let sigma = sm.wrapping_add(sv);
    let chi = sigma ^ sv;
    let mu = chi | am | bm;
    proof {
        crate::tnum::lemma_clear_wf(sv, mu);
    }
    assert forall|x: u64, y: u64| a@.has(x) && b@.has(y) implies add_spec(a@, b@).has(
        wrap(x + y),
    ) by {
        lemma_add_sound(a@, b@, x, y);
    }
    Tnum::new(sv & !mu, mu)
}

/// Tnum subtraction: the known difference, with every bit that a borrow through an
/// unknown bit may reach marked unknown.
pub fn tnum_sub(a: Tnum, b: Tnum) -> (r: Tnum)
    ensures
        r@ == sub_spec(a@, b@),
        forall|x: u64, y: u64| a@.has(x) && b@.has(y) ==> r@.has(#[trigger] wrap(x - y)),
{
    let (av, am, bv, bm) = (a.value(), a.mask(), b.value(), b.mask());
    proof {
        lemma_wrapping(av, bv);
    }
    let dv = av.wrapping_sub(bv);
    proof {
        lemma_wrapping(dv, am);
        lemma_wrapping(dv, bm);
    }
    let alpha = dv.wrapping_add(am);
    let beta = dv.wrapping_sub(bm);
    let chi = alpha ^ beta;
    let mu = chi | am | bm;
    proof {
        crate::tnum::lemma_clear_wf(dv, mu);
    }
    assert forall|x: u64, y: u64| a@.has(x) && b@.has(y) implies sub_spec(a@, b@).has(
        wrap(x - y),
    ) by {
        lemma_sub_sound(a@, b@, x, y);
    }
    Tnum::new(dv & !mu, mu)
}

} // verus!
