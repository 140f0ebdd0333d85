//! The multiplication methods as one enumeration, and how the output of one method compares
//! in precision with a reference output.
use vstd::prelude::*;
use crate::high_mul::{lemma_xhigh_top_sound, xhigh_top_spec, xtnum_mul_high_top};
use crate::mul::{lemma_mul_opt_sound, lemma_mul_sound, mul_opt_spec, mul_spec, tnum_mul, tnum_mul_opt};
use crate::split_mul::{lemma_xmul_top_sound, xmul_top_spec, xtnum_mul_top};
use crate::tnum::{contains_spec, lemma_contains_refl, tnum_in, tv, wrap, Tnum, TnumView};

verus! {

/// A tnum multiplication method.
#[derive(Debug, Clone, Copy, PartialEq, Eq)]
pub enum MulMethod {
    /// Bit scanning (`tnum_mul`).
    TnumMul,
    /// Bit scanning with the power-of-two fast path (`tnum_mul_opt`).
    TnumMulOpt,
    /// Splitting at unknown bits (`xtnum_mul_top`).
    XtnumMulTop,
    /// Clearing possibly-one bits from the top (`xtnum_mul_high_top`).
    XtnumMulHighTop,
}

/// What a method returns on `a` and `b`.
pub open spec fn method_spec(m: MulMethod, a: TnumView, b: TnumView) -> TnumView {
    match m {
        MulMethod::TnumMul => mul_spec(a, b),
        MulMethod::TnumMulOpt => mul_opt_spec(a, b),
        MulMethod::XtnumMulTop => xmul_top_spec(a, b),
        MulMethod::XtnumMulHighTop => xhigh_top_spec(a, b),
    }
}

/// The name by which records identify a method.
pub open spec fn method_name(m: MulMethod) -> Seq<char> {
    match m {
        MulMethod::TnumMul => "tnum_mul"@,
        MulMethod::TnumMulOpt => "tnum_mul_opt"@,
        MulMethod::XtnumMulTop => "xtnum_mul_top"@,
        MulMethod::XtnumMulHighTop => "xtnum_mul_high_top"@,
    }
}

/// Every method holds the wrapped product of every pair of words of its operands; no
/// method is required to contain another's output.
pub proof fn lemma_methods_sound(m: MulMethod, a: TnumView, b: TnumView, x: u64, y: u64)
    requires
        a.wf(),
        b.wf(),
        a.has(x),
        b.has(y),
    ensures
        method_spec(m, a, b).has(wrap(x * y)),
{
    match m {
        MulMethod::TnumMul => lemma_mul_sound(a, b, x, y),
        MulMethod::TnumMulOpt => lemma_mul_opt_sound(a, b, x, y),
        MulMethod::XtnumMulTop => lemma_xmul_top_sound(a, b, x, y),
        MulMethod::XtnumMulHighTop => lemma_xhigh_top_sound(a, b, x, y),
    }
}

impl MulMethod {
    /// The name of the method.
    pub fn name(&self) -> (r: &'static str)
        ensures
            r@ == method_name(*self),
    {
        match self {
            MulMethod::TnumMul => "tnum_mul",
            MulMethod::TnumMulOpt => "tnum_mul_opt",
            MulMethod::XtnumMulTop => "xtnum_mul_top",
            MulMethod::XtnumMulHighTop => "xtnum_mul_high_top",
        }
    }

    /// Runs the method on `a` and `b`.
    pub fn apply(&self, a: Tnum, b: Tnum) -> (r: Tnum)
        ensures
            r@ == method_spec(*self, a@, b@),
    {
        match self {
            MulMethod::TnumMul => tnum_mul(a, b),
            MulMethod::TnumMulOpt => tnum_mul_opt(a, b),
            MulMethod::XtnumMulTop => xtnum_mul_top(a, b),
            MulMethod::XtnumMulHighTop => xtnum_mul_high_top(a, b),
        }
    }
}

/// Every method, in the order in which they are compared.
pub fn methods() -> (r: Vec<MulMethod>)
    ensures
        r@ == seq![
            MulMethod::TnumMul,
            MulMethod::TnumMulOpt,
            MulMethod::XtnumMulTop,
            MulMethod::XtnumMulHighTop,
        ],
{
    let r = vec![
        MulMethod::TnumMul,
        MulMethod::TnumMulOpt,
        MulMethod::XtnumMulTop,
        MulMethod::XtnumMulHighTop,
    ];
    assert(r@ =~= seq![
        MulMethod::TnumMul,
        MulMethod::TnumMulOpt,
        MulMethod::XtnumMulTop,
        MulMethod::XtnumMulHighTop,
    ]);
    r
}

/// How an output compares with a reference output.
#[derive(Debug, Clone, Copy, PartialEq, Eq)]
pub enum Comparison {
    /// The same value and mask.
    Equal,
    /// Different, and the output contains the reference.
    LessPrecise,
    /// Different, and the reference contains the output.
    MorePrecise,
    /// Neither contains the other.
    Incomparable,
}

/// Compares `output` with `reference`: equal, else less precise where `output` contains
/// `reference`, else more precise where `reference` contains `output`, else incomparable.
pub fn compare_outputs(output: Tnum, reference: Tnum) -> (r: Comparison)
    ensures
        (r == Comparison::Equal) == (output@ == reference@),
        (r == Comparison::LessPrecise) == (output@ != reference@ && contains_spec(
            output@,
            reference@,
        )),
        (r == Comparison::MorePrecise) == (output@ != reference@ && !contains_spec(
            output@,
            reference@,
        ) && contains_spec(reference@, output@)),
        (r == Comparison::Incomparable) == (!contains_spec(output@, reference@) && !contains_spec(
            reference@,
            output@,
        )),
{
    proof {
        use_type_invariant(&output);
        Tnum::lemma_wf(output);
        lemma_contains_refl(output@);
    }
    if output.value() == reference.value() && output.mask() == reference.mask() {
        Comparison::Equal
    } else if tnum_in(output, reference) {
        Comparison::LessPrecise
    } else if tnum_in(reference, output) {
        Comparison::MorePrecise
    } else {
        Comparison::Incomparable
    }
}

/// The tnum of two raw words: `value` is known, and the bits of `bits` outside it are
/// unknown.
pub fn tnum_from_raw(value: u64, bits: u64) -> (r: Tnum)
    ensures
        r@ == tv(value, (value & bits) ^ bits),
{
    assert(value & ((value & bits) ^ bits) == 0) by (bit_vector);
    Tnum::new(value, (value & bits) ^ bits)
}

} // verus!
