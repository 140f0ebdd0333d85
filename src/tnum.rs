//! The tristate number and its lattice operations.
use vstd::prelude::*;
use vstd::std_specs::bits::{axiom_u64_leading_zeros, u64_leading_zeros};

verus! {

/// Reduces an integer modulo 2^64: the value that 64-bit wrapping arithmetic yields.
pub open spec fn wrap(n: int) -> u64 {
    (n % 0x1_0000_0000_0000_0000) as u64
}

/// The mathematical content of a tnum: the bits known to be one (`value`) and the
/// bits that are unknown (`mask`).
pub struct TnumView {
    pub value: u64,
    pub mask: u64,
}

impl TnumView {
    /// No bit is both unknown and known to be one.
    pub open spec fn wf(self) -> bool {
        self.value & self.mask == 0
    }

    /// The concrete word `x` is one of the words the tnum stands for: it agrees with
    /// `value` on every known bit.
    pub open spec fn has(self, x: u64) -> bool {
        x & !self.mask == self.value
    }
}

/// The view with the given parts.
pub open spec fn tv(value: u64, mask: u64) -> TnumView {
    TnumView { value, mask }
}

/// `b` is contained in `a`: every bit unknown in `b` is unknown in `a`, and on the bits
/// that `a` knows, `b` holds `a`'s value.
pub open spec fn contains_spec(a: TnumView, b: TnumView) -> bool {
    b.mask & !a.mask == 0 && a.value == b.value & !a.mask
}

/// The number of bits needed to write `x` (0 for 0).
pub open spec fn bit_len(x: u64) -> int {
    64 - u64_leading_zeros(x)
}

/// The tnum over `[min, max]`: the bits from the highest bit in which `min` and `max`
/// differ down are unknown, those above are known from `min`.
pub open spec fn range_spec(min: u64, max: u64) -> TnumView {
    let bits = bit_len(min ^ max);
    if bits > 63 {
        tv(0, u64::MAX)
    } else {
        let delta = ((1u64 << bits) - 1) as u64;
        tv(min & !delta, delta)
    }
}

/// The join: a bit is known only where both arguments know it and agree on it.
pub open spec fn join_spec(a: TnumView, b: TnumView) -> TnumView {
    let v = a.value ^ b.value;
    let m = (a.mask | b.mask) | v;
    tv((a.value | b.value) & !m, m)
}

/// The meet: a bit is unknown only where both arguments leave it unknown; elsewhere it
/// takes the known value of either.
pub open spec fn intersect_spec(a: TnumView, b: TnumView) -> TnumView {
    let v = a.value | b.value;
    let mu = a.mask & b.mask;
    tv(v & !mu, mu)
}

/// The word with the low `8 * size` bits set (every bit from eight bytes on).
pub open spec fn low_bytes(size: u8) -> u64 {
    if size >= 8 {
        u64::MAX
    } else {
        ((1u64 << (size * 8)) - 1) as u64
    }
}

/// Truncation to the low `size` bytes.
pub open spec fn cast_spec(a: TnumView, size: u8) -> TnumView {
    tv(a.value & low_bytes(size), a.mask & low_bytes(size))
}

/// The known bits of `a` and `b` agree, so that their meet is not empty.
pub open spec fn compatible(a: TnumView, b: TnumView) -> bool {
    (a.value ^ b.value) & !a.mask & !b.mask == 0
}

/// A tristate number: a 64-bit word of which some bits are known and others unknown.
#[derive(Debug, Clone, Copy, PartialEq, Eq)]
pub struct Tnum {
    value: u64,
    mask: u64,
}

impl View for Tnum {
    type V = TnumView;

    closed spec fn view(&self) -> TnumView {
        tv(self.value, self.mask)
    }
}

impl Tnum {
    /// No bit of a tnum is both unknown and known to be one.
    #[verifier::type_invariant]
    pub closed spec fn inv(self) -> bool {
        self.value & self.mask == 0
    }

    /// The invariant of a tnum, as `use_type_invariant` supplies it, seen on its view.
    pub proof fn lemma_wf(t: Tnum)
        requires
            t.inv(),
        ensures
            t@.wf(),
    {
    }

    /// Builds the tnum whose known bits are `value` and whose unknown bits are `mask`.
    pub fn new(value: u64, mask: u64) -> (r: Self)
        requires
            value & mask == 0,
        ensures
            r@ == tv(value, mask),
    {
        Tnum { value, mask }
    }

    /// The bits known to be one.
    pub fn value(&self) -> (r: u64)
        ensures
            r == self@.value,
    {
        self.value
    }

    /// The unknown bits.
    pub fn mask(&self) -> (r: u64)
        ensures
            r == self@.mask,
    {
        self.mask
    }
}

/// The fully known tnum holding `value`.
pub fn tnum_const(value: u64) -> (r: Tnum)
    ensures
        r@ == tv(value, 0),
        forall|x: u64| r@.has(x) <==> x == value,
{
    assert forall|x: u64| tv(value, 0).has(x) <==> x == value by {
        lemma_zero_mask(value, x);
    }
    proof {
        lemma_zero_mask(value, 0);
    }
    Tnum::new(value, 0)
}

/// With no unknown bit, a tnum holds its value alone; with every bit unknown, it holds
/// every word.
pub proof fn lemma_zero_mask(v: u64, x: u64)
    by (bit_vector)
    ensures
        v & 0 == 0,
        x & !0u64 == x,
        0u64 & u64::MAX == 0,
        x & !u64::MAX == 0,
{
}

/// Clearing the bits of `d` from `v` leaves a value disjoint from `d`.
pub proof fn lemma_clear_wf(v: u64, d: u64)
    by (bit_vector)
    ensures
        (v & !d) & d == 0,
        d & (v & !d) == 0,
{
}

proof fn lemma_low_ones(k: u64)
    by (bit_vector)
    requires
        k < 64,
    ensures
        (1u64 << k) >= 1,
{
}

proof fn lemma_range_sound(min: u64, max: u64, x: u64, bits: u64)
    by (bit_vector)
    requires
        bits < 64,
        (min ^ max) >> bits == 0,
        min <= x <= max,
    ensures
        x & !(((1u64 << bits) - 1) as u64) == min & !(((1u64 << bits) - 1) as u64),
{
}

/// The tightest tnum over the interval `[min, max]`: the bits above the highest bit in
/// which `min` and `max` differ are known, the others unknown.
pub fn tnum_range(min: u64, max: u64) -> (r: Tnum)
    ensures
        r@ == range_spec(min, max),
        forall|x: u64| min <= x <= max ==> r@.has(x),
{
    let chi = min ^ max;
    let lz = chi.leading_zeros();
    proof {
        axiom_u64_leading_zeros(chi);
    }
    let bits = (64 - lz) as u64;
    if bits > 63 {
        assert forall|x: u64| min <= x <= max implies range_spec(min, max).has(x) by {
            lemma_zero_mask(0, x);
        }
        proof {
            lemma_zero_mask(0, 0);
        }
        return Tnum::new(0, u64::MAX);
    }
    proof {
        lemma_low_ones(bits);
    }
    let delta = (1u64 << bits) - 1;
    assert forall|x: u64| min <= x <= max implies range_spec(min, max).has(x) by {
        lemma_range_sound(min, max, x, bits);
    }
    proof {
        lemma_clear_wf(min, delta);
    }
    Tnum::new(min & !delta, delta)
}

proof fn lemma_range_witnesses(min: u64, max: u64, k: u64, tval: u64, tm: u64)
    by (bit_vector)
    requires
        k < 64,
        ((min ^ max) >> k) & 1 != 0,
        (min ^ max) >> ((k + 1) as u64) == 0,
        min <= max,
    ensures
        ({
            let h = 1u64 << k;
            let low = (h - 1) as u64;
            let d = h | low;
            let w1 = (min & !d) | low;
            let w2 = (min & !d) | h;
            &&& min <= w1 <= max
            &&& min <= w2 <= max
            &&& (w1 & !tm == tval && w2 & !tm == tval) ==> (d & !tm == 0 && tval == (min & !d) & !tm)
            &&& k < 63 ==> d == ((1u64 << ((k + 1) as u64)) - 1) as u64
            &&& k == 63 ==> d == u64::MAX && min & !d == 0
        }),
{
}

/// The range is the tightest tnum over the interval: every tnum that holds each word of
/// `[min, max]` contains it.
pub proof fn lemma_range_tightest(min: u64, max: u64, t: TnumView)
    requires
        min <= max,
        forall|x: u64| min <= x <= max ==> #[trigger] t.has(x),
    ensures
        contains_spec(t, range_spec(min, max)),
{
    let chi = min ^ max;
    axiom_u64_leading_zeros(chi);
    let bits = bit_len(chi);
    if bits == 0 {
        assert(t.has(min));
        lemma_xor_zero(min, max);
        lemma_has_iff_contains_const(t, min);
        lemma_low_ones(0);
    } else {
        let k = (bits - 1) as u64;
        lemma_range_witnesses(min, max, k, t.value, t.mask);
        lemma_low_ones(k);
        let h = 1u64 << k;
        let low = (h - 1) as u64;
        let d = h | low;
        assert(t.has((min & !d) | low));
        assert(t.has((min & !d) | h));
    }
}

proof fn lemma_xor_zero(min: u64, max: u64)
    by (bit_vector)
    ensures
        min ^ max == 0 ==> min == max && (1u64 << 0u64) - 1 == 0 && min & !0u64 == min,
{
}

proof fn lemma_join(av: u64, am: u64, bv: u64, bm: u64, x: u64)
    by (bit_vector)
    ensures
        ({
            let v = av ^ bv;
            let m = (am | bm) | v;
            &&& ((av | bv) & !m) & m == 0
            &&& (x & !am == av || x & !bm == bv) ==> x & !m == (av | bv) & !m
        }),
{
}

/// The join holds every word of either argument, and is well formed.
pub proof fn lemma_join_sound(a: TnumView, b: TnumView, x: u64)
    ensures
        join_spec(a, b).wf(),
        a.has(x) || b.has(x) ==> join_spec(a, b).has(x),
{
    lemma_join(a.value, a.mask, b.value, b.mask, x);
}

/// The least tnum over both arguments: a bit is known only where both know it and agree.
pub fn tnum_join(a: Tnum, b: Tnum) -> (r: Tnum)
    ensures
        r@ == join_spec(a@, b@),
        forall|x: u64| a@.has(x) || b@.has(x) ==> r@.has(x),
{
    proof {
        use_type_invariant(&a);
        use_type_invariant(&b);
    }
    let v = a.value ^ b.value;
    let m = (a.mask | b.mask) | v;
    proof {
        lemma_join(a.value, a.mask, b.value, b.mask, 0);
    }
    assert forall|x: u64| a@.has(x) || b@.has(x) implies join_spec(a@, b@).has(x) by {
        lemma_join(a.value, a.mask, b.value, b.mask, x);
    }
    Tnum::new((a.value | b.value) & !m, m)
}

proof fn lemma_intersect(av: u64, am: u64, bv: u64, bm: u64, x: u64)
    by (bit_vector)
    requires
        av & am == 0,
        bv & bm == 0,
    ensures
        ({
            let v = av | bv;
            let mu = am & bm;
            &&& (v & !mu) & mu == 0
            &&& (x & !am == av && x & !bm == bv) ==> x & !mu == v & !mu
        }),
{
}

/// The meet of two tnums: a bit is unknown only where both leave it unknown.
pub fn tnum_intersect(a: Tnum, b: Tnum) -> (r: Tnum)
    ensures
        r@ == intersect_spec(a@, b@),
        forall|x: u64| a@.has(x) && b@.has(x) ==> r@.has(x),
{
    proof {
        use_type_invariant(&a);
        use_type_invariant(&b);
        lemma_intersect(a.value, a.mask, b.value, b.mask, 0);
    }
    let v = a.value | b.value;
    let mu = a.mask & b.mask;
    assert forall|x: u64| a@.has(x) && b@.has(x) implies intersect_spec(a@, b@).has(x) by {
        lemma_intersect(a.value, a.mask, b.value, b.mask, x);
    }
    Tnum::new(v & !mu, mu)
}

proof fn lemma_cast(v: u64, m: u64, lm: u64, x: u64)
    by (bit_vector)
    requires
        v & m == 0,
    ensures
        (v & lm) & (m & lm) == 0,
        x & !m == v ==> (x & lm) & !(m & lm) == v & lm,
{
}

/// Truncates `a` to its low `size` bytes; from eight bytes on, `a` is kept whole.
pub fn tnum_cast(a: Tnum, size: u8) -> (r: Tnum)
    ensures
        r@ == cast_spec(a@, size),
        forall|x: u64| a@.has(x) ==> r@.has(x & low_bytes(size)),
{
    proof {
        use_type_invariant(&a);
    }
    let lm: u64 = if size >= 8 {
        u64::MAX
    } else {
        proof {
            lemma_low_ones((size * 8) as u64);
        }
        (1u64 << (size * 8)) - 1
    };
    assert forall|x: u64| a@.has(x) implies cast_spec(a@, size).has(x & low_bytes(size)) by {
        lemma_cast(a.value, a.mask, lm, x);
    }
    proof {
        lemma_cast(a.value, a.mask, lm, 0);
    }
    Tnum::new(a.value & lm, a.mask & lm)
}

/// Whether every word of `a` is a multiple of `size` (a power of two), as far as the
/// low bits show: true for `size == 0`, else the low bits below `size` are all known zero.
pub fn tnum_is_aligned(a: Tnum, size: u64) -> (r: bool)
    ensures
        r == (size == 0 || (a@.value | a@.mask) & ((size - 1) as u64) == 0),
{
    if size == 0 {
        true
    } else {
        ((a.value | a.mask) & (size - 1)) == 0
    }
}

/// Whether `b` is contained in `a` (every word of `b` is a word of `a`).
pub fn tnum_in(a: Tnum, b: Tnum) -> (r: bool)
    ensures
        r == contains_spec(a@, b@),
        r <==> forall|x: u64| b@.has(x) ==> a@.has(x),
{
    proof {
        use_type_invariant(&b);
        lemma_contains_iff_subset(a@, b@);
    }
    if (b.mask & !a.mask) != 0 {
        false
    } else {
        a.value == (b.value & !a.mask)
    }
}

proof fn lemma_contains_bits(av: u64, am: u64, bv: u64, bm: u64, x: u64)
    by (bit_vector)
    requires
        bv & bm == 0,
    ensures
        (bm & !am == 0 && av == bv & !am && x & !bm == bv) ==> x & !am == av,
        ((bv & !am == av) && ((bv | bm) & !am == av)) ==> (bm & !am == 0 && av == bv & !am),
        bv & !bm == bv,
        (bv | bm) & !bm == bv,
{
}

/// Containment is inclusion of the words denoted, for a well formed `b`.
pub proof fn lemma_contains_iff_subset(a: TnumView, b: TnumView)
    requires
        b.wf(),
    ensures
        contains_spec(a, b) <==> forall|x: u64| b.has(x) ==> a.has(x),
{
    if contains_spec(a, b) {
        assert forall|x: u64| b.has(x) implies a.has(x) by {
            lemma_contains_bits(a.value, a.mask, b.value, b.mask, x);
        }
    }
    lemma_contains_bits(a.value, a.mask, b.value, b.mask, 0);
    if forall|x: u64| b.has(x) ==> a.has(x) {
        assert(b.has(b.value));
        assert(b.has(b.value | b.mask));
    }
}

proof fn lemma_join_bits(av: u64, am: u64, bv: u64, bm: u64, x: u64)
    by (bit_vector)
    ensures
        (0u64 & !am == 0 && (av == x & !am)) <==> x & !am == av,
        ({
            let m = (am | bm) | (av ^ bv);
            let jv = (av | bv) & !m;
            &&& am & !m == 0 && jv == av & !m
            &&& bm & !m == 0 && jv == bv & !m
        }),
        av & am == 0 ==> ((av | av) & !((am | am) | (av ^ av)) == av && (am | am) | (av ^ av) == am),
        av & am == 0 ==> (am & !am == 0 && av == av & !am),
{
}

proof fn lemma_meet_bits(av: u64, am: u64, bv: u64, bm: u64, cv: u64, cm: u64)
    by (bit_vector)
    ensures
        (av & am == 0 && bv & bm == 0 && (av ^ bv) & !am & !bm == 0) ==> ({
            let mu = am & bm;
            let iv = (av | bv) & !mu;
            &&& mu & !am == 0 && av == iv & !am
            &&& mu & !bm == 0 && bv == iv & !bm
        }),
        (bm & !am == 0 && av == bv & !am && cm & !bm == 0 && bv == cv & !bm) ==> (cm & !am == 0
            && av == cv & !am),
{
}

/// A word belongs to a tnum exactly when the tnum contains the constant tnum of that word.
pub proof fn lemma_has_iff_contains_const(a: TnumView, x: u64)
    ensures
        a.has(x) <==> contains_spec(a, tv(x, 0)),
{
    lemma_join_bits(a.value, a.mask, 0, 0, x);
}

/// The join contains both of its arguments, and joining a tnum with itself gives it back.
pub proof fn lemma_join_upper_bound(a: TnumView, b: TnumView)
    requires
        a.wf(),
    ensures
        contains_spec(join_spec(a, b), a),
        contains_spec(join_spec(a, b), b),
        join_spec(a, a) == a,
{
    lemma_join_bits(a.value, a.mask, b.value, b.mask, 0);
}

/// When the known bits of two well formed tnums agree, each contains their meet.
pub proof fn lemma_meet_lower_bound(a: TnumView, b: TnumView)
    requires
        a.wf(),
        b.wf(),
        compatible(a, b),
    ensures
        contains_spec(a, intersect_spec(a, b)),
        contains_spec(b, intersect_spec(a, b)),
{
    lemma_meet_bits(a.value, a.mask, b.value, b.mask, 0, 0);
}

proof fn lemma_bound_bits(av: u64, am: u64, bv: u64, bm: u64, tval: u64, tm: u64)
    by (bit_vector)
    ensures
        (av & am == 0 && bv & bm == 0 && am & !tm == 0 && tval == av & !tm && bm & !tm == 0 && tval
            == bv & !tm) ==> ({
            let m = (am | bm) | (av ^ bv);
            m & !tm == 0 && tval == ((av | bv) & !m) & !tm
        }),
        (av & am == 0 && bv & bm == 0 && tm & !am == 0 && av == tval & !am && tm & !bm == 0 && bv
            == tval & !bm) ==> ({
            let mu = am & bm;
            tm & !mu == 0 && (av | bv) & !mu == tval & !mu
        }),
{
}

/// The join is the least upper bound: a tnum that contains both arguments contains it.
pub proof fn lemma_join_least(a: TnumView, b: TnumView, t: TnumView)
    requires
        a.wf(),
        b.wf(),
        contains_spec(t, a),
        contains_spec(t, b),
    ensures
        contains_spec(t, join_spec(a, b)),
{
    lemma_bound_bits(a.value, a.mask, b.value, b.mask, t.value, t.mask);
}

/// The meet is the greatest lower bound: a tnum contained in both arguments is contained
/// in it.
pub proof fn lemma_meet_greatest(a: TnumView, b: TnumView, t: TnumView)
    requires
        a.wf(),
        b.wf(),
        contains_spec(a, t),
        contains_spec(b, t),
    ensures
        contains_spec(intersect_spec(a, b), t),
{
    lemma_bound_bits(a.value, a.mask, b.value, b.mask, t.value, t.mask);
}

/// Every well formed tnum contains itself.
pub proof fn lemma_contains_refl(a: TnumView)
    requires
        a.wf(),
    ensures
        contains_spec(a, a),
{
    lemma_join_bits(a.value, a.mask, 0, 0, 0);
}

/// Containment is transitive.
pub proof fn lemma_contains_transitive(a: TnumView, b: TnumView, c: TnumView)
    requires
        contains_spec(a, b),
        contains_spec(b, c),
    ensures
        contains_spec(a, c),
{
    lemma_meet_bits(a.value, a.mask, b.value, b.mask, c.value, c.mask);
}

} // verus!

