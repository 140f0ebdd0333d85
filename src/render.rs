//! The fixed-width bit-pattern text of a tnum.
use vstd::prelude::*;
use vstd::string::StringExecFns;
use crate::tnum::{Tnum, TnumView};

verus! {

/// The character of bit `k` of `a`: `x` where unknown, else its known digit.
pub open spec fn bit_char(a: TnumView, k: int) -> char {
    if (a.mask >> (k as u64)) & 1 == 1 {
        'x'
    } else if (a.value >> (k as u64)) & 1 == 1 {
        '1'
    } else {
        '0'
    }
}

/// How many bits a buffer of `size` bytes shows: one byte goes to the terminator, and at
/// most the 64 bits of the word.
pub open spec fn render_len(size: usize) -> int {
    if size - 1 < 64 {
        size - 1
    } else {
        64
    }
}

/// The rendered text: the top `render_len(size)` bits of `a`, most significant first.
pub open spec fn render_spec(size: usize, a: TnumView) -> Seq<char> {
    Seq::new(render_len(size) as nat, |i: int| bit_char(a, 63 - i))
}

/// Renders `a` into a buffer of `size` bytes, one of which ends the text: the top
/// `min(size - 1, 64)` bits, most significant first, as `x` (unknown), `1` or `0`.
pub fn tnum_sbin(size: usize, a: Tnum) -> (r: String)
    requires
        size >= 1,
    ensures
        r@ == render_spec(size, a@),
{
    let end: usize = if size - 1 < 64 {
        size - 1
    } else {
        64
    };
    let mut result = String::new();
    let mut i: usize = 0;
    while i < end
        invariant
            end == render_len(size),
            i <= end <= 64,
            result@ =~= render_spec(size, a@).take(i as int),
        decreases end - i,
    {
        let k = (63 - i) as u64;
        if (a.mask() >> k) & 1 == 1 {
            proof {
                reveal_strlit("x");
            }
            result.append("x");
        } else if (a.value() >> k) & 1 == 1 {
            proof {
                reveal_strlit("1");
            }
            result.append("1");
        } else {
            proof {
                reveal_strlit("0");
            }
            result.append("0");
        }
        i = i + 1;
        assert(result@ =~= render_spec(size, a@).take(i as int));
    }
    assert(render_spec(size, a@).take(end as int) =~= render_spec(size, a@));
    result
}

/// The number whose binary digits, most significant first, are one where `s` holds `d`.
pub open spec fn digits_of(s: Seq<char>, d: char) -> nat
    decreases s.len(),
{
    if s.len() == 0 {
        0
    } else {
        2 * digits_of(s.drop_last(), d) + (if s.last() == d {
            1nat
        } else {
            0nat
        })
    }
}

proof fn lemma_digit_bits(v: u64, m: u64, k: u64)
    by (bit_vector)
    requires
        k < 64,
    ensures
        v >> k == 2 * (v >> ((k + 1) as u64)) + ((v >> k) & 1),
        v & m == 0 ==> !((v >> k) & 1 == 1 && (m >> k) & 1 == 1),
        (v >> k) & 1 != 1 ==> (v >> k) & 1 == 0,
        v >> 64u64 == 0,
{
}

proof fn lemma_render_prefix(size: usize, a: TnumView, t: int)
    requires
        size >= 1,
        a.wf(),
        0 <= t <= render_len(size),
    ensures
        digits_of(render_spec(size, a).take(t), '1') == a.value >> ((64 - t) as u64),
        digits_of(render_spec(size, a).take(t), 'x') == a.mask >> ((64 - t) as u64),
    decreases t,
{
    let s = render_spec(size, a).take(t);
    if t == 0 {
        lemma_digit_bits(a.value, a.mask, 0);
        lemma_digit_bits(a.mask, a.value, 0);
    } else {
        lemma_render_prefix(size, a, t - 1);
        assert(s.drop_last() =~= render_spec(size, a).take(t - 1));
        let k = (64 - t) as u64;
        lemma_digit_bits(a.value, a.mask, k);
        lemma_digit_bits(a.mask, a.value, k);
        assert(s.last() == bit_char(a, k as int));
    }
}

/// Parsing the rendered text back, `1` as a known one and `x` as an unknown bit, gives the
/// bits of `a` that the text shows: its top `render_len(size)` bits.
pub proof fn lemma_render_round_trip(size: usize, a: TnumView)
    requires
        size >= 1,
        a.wf(),
    ensures
        digits_of(render_spec(size, a), '1') == a.value >> ((64 - render_len(size)) as u64),
        digits_of(render_spec(size, a), 'x') == a.mask >> ((64 - render_len(size)) as u64),
{
    lemma_render_prefix(size, a, render_len(size));
    assert(render_spec(size, a).take(render_len(size)) =~= render_spec(size, a));
}

} // verus!
