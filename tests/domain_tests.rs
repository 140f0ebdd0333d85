use tnum::{
    compare_outputs, methods, tnum_add, tnum_and, tnum_arshift, tnum_cast, tnum_clear_subreg,
    tnum_const, tnum_const_subreg, tnum_from_raw, tnum_in, tnum_intersect, tnum_is_aligned,
    tnum_join, tnum_lshift, tnum_mul, tnum_mul_opt, tnum_or, tnum_range, tnum_rshift, tnum_sbin,
    tnum_sub, tnum_subreg, tnum_with_subreg, tnum_xor, xtnum_mul_high_top, xtnum_mul_top,
    Comparison, MulMethod, Tnum,
};

fn holds(t: Tnum, x: u64) -> bool {
    x & !t.mask() == t.value()
}

/// Every well formed tnum over the low `bits` bits.
fn small_tnums(bits: u32) -> Vec<Tnum> {
    let mut out = Vec::new();
    for v in 0..(1u64 << bits) {
        for m in 0..(1u64 << bits) {
            if v & m == 0 {
                out.push(Tnum::new(v, m));
            }
        }
    }
    out
}

/// The words of `t` over the low `bits` bits.
fn words(t: Tnum, bits: u32) -> Vec<u64> {
    (0..(1u64 << bits)).filter(|&x| holds(t, x)).collect()
}

#[test]
fn const_five() {
    let five = tnum_const(5);
    assert_eq!((five.value(), five.mask()), (5, 0));
    assert!(tnum_in(five, tnum_const(5)));
    assert!(!tnum_in(five, tnum_const(6)));
}

#[test]
fn range_four_to_seven() {
    assert_eq!(tnum_range(4, 7), Tnum::new(4, 3));
    assert_eq!(tnum_range(9, 9), Tnum::new(9, 0));
    assert_eq!(tnum_range(0, u64::MAX), Tnum::new(0, u64::MAX));
    assert_eq!(tnum_range(1 << 63, u64::MAX), Tnum::new(1 << 63, (1 << 63) - 1));
    for x in 4..=7 {
        assert!(holds(tnum_range(4, 7), x));
    }
}

#[test]
fn shift_left_by_three() {
    assert_eq!(tnum_lshift(Tnum::new(1, 0), 3), Tnum::new(8, 0));
}

#[test]
fn shifts_past_the_width_clear_everything() {
    assert_eq!(tnum_lshift(Tnum::new(5, 2), 64), Tnum::new(0, 0));
    assert_eq!(tnum_rshift(Tnum::new(5, 2), 200), Tnum::new(0, 0));
    assert_eq!(tnum_rshift(Tnum::new(12, 3), 2), Tnum::new(3, 0));
    assert_eq!(tnum_lshift(Tnum::new(1, 2), 63), Tnum::new(1 << 63, 0));
}

#[test]
fn arithmetic_shift_modes() {
    assert_eq!(tnum_arshift(Tnum::new(0x8000_0000, 0), 4, 32), Tnum::new(0xf800_0000, 0));
    assert_eq!(tnum_arshift(Tnum::new(0, 0x8000_0000), 40, 32), Tnum::new(0, 0xffff_ffff));
    assert_eq!(tnum_arshift(Tnum::new(1 << 63, 0), 1, 64), Tnum::new(0xc000_0000_0000_0000, 0));
    assert_eq!(tnum_arshift(Tnum::new(0, 1 << 63), 100, 64), Tnum::new(0, u64::MAX));
    assert_eq!(tnum_arshift(Tnum::new(16, 0), 2, 64), Tnum::new(4, 0));
}

#[test]
fn add_and_sub_values() {
    assert_eq!(tnum_add(Tnum::new(5, 0), Tnum::new(3, 0)), Tnum::new(8, 0));
    assert_eq!(tnum_add(Tnum::new(4, 3), Tnum::new(1, 0)), Tnum::new(0, 15));
    assert_eq!(tnum_add(Tnum::new(0, 1), Tnum::new(0, 1)), Tnum::new(0, 3));
    assert_eq!(tnum_sub(Tnum::new(5, 0), Tnum::new(3, 0)), Tnum::new(2, 0));
    assert_eq!(tnum_sub(Tnum::new(0, 1), Tnum::new(1, 0)), Tnum::new(0, u64::MAX));
    assert_eq!(tnum_sub(Tnum::new(4, 3), Tnum::new(1, 0)), Tnum::new(0, 7));
    assert_eq!(tnum_add(Tnum::new(u64::MAX, 0), Tnum::new(2, 0)), Tnum::new(1, 0));
}

#[test]
fn bitwise_values() {
    let a = Tnum::new(12, 3);
    let b = Tnum::new(10, 5);
    assert_eq!(tnum_and(a, b), Tnum::new(8, 7));
    assert_eq!(tnum_or(a, b), Tnum::new(14, 1));
    assert_eq!(tnum_xor(a, b), Tnum::new(0, 7));
}

#[test]
fn binary_operators_hold_every_result() {
    let all = small_tnums(3);
    for &a in &all {
        for &b in &all {
            let sum = tnum_add(a, b);
            let diff = tnum_sub(a, b);
            let and = tnum_and(a, b);
            let or = tnum_or(a, b);
            let xor = tnum_xor(a, b);
            let products: Vec<Tnum> = methods().iter().map(|m| m.apply(a, b)).collect();
            for x in words(a, 3) {
                for y in words(b, 3) {
                    assert!(holds(sum, x.wrapping_add(y)));
                    assert!(holds(diff, x.wrapping_sub(y)));
                    assert!(holds(and, x & y));
                    assert!(holds(or, x | y));
                    assert!(holds(xor, x ^ y));
                    for p in &products {
                        assert!(holds(*p, x.wrapping_mul(y)));
                    }
                }
            }
        }
    }
}

#[test]
fn products_hold_every_result_on_wide_operands() {
    let pairs = [
        (Tnum::new(0x1034_5678_9abc_def0, 0x0f00_0000_0000_000f), Tnum::new(0xff, 0x300)),
        (Tnum::new(0, 0x7fff_ffff_ffff_ffff), Tnum::new(3, 0)),
        (Tnum::new(1 << 62, 1 << 61), Tnum::new(0xdead_beef, 0x1_0000_0000)),
        (Tnum::new(0x10, 0xc000_0000_0000_0003), Tnum::new(0x5, 0x8000_0000_0000_0a00)),
        (Tnum::new(0, u64::MAX), Tnum::new(7, 0xf0)),
    ];
    for (a, b) in pairs {
        for m in methods() {
            let r = m.apply(a, b);
            for k in 0..8u64 {
                let x = a.value() | (a.mask() & k.wrapping_mul(0x9e37_79b9_7f4a_7c15));
                let y = b.value() | (b.mask() & (k << 8 | k));
                assert!(holds(r, x.wrapping_mul(y)), "{}", m.name());
            }
        }
    }
}

#[test]
fn naive_and_split_products_may_differ_in_precision() {
    let a = Tnum::new(15, 0);
    let b = Tnum::new(0, 31);
    let naive = tnum_mul(a, b);
    let split = xtnum_mul_top(a, b);
    assert_ne!(naive, split);
    assert!(tnum_in(split, naive));
    assert_eq!(compare_outputs(split, naive), Comparison::LessPrecise);
    assert_eq!(compare_outputs(naive, split), Comparison::MorePrecise);
}

#[test]
fn concrete_words_are_contained() {
    for a in small_tnums(3) {
        for x in 0..16u64 {
            assert_eq!(holds(a, x), tnum_in(a, tnum_const(x)));
        }
    }
}

#[test]
fn join_contains_both_and_is_idempotent() {
    let all = small_tnums(3);
    for &a in &all {
        assert_eq!(tnum_join(a, a), a);
        for &b in &all {
            let j = tnum_join(a, b);
            assert!(tnum_in(j, a));
            assert!(tnum_in(j, b));
        }
    }
    assert_eq!(tnum_join(Tnum::new(4, 0), Tnum::new(6, 0)), Tnum::new(4, 2));
}

#[test]
fn meet_is_contained_in_both() {
    let all = small_tnums(3);
    for &a in &all {
        for &b in &all {
            let compatible = (a.value() ^ b.value()) & !a.mask() & !b.mask() == 0;
            if compatible {
                let m = tnum_intersect(a, b);
                assert!(tnum_in(a, m));
                assert!(tnum_in(b, m));
            }
        }
    }
    assert_eq!(tnum_intersect(Tnum::new(4, 3), Tnum::new(1, 6)), Tnum::new(5, 2));
}

#[test]
fn containment_is_transitive() {
    let all = small_tnums(2);
    for &a in &all {
        for &b in &all {
            for &c in &all {
                if tnum_in(a, b) && tnum_in(b, c) {
                    assert!(tnum_in(a, c));
                }
            }
        }
    }
}

#[test]
fn containment_is_inclusion_of_words() {
    let all = small_tnums(3);
    for &a in &all {
        for &b in &all {
            let included = words(b, 3).iter().all(|&x| holds(a, x));
            assert_eq!(tnum_in(a, b), included);
        }
    }
}

#[test]
fn cast_and_alignment() {
    let a = Tnum::new(0x1034_5678_9abc_def0, 0x0f00_0000_0000_000f);
    assert_eq!(tnum_cast(a, 0), Tnum::new(0, 0));
    assert_eq!(tnum_cast(a, 1), Tnum::new(0xf0, 0x0f));
    assert_eq!(tnum_cast(a, 4), Tnum::new(0x9abc_def0, 0xf));
    assert_eq!(tnum_cast(a, 8), a);
    assert_eq!(tnum_cast(a, 200), a);
    assert!(tnum_is_aligned(Tnum::new(0x10, 0x20), 16));
    assert!(!tnum_is_aligned(Tnum::new(0x10, 0x4), 8));
    assert!(tnum_is_aligned(Tnum::new(7, 0), 0));
    assert!(tnum_is_aligned(Tnum::new(7, 0), 1));
}

#[test]
fn subregister_composition() {
    let reg = Tnum::new(0x1234_5678_0000_00f0, 0x0000_0001_0000_000f);
    let sub = Tnum::new(0xaaaa_bbbb_0000_1000, 0x0000_0000_0000_0100);
    assert_eq!(tnum_subreg(reg), Tnum::new(0xf0, 0xf));
    assert_eq!(tnum_clear_subreg(reg), Tnum::new(0x1234_5678_0000_0000, 0x0000_0001_0000_0000));
    assert_eq!(
        tnum_with_subreg(reg, sub),
        Tnum::new(0x1234_5678_0000_1000, 0x0000_0001_0000_0100)
    );
    assert_eq!(
        tnum_const_subreg(reg, 0xdead_beef),
        Tnum::new(0x1234_5678_dead_beef, 0x0000_0001_0000_0000)
    );
}

/// Reads rendered text back: `1` a known one, `x` an unknown bit.
fn parse(s: &str) -> (u64, u64) {
    let mut value = 0u64;
    let mut mask = 0u64;
    for c in s.chars() {
        value = (value << 1) | (c == '1') as u64;
        mask = (mask << 1) | (c == 'x') as u64;
    }
    (value, mask)
}

#[test]
fn render_widths() {
    let a = Tnum::new(0x25 << 56, 3 << 62);
    assert_eq!(tnum_sbin(9, a), "xx100101");
    assert_eq!(tnum_sbin(1, Tnum::new(5, 0)), "");
    let full = "00000000000000000000000000000000000000000000000000000000000001x1";
    assert_eq!(tnum_sbin(65, Tnum::new(5, 2)), full);
    assert_eq!(tnum_sbin(100, Tnum::new(5, 2)), full);
}

#[test]
fn render_round_trip() {
    let a = Tnum::new(0x1034_5678_9abc_def0, 0x0f00_0000_0000_000f);
    assert_eq!(parse(&tnum_sbin(65, a)), (a.value(), a.mask()));
    for size in 1..=70usize {
        let width = (size - 1).min(64) as u32;
        let text = tnum_sbin(size, a);
        assert_eq!(text.len() as u32, width);
        let shift = 64 - width;
        let expected = if shift == 64 { (0, 0) } else { (a.value() >> shift, a.mask() >> shift) };
        assert_eq!(parse(&text), expected);
    }
}

#[test]
fn comparison_variants() {
    let a = Tnum::new(4, 3);
    assert_eq!(compare_outputs(a, a), Comparison::Equal);
    assert_eq!(compare_outputs(Tnum::new(0, 7), a), Comparison::LessPrecise);
    assert_eq!(compare_outputs(Tnum::new(5, 0), a), Comparison::MorePrecise);
    assert_eq!(compare_outputs(Tnum::new(1, 2), a), Comparison::Incomparable);
}

#[test]
fn methods_by_name() {
    let names: Vec<&str> = methods().iter().map(|m| m.name()).collect();
    assert_eq!(names, ["tnum_mul", "tnum_mul_opt", "xtnum_mul_top", "xtnum_mul_high_top"]);
    let a = Tnum::new(4, 3);
    let b = Tnum::new(7, 0);
    assert_eq!(MulMethod::TnumMul.apply(a, b), tnum_mul(a, b));
    assert_eq!(MulMethod::TnumMulOpt.apply(a, b), tnum_mul_opt(a, b));
    assert_eq!(MulMethod::XtnumMulTop.apply(a, b), xtnum_mul_top(a, b));
    assert_eq!(MulMethod::XtnumMulHighTop.apply(a, b), xtnum_mul_high_top(a, b));
}

#[test]
fn raw_words_make_a_tnum() {
    assert_eq!(tnum_from_raw(0b1100, 0b1010), Tnum::new(0b1100, 0b0010));
    let t = tnum_from_raw(u64::MAX, u64::MAX);
    assert_eq!(t, Tnum::new(u64::MAX, 0));
}

#[test]
fn join_is_least_and_meet_is_greatest() {
    let all = small_tnums(2);
    for &a in &all {
        for &b in &all {
            let j = tnum_join(a, b);
            let m = tnum_intersect(a, b);
            for &t in &all {
                if tnum_in(t, a) && tnum_in(t, b) {
                    assert!(tnum_in(t, j));
                }
                if tnum_in(a, t) && tnum_in(b, t) {
                    assert!(tnum_in(m, t));
                }
            }
        }
    }
}

#[test]
fn range_is_tightest() {
    let all = small_tnums(4);
    for min in 0..16u64 {
        for max in min..16u64 {
            let r = tnum_range(min, max);
            for &t in &all {
                if (min..=max).all(|x| holds(t, x)) {
                    assert!(tnum_in(t, r), "{} {}", min, max);
                }
            }
        }
    }
}
