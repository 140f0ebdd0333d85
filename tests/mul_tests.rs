use tnum::{
    tnum_in, tnum_mul, tnum_mul_opt, tnum_mul_rec, xtnum_mul, xtnum_mul_high_top, xtnum_mul_top,
    Tnum,
};

fn holds(t: Tnum, x: u64) -> bool {
    x & !t.mask() == t.value()
}

#[test]
fn tnum_test_tnum_mul() {
    let a = Tnum::new(0b100, 0b011);
    let b = Tnum::new(0b111, 0b000);
    let naive = tnum_mul(a, b);
    println!("{:?}", naive);
    println!("{:?}", tnum_mul_opt(a, b));
    assert_eq!(naive, Tnum::new(0, 63));
    for p in [28u64, 35, 42, 49] {
        assert!(holds(naive, p));
    }
}

#[test]
fn tnum_test_xtnum_mul() {
    let a = Tnum::new(15, 0);
    let b = Tnum::new(0, 31);
    let naive = tnum_mul(a, b);
    let split = xtnum_mul(a, 0, b, 5, 5);
    println!("{:?}", naive);
    println!("{:?}", split);
    assert_eq!(naive, Tnum::new(0, 511));
    assert_eq!(split, Tnum::new(0, 4095));
}

#[test]
fn tnum_wrapped_test_tnum_mul() {
    let a = Tnum::new(0b100, 0b011);
    let b = Tnum::new(0b111, 0b000);
    let naive = tnum_mul(a, b);
    let opt = tnum_mul_opt(a, b);
    println!("{:?}", naive);
    println!("{:?}", opt);
    assert_eq!(opt, Tnum::new(0, 63));
    for p in [28u64, 35, 42, 49] {
        assert!(holds(naive, p));
        assert!(holds(opt, p));
    }
}

#[test]
fn tnum_wrapped_test_xtnum_mul() {
    let a = Tnum::new(15, 0);
    let b = Tnum::new(0, 31);
    println!("{:?}", tnum_mul(a, b));
    println!("{:?}", xtnum_mul_top(a, b));
    println!("{:?}", xtnum_mul_high_top(a, b));
    assert_eq!(tnum_mul(a, b), Tnum::new(0, 511));
    assert_eq!(xtnum_mul_top(a, b), Tnum::new(0, 4095));
    assert_eq!(xtnum_mul_high_top(a, b), Tnum::new(0, 511));
    for y in 0..32u64 {
        assert!(holds(tnum_mul(a, b), 15 * y));
        assert!(holds(xtnum_mul_top(a, b), 15 * y));
        assert!(holds(xtnum_mul_high_top(a, b), 15 * y));
    }
}

#[test]
fn test_tnum_in() {
    let a = Tnum::new(1, 0);
    let b = Tnum::new(0, 1);
    println!("{:?}", tnum_in(b, a));
    assert!(tnum_in(b, a));
    assert!(!tnum_in(a, b));
}

#[test]
fn mul_opt_power_of_two_shifts() {
    assert_eq!(tnum_mul_opt(Tnum::new(8, 0), Tnum::new(5, 2)), Tnum::new(40, 16));
    assert_eq!(tnum_mul_opt(Tnum::new(5, 2), Tnum::new(16, 0)), Tnum::new(80, 32));
}

#[test]
fn mul_opt_scans_the_sparser_operand() {
    assert_eq!(tnum_mul_opt(Tnum::new(0, 31), Tnum::new(15, 0)), Tnum::new(0, 511));
    assert_eq!(tnum_mul_opt(Tnum::new(3, 4), Tnum::new(1, 2)), Tnum::new(1, 62));
}

#[test]
fn mul_wraps_known_products() {
    let big = Tnum::new(1 << 63, 0);
    let three = Tnum::new(3, 0);
    assert_eq!(tnum_mul(big, three), Tnum::new(1 << 63, 0));
    assert_eq!(xtnum_mul_top(big, three), Tnum::new(1 << 63, 0));
    assert_eq!(xtnum_mul_high_top(big, three), Tnum::new(1 << 63, 0));
    assert_eq!(tnum_mul_rec(big, three), Tnum::new(1 << 63, 0));
}

#[test]
fn split_and_high_products_on_small_operands() {
    let a = Tnum::new(3, 4);
    let b = Tnum::new(1, 2);
    assert_eq!(xtnum_mul_top(a, b), Tnum::new(1, 30));
    assert_eq!(xtnum_mul_high_top(a, b), Tnum::new(1, 30));
    assert_eq!(tnum_mul(a, b), Tnum::new(1, 62));
}

#[test]
fn high_product_with_known_zero() {
    assert_eq!(xtnum_mul_high_top(Tnum::new(0, 15), Tnum::new(0, 0)), Tnum::new(0, 0));
    assert_eq!(xtnum_mul_high_top(Tnum::new(0, 0), Tnum::new(0, 15)), Tnum::new(0, 0));
}

#[test]
fn split_product_with_full_masks() {
    let top = Tnum::new(0, u64::MAX);
    let r = xtnum_mul_top(top, top);
    assert_eq!(r, Tnum::new(0, u64::MAX));
    let three = Tnum::new(3, 0);
    let r = xtnum_mul_top(top, three);
    assert_eq!(r, Tnum::new(0, u64::MAX));
    assert!(holds(r, 3));
    assert_eq!(xtnum_mul(three, 0, top, 64, 64), Tnum::new(0, u64::MAX));
    let r = xtnum_mul_top(Tnum::new(0, 1), Tnum::new(0, u64::MAX - 1));
    for (x, y) in [(1u64, 2u64), (1, u64::MAX - 1), (0, 6), (1, 1 << 63)] {
        assert!(holds(r, x.wrapping_mul(y)));
    }
}

#[test]
fn mul_rec_short_cuts() {
    assert_eq!(tnum_mul_rec(Tnum::new(3, 0), Tnum::new(5, 0)), Tnum::new(15, 0));
    assert_eq!(tnum_mul_rec(Tnum::new(0, u64::MAX), Tnum::new(0, u64::MAX)), Tnum::new(0, u64::MAX));
    assert_eq!(tnum_mul_rec(Tnum::new(1, 0), Tnum::new(4, 3)), Tnum::new(4, 3));
    assert_eq!(tnum_mul_rec(Tnum::new(4, 3), Tnum::new(1, 0)), Tnum::new(4, 3));
    assert_eq!(tnum_mul_rec(Tnum::new(4, 3), Tnum::new(0, 0)), Tnum::new(0, 0));
}

#[test]
fn mul_rec_leaves_out_the_low_terms() {
    // {2, 3} * 2 = {4, 6}, but only the upper parts 1 * 1 are multiplied
    let r = tnum_mul_rec(Tnum::new(2, 1), Tnum::new(2, 0));
    assert_eq!(r, Tnum::new(1, 0));
    assert!(!holds(r, 4));
}

#[test]
fn split_product_with_top_mask_bit_unknown() {
    let a = Tnum::new(0, (1 << 63) | 1);
    let b = Tnum::new(0, 1);
    let r = xtnum_mul_top(a, b);
    assert_eq!(r, Tnum::new(0, (1 << 63) | 1));
    for x in [0u64, 1, 1 << 63, (1 << 63) | 1] {
        for y in [0u64, 1] {
            assert!(holds(r, x.wrapping_mul(y)));
        }
    }
}

#[test]
fn split_product_keeps_the_known_low_part() {
    // the unknown bit is bit 1; the known bits below it must still be multiplied
    let r = xtnum_mul(Tnum::new(1, 0), 0, Tnum::new(0, 0b10), 1, 1);
    assert_eq!(r, Tnum::new(0, 2));
    assert!(holds(r, 0) && holds(r, 2));
    let r = xtnum_mul(Tnum::new(3, 0), 0, Tnum::new(1, 0b10), 1, 1);
    assert_eq!(r, Tnum::new(1, 10));
    assert!(holds(r, 3) && holds(r, 9));
}
