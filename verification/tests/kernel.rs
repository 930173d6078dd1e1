use datalab::kernel;
use datalab::summand::Summand;
use std::ops::Add;

/// A double-precision number that can be summed up.
#[derive(Debug, Clone, Copy, PartialEq, Default)]
struct F64(f64);

impl Add for F64 {
    type Output = F64;

    fn add(self, other: F64) -> F64 {
        F64(self.0 + other.0)
    }
}

impl Summand for F64 {
    fn nil() -> F64 {
        unreachable!()
    }

    fn joined(self, _: F64) -> F64 {
        unreachable!()
    }

    fn exact() -> bool {
        false
    }

    fn lemma_nil(_: F64) {}

    fn lemma_joined(self, _: F64) {}

    fn lemma_exact(self, _: F64, _: F64) {}

    fn plus(self, other: F64) -> F64 {
        self + other
    }
}

fn doubles(values: &[f64]) -> Vec<F64> {
    values.iter().map(|&x| F64(x)).collect()
}

#[test]
fn add_elementwise() {
    let mut out = [0i64; 3];
    kernel::add(&[1, 2, 3], &[10, 20, 30], &mut out);
    assert_eq!(out, [11, 22, 33]);
}

#[test]
fn sub_elementwise() {
    let mut out = [0i64; 2];
    kernel::sub(&[10, 20], &[1, 2], &mut out);
    assert_eq!(out, [9, 18]);
}

#[test]
fn mul_elementwise() {
    let mut out = [0i64; 2];
    kernel::mul(&[2, 3], &[4, 5], &mut out);
    assert_eq!(out, [8, 15]);
}

#[test]
fn mul_scalar_scales() {
    let mut out = [0.0f64; 3];
    kernel::mul_scalar(&[1.0, -2.0, 0.5], 4.0, &mut out);
    assert_eq!(out, [4.0, -8.0, 2.0]);
}

#[test]
fn sum_accumulates() {
    assert_eq!(kernel::sum(&[1u32, 2, 3]), 6);
    assert_eq!(kernel::sum::<F64>(&[]), F64(0.0));
}

#[test]
fn sum_handles_every_length_boundary() {
    for len in [0, 1, 7, 8, 9, 255, 256, 257, 1000, 4096, 100_000] {
        let data: Vec<u64> = (1..=len as u64).collect();
        let expected = len as u64 * (len as u64 + 1) / 2;
        assert_eq!(kernel::sum(&data), expected, "len = {len}");
    }
}

#[test]
fn sum_matches_naive_float_sum_closely() {
    let data: Vec<f64> = (0..10_000).map(|i| (i as f64).sin()).collect();
    let naive: f64 = data.iter().sum();
    let ours = kernel::sum(&doubles(&data)).0;
    assert!((ours - naive).abs() < 1e-9, "ours={ours}, naive={naive}");
}

#[test]
fn empty_slices_are_fine() {
    let mut out: [f64; 0] = [];
    kernel::add(&[], &[], &mut out);
    assert_eq!(kernel::sum::<F64>(&[]), F64(0.0));
}

/// The order of additions is fixed: lanes first, then the remainder. With
/// floats that lose small terms the order shows.
#[test]
fn sum_adds_lane_by_lane() {
    // Lane 0 holds 1e16 and -1e16, which cancel before the ones are added.
    let mut data = vec![1.0f64; 17];
    data[0] = 1e16;
    data[8] = -1e16;
    assert_eq!(kernel::sum(&doubles(&data)), F64(15.0));
    // A left-to-right fold loses the ones in between.
    let naive = data.iter().fold(0.0, |acc, x| acc + x);
    assert_ne!(naive, 15.0);
}

#[test]
fn signed_sums_equal_the_naive_loop() {
    for len in [0i64, 1, 8, 9, 300, 5000] {
        let data: Vec<i64> = (0..len).map(|i| if i % 2 == 0 { i } else { -3 * i }).collect();
        let naive = data.iter().fold(0, |acc, x| acc + x);
        assert_eq!(kernel::sum(&data), naive);
    }
}

#[test]
fn signed_sums_reach_the_ends_of_the_range() {
    assert_eq!(kernel::sum(&[100i8, -100, 27, -28]), -1);
    assert_eq!(kernel::sum(&[i8::MIN, 0, i8::MAX]), -1);
    let mut data = vec![0i16; 600];
    data[0] = i16::MAX;
    data[599] = i16::MIN;
    assert_eq!(kernel::sum(&data), -1);
}

#[test]
fn sub_undoes_add() {
    let a = [250u8, 0, 7];
    let b = [5u8, 255, 9];
    let mut sum = [0u8; 3];
    kernel::add(&a, &b, &mut sum);
    let mut back = [0u8; 3];
    kernel::sub(&sum, &b, &mut back);
    assert_eq!(back, a);
    let c = [i64::MIN, -1, 40];
    let d = [i64::MAX, -9, -50];
    let mut total = [0i64; 3];
    kernel::add(&c, &d, &mut total);
    let mut again = [0i64; 3];
    kernel::sub(&total, &d, &mut again);
    assert_eq!(again, c);
}

#[test]
fn mul_scalar_is_mul_by_a_constant() {
    let a = [1i32, -2, 3, 40];
    let mut scaled = [0i32; 4];
    kernel::mul_scalar(&a, -7, &mut scaled);
    let mut product = [0i32; 4];
    kernel::mul(&a, &[-7; 4], &mut product);
    assert_eq!(scaled, product);
    assert_eq!(scaled, [-7, 14, -21, -280]);
}

#[test]
fn sums_meet_no_overflow_that_a_naive_loop_avoids() {
    // The lane of places 0 and 8 alone would overflow.
    let mut data = [0i32; 16];
    data[0] = i32::MAX;
    data[1] = -i32::MAX;
    data[8] = 1;
    assert_eq!(kernel::sum(&data), 1);
    let mut wide = vec![0i64; 1000];
    wide[0] = i64::MIN;
    wide[1] = i64::MAX;
    wide[8] = -5;
    wide[999] = 7;
    assert_eq!(kernel::sum(&wide), 1);
}

#[test]
fn sums_do_not_depend_on_order_or_grouping() {
    let data: Vec<i16> = (0..700).map(|i| (i * 37 % 101) as i16 - 50).collect();
    let total = kernel::sum(&data);
    let reversed: Vec<i16> = data.iter().rev().copied().collect();
    assert_eq!(kernel::sum(&reversed), total);
    let (left, right) = data.split_at(333);
    assert_eq!(kernel::sum(left).plus(kernel::sum(right)), total);
    let mathematical: i64 = data.iter().map(|&x| i64::from(x)).sum();
    assert_eq!(i64::from(total), mathematical);
}

#[test]
fn summands_wrap_around() {
    assert_eq!(250u8.plus(10), 4);
    assert_eq!(i8::MAX.plus(1), i8::MIN);
    assert_eq!(i64::MIN.plus(-1), i64::MAX);
    assert_eq!(kernel::sum(&[200u8, 100]), 44);
}
