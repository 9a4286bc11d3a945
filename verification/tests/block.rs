use sdr_pipeline::block::{cast_all, gcd_u32, FIRFilter, RationalResampler};
use sdr_pipeline::traits::{Arithmetic, Cplx};

#[test]
fn test_fir_passthrough() {
    let mut fir = FIRFilter::<i64>::new(vec![1]);
    let mut out = Vec::new();
    fir.filter(&[5, -3, 7], &mut out);
    assert_eq!(vec![5, -3, 7], out);
}

#[test]
fn test_fir_delay_one() {
    // taps [0, 1] pick the previous sample: a pure one-sample delay.
    let mut fir = FIRFilter::<i64>::new(vec![0, 1]);
    let mut out = Vec::new();
    fir.filter(&[1, 2, 3, 4], &mut out);
    assert_eq!(vec![0, 1, 2, 3], out);
}

#[test]
fn test_fir_moving_sum() {
    let mut fir = FIRFilter::<i64>::new(vec![1, 1]);
    let mut out = Vec::new();
    fir.filter(&[1, 2, 3, 4], &mut out);
    assert_eq!(vec![1, 3, 5, 7], out);
}

#[test]
fn test_fir_state_carries_across_calls() {
    let mut fir = FIRFilter::<i64>::new(vec![1, 1]);
    let mut out = Vec::new();
    fir.filter(&[1, 2], &mut out);
    assert_eq!(vec![1, 3], out);
    fir.filter(&[3, 4], &mut out);
    assert_eq!(vec![5, 7], out);
}

#[test]
fn test_fir_taps_accessor() {
    let fir = FIRFilter::<i64>::new(vec![4, 5, 6]);
    assert_eq!(&vec![4, 5, 6], fir.taps());
}

#[test]
fn test_fir_linearity_exact() {
    // In exact integer arithmetic the filter is linear:
    // FIR(alpha * a + b) == alpha * FIR(a) + FIR(b).
    let taps = vec![2i64, 1];
    let a = [1i64, 2, 3];
    let b = [4i64, 5, 6];
    let alpha = 3i64;

    let mixed: Vec<i64> = a.iter().zip(b.iter()).map(|(x, y)| alpha * x + y).collect();

    let mut fir_mixed = FIRFilter::<i64>::new(taps.clone());
    let mut out_mixed = Vec::new();
    fir_mixed.filter(&mixed, &mut out_mixed);

    let mut fir_a = FIRFilter::<i64>::new(taps.clone());
    let mut out_a = Vec::new();
    fir_a.filter(&a, &mut out_a);

    let mut fir_b = FIRFilter::<i64>::new(taps);
    let mut out_b = Vec::new();
    fir_b.filter(&b, &mut out_b);

    let combined: Vec<i64> =
        out_a.iter().zip(out_b.iter()).map(|(x, y)| alpha * x + y).collect();
    assert_eq!(combined, out_mixed);
}

#[test]
fn test_fir_complex_rotation() {
    // A single tap of j rotates each sample by ninety degrees.
    let j = Cplx { re: 0, im: 1 };
    let mut fir = FIRFilter::<Cplx>::new(vec![j]);
    let mut out = Vec::new();
    fir.filter(&[Cplx { re: 2, im: 3 }], &mut out);
    assert_eq!(vec![Cplx { re: -3, im: 2 }], out);
}

#[test]
fn test_cplx_arithmetic() {
    let a = Cplx { re: 1, im: 2 };
    let b = Cplx { re: 3, im: 4 };
    assert_eq!(Cplx { re: 4, im: 6 }, Cplx::add(a, b));
    assert_eq!(Cplx { re: -5, im: 10 }, Cplx::mul(a, b));
    assert_eq!(Cplx { re: 0, im: 0 }, Cplx::zero());
    assert_eq!(Cplx { re: 1, im: 0 }, Cplx::one());
}

#[test]
fn test_gcd() {
    assert_eq!(6, gcd_u32(12, 18));
    assert_eq!(1, gcd_u32(7, 13));
    assert_eq!(44100, gcd_u32(44100, 44100));
}

#[test]
fn test_resampler_identity() {
    // Equal rates reduce to up = down = 1 with a single passthrough tap.
    let mut rs = RationalResampler::<i64>::new(2, 2, vec![1]);
    let mut out = Vec::new();
    rs.filter(&[9, 8, 7], &mut out);
    assert_eq!(vec![9, 8, 7], out);
}

#[test]
fn test_resampler_upsample_by_two() {
    let mut rs = RationalResampler::<i64>::new(1, 2, vec![1]);
    let mut out = Vec::new();
    rs.filter(&[5, 7], &mut out);
    assert_eq!(vec![5, 0, 7, 0], out);
}

#[test]
fn test_resampler_downsample_by_two() {
    let mut rs = RationalResampler::<i64>::new(2, 1, vec![1]);
    let mut out = Vec::new();
    rs.filter(&[5, 7, 9], &mut out);
    assert_eq!(vec![5, 9], out);
}

#[test]
fn test_resampler_rate_seven_thirds() {
    // Thirty inputs at a 7/3 ratio give exactly seventy outputs.
    let mut rs = RationalResampler::<i64>::new(3, 7, vec![1, 2, 3, 4, 5]);
    let input = [1i64; 30];
    let mut out = Vec::new();
    rs.filter(&input, &mut out);
    assert_eq!(70, out.len());
}

#[test]
fn test_resampler_rate_accumulates_across_calls() {
    // The accumulator carries between calls, so the long-run output count
    // stays within one of up/down per input.
    let mut rs = RationalResampler::<i64>::new(3, 2, vec![1, 1, 1]);
    let mut total = 0usize;
    for _ in 0..10 {
        let mut out = Vec::new();
        rs.filter(&[1, 1, 1], &mut out);
        total += out.len();
    }
    // 30 inputs at ratio 2/3: exactly 20 outputs.
    assert_eq!(20, total);
}

#[test]
fn test_cast_all() {
    let mut out = Vec::new();
    cast_all(|v: i64| v * 2, &[1, 2, 3], &mut out);
    assert_eq!(vec![2, 4, 6], out);
}

#[test]
fn test_cast_all_empty() {
    let mut out: Vec<i64> = vec![9, 9];
    cast_all(|v: i64| v, &[], &mut out);
    assert!(out.is_empty());
}
