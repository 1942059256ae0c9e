use dsp::iir_int::macc;
use dsp::iir_int::Vec5;
use dsp::iir_int::IIR;

#[test]
fn macc_rounds_half_up() {
    let one = 1 << 30;
    assert_eq!(macc(0, &[1, 2, 3, 4, 5], &[one; 5], 30), 15);
    assert_eq!(macc(0, &[3], &[1 << 28], 30), 1);
    assert_eq!(macc(0, &[-3], &[1 << 28], 30), -1);
    assert_eq!(macc(0, &[1], &[1 << 29], 30), 1);
    assert_eq!(macc(0, &[-1], &[1 << 29], 30), 0);
}

#[test]
fn macc_stops_at_the_shorter_slice() {
    let half = 1 << 29;
    assert_eq!(macc(0, &[1, 2, 3], &[half, half, half, 7, 7], 30), 3);
    assert_eq!(macc(0, &[1, 2, 3, 9, 9], &[half, half, half], 30), 3);
    assert_eq!(macc(4, &[], &[], 30), 4);
}

#[test]
fn macc_adds_the_start_value() {
    assert_eq!(macc(5, &[1], &[1 << 30], 30), 6);
    assert_eq!(macc(7, &[3, -4], &[5, 6], 1), 3);
}

#[test]
fn macc_shift_bounds() {
    assert_eq!(macc(-1, &[], &[], 1), -1);
    // At shift 63 the start value keeps only its lowest bit, in the sign
    // position of the accumulator.
    assert_eq!(macc(1, &[], &[], 63), -1);
}

#[test]
fn macc_wraps_the_accumulator() {
    // Five products of 2^62 exceed 64 bits: the sum wraps to 2^62 + 2^29.
    assert_eq!(macc(0, &[i32::MIN; 5], &[i32::MIN; 5], 30), 0);
    assert_eq!(macc(i32::MAX, &[i32::MAX], &[i32::MAX], 3), 1610612735);
}

#[test]
fn default_vectors_are_zero() {
    assert_eq!(Vec5::default().0, [0; 5]);
    assert_eq!(IIR::default().ba.0, [0; 5]);
    assert_eq!(IIR::SHIFT, 30);
}

#[test]
fn update_shifts_history_and_stores_output() {
    let iir = IIR { ba: Vec5([1 << 30, 0, 0, 0, 0]) };
    let mut xy = Vec5([1, 2, 3, 4, 5]);
    assert_eq!(iir.update(&mut xy, 9), 9);
    assert_eq!(xy.0, [9, 1, 9, 3, 4]);
}

#[test]
fn update_uses_all_five_taps() {
    let iir = IIR { ba: Vec5([1 << 29, 1 << 28, -(1 << 27), 1 << 30, -(1 << 29)]) };
    let mut xy = Vec5([10, -20, 30, -40, 50]);
    assert_eq!(iir.update(&mut xy, 1000), 555);
    assert_eq!(xy.0, [1000, 10, 555, 30, -40]);
}

#[test]
fn update_leaves_coefficients_alone() {
    let iir = IIR { ba: Vec5([5, 4, 3, 2, 1]) };
    let mut xy = Vec5::default();
    iir.update(&mut xy, 77);
    assert_eq!(iir.ba.0, [5, 4, 3, 2, 1]);
}

#[test]
fn update_is_deterministic() {
    let iir = IIR { ba: Vec5([21090, 42180, 21090, 1068971392, -1064243072]) };
    let start = Vec5([7, -8, 9, -10, 11]);
    let mut a = start;
    let mut b = start;
    for x in [0, 1, -1, i32::MAX, i32::MIN, 12345] {
        assert_eq!(iir.update(&mut a, x), iir.update(&mut b, x));
        assert_eq!(a.0, b.0);
    }
}

#[test]
fn lowpass_terms_double_the_forward_gain() {
    let ba = Vec5::from_lowpass_terms(21090, 1234, -5678);
    assert_eq!(ba.0, [21090, 42180, 21090, 1234, -5678]);
    let ba = Vec5::from_lowpass_terms(-(1 << 30), 0, 0);
    assert_eq!(ba.0, [-(1 << 30), i32::MIN, -(1 << 30), 0, 0]);
}

#[test]
fn lowpass_terms_wrap_beyond_the_range() {
    let ba = Vec5::from_lowpass_terms(1 << 30, 1, 2);
    assert_eq!(ba.0, [1 << 30, i32::MIN, 1 << 30, 1, 2]);
    let ba = Vec5::from_lowpass_terms(i32::MAX, 0, 0);
    assert_eq!(ba.0[1], -2);
}

// The terms of a lowpass with corner frequency 0.001, quality 1/sqrt(2)
// and gain 2.
const B0: i32 = 21090;
const A1: i32 = 2137942784;
const A2: i32 = -1064243072;

#[test]
fn step_response_settles_within_rounding_of_the_gain() {
    let iir = IIR { ba: Vec5::from_lowpass_terms(B0, A1, A2) };
    let mut xy = Vec5::default();
    let v: i32 = 100_000;
    let mut y = 0;
    for _ in 0..20_000 {
        y = iir.update(&mut xy, v);
    }
    assert_eq!(y, 212_980);
    assert_eq!(xy.0, [v, v, y, y, y]);
    // The settled output solves the filter equation up to half a unit of
    // the accumulator.
    let residue = 4 * B0 as i64 * v as i64
        + (A1 as i64 + A2 as i64 - (1i64 << 30)) * y as i64;
    assert!(-(1i64 << 29) <= residue && residue < (1i64 << 29));
    // So it is the gain times the input, within the rounding band.
    let band = (1i64 << 29) / ((1i64 << 30) - A1 as i64 - A2 as i64) + 1;
    assert!((y as i64 - 2 * v as i64).abs() <= band + 2 * v as i64 / 100);
}

#[test]
fn steady_state_is_a_fixed_point() {
    let iir = IIR { ba: Vec5::from_lowpass_terms(B0, A1, A2) };
    let mut xy = Vec5([100_000, 100_000, 212_980, 212_980, 212_980]);
    for _ in 0..100 {
        assert_eq!(iir.update(&mut xy, 100_000), 212_980);
        assert_eq!(xy.0, [100_000, 100_000, 212_980, 212_980, 212_980]);
    }
}

#[test]
fn early_step_response() {
    let iir = IIR { ba: Vec5::from_lowpass_terms(B0, A1, A2) };
    let mut xy = Vec5::default();
    assert_eq!(iir.update(&mut xy, 100_000), 2);
    assert_eq!(iir.update(&mut xy, 100_000), 10);
    assert_eq!(iir.update(&mut xy, 100_000), 26);
    assert_eq!(xy.0, [100_000, 100_000, 26, 10, 2]);
}
