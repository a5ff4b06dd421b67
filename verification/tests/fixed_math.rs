//! Exact behaviour of the fixed-point kernels.

use molsim::fixed::{fold_max, fold_min, Fx, FX_BOUND, SCALE};

fn fx(units: i128) -> Fx {
    Fx::from_units(units)
}

#[test]
fn from_int_scales_exactly() {
    assert_eq!(Fx::from_int(7).units(), 7 * SCALE);
    assert_eq!(Fx::from_int(-3).units(), -3 * SCALE);
    assert_eq!(Fx::zero().units(), 0);
}

#[test]
fn from_units_clamps_into_range() {
    assert_eq!(Fx::from_units(2 * FX_BOUND).units(), FX_BOUND);
    assert_eq!(Fx::from_units(-2 * FX_BOUND).units(), -FX_BOUND);
    assert_eq!(Fx::from_units(42).units(), 42);
}

#[test]
fn addition_saturates_at_the_bound() {
    let big = fx(FX_BOUND);
    assert_eq!(big.plus(big).units(), FX_BOUND);
    assert_eq!(big.negate().minus(big).units(), -FX_BOUND);
    assert_eq!(fx(5).plus(fx(7)).units(), 12);
}

#[test]
fn multiplication_truncates_toward_zero() {
    let half = fx(SCALE / 2);
    assert_eq!(fx(3).times(half).units(), 1);
    assert_eq!(fx(-3).times(half).units(), -1);
    assert_eq!(Fx::from_int(4).times(Fx::from_int(25)).units(), 100 * SCALE);
}

#[test]
fn division_by_zero_saturates_with_the_sign_of_the_dividend() {
    let zero = Fx::zero();
    assert_eq!(Fx::from_int(1).div_by(zero).units(), FX_BOUND);
    assert_eq!(Fx::from_int(-1).div_by(zero).units(), -FX_BOUND);
    assert_eq!(zero.div_by(zero).units(), 0);
    assert_eq!(Fx::from_int(1).div_by(Fx::from_int(4)).units(), SCALE / 4);
}

#[test]
fn square_root_is_exact_on_perfect_squares() {
    assert_eq!(Fx::from_int(4).sqrt_fx().units(), 2 * SCALE);
    assert_eq!(Fx::from_int(9).sqrt_fx().units(), 3 * SCALE);
    assert_eq!(Fx::zero().sqrt_fx().units(), 0);
    // sqrt(2) to the resolution
    assert_eq!(Fx::from_int(2).sqrt_fx().units(), 1_414_213_562_373);
}

#[test]
fn cube_root_is_exact_on_perfect_cubes() {
    assert_eq!(Fx::from_int(8).cbrt_fx().units(), 2 * SCALE);
    assert_eq!(Fx::from_int(27).cbrt_fx().units(), 3 * SCALE);
}

#[test]
fn powers_multiply_out_exactly() {
    assert_eq!(Fx::from_int(3).powi(4).units(), 81 * SCALE);
    assert_eq!(Fx::from_int(5).powi(0).units(), SCALE);
}

#[test]
fn exponential_matches_the_reference_value() {
    assert_eq!(Fx::zero().exp_fx().units(), SCALE);
    // e = 2.718281828459...; the kernel is within 1e-9 of it
    let e1 = Fx::from_int(1).exp_fx().units();
    assert!((e1 - 2_718_281_828_459i128).abs() < 1_000, "exp(1) = {}", e1);
    let em1 = Fx::from_int(-1).exp_fx().units();
    assert!((em1 - 367_879_441_171i128).abs() < 1_000, "exp(-1) = {}", em1);
    // far negative arguments flush to zero, far positive ones saturate
    assert_eq!(Fx::from_int(-40).exp_fx().units(), 0);
    assert_eq!(Fx::from_int(20).exp_fx().units(), FX_BOUND);
}

#[test]
fn logarithm_matches_the_reference_value() {
    assert_eq!(Fx::from_int(1).ln_fx().units(), 0);
    // ln(1/2) = -0.693147180559...
    let lh = fx(SCALE / 2).ln_fx().units();
    assert!((lh + 693_147_180_559i128).abs() < 100, "ln(0.5) = {}", lh);
    // ln and exp agree on an interior point: exp(ln(0.3)) close to 0.3
    let x = fx(300_000_000_000);
    let roundtrip = x.ln_fx().exp_fx().units();
    assert!((roundtrip - 300_000_000_000i128).abs() < 1_000, "exp(ln(0.3)) = {}", roundtrip);
}

#[test]
fn folds_find_extrema_from_an_initial_accumulator() {
    let xs = vec![fx(5), fx(-3), fx(9), fx(-3)];
    assert_eq!(fold_min(&xs, Fx::zero()).units(), -3);
    assert_eq!(fold_max(&xs, Fx::zero()).units(), 9);
    // the initial accumulator takes part, as in a fold from zero
    let pos = vec![fx(5), fx(9)];
    assert_eq!(fold_min(&pos, Fx::zero()).units(), 0);
    let empty: Vec<Fx> = vec![];
    assert_eq!(fold_max(&empty, fx(7)).units(), 7);
}
