use linreg::fixed::Fixed;
use linreg::regression::{fit, min_max, scale, FitError, LinearRegression};

fn fx(v: f64) -> Fixed {
    Fixed::from_raw((v * 1e9).round() as i64)
}

fn val(f: Fixed) -> f64 {
    f.raw() as f64 / 1e9
}

fn fxv(vs: &[f64]) -> Vec<Fixed> {
    vs.iter().map(|&v| fx(v)).collect()
}

#[test]
fn fixed_exact_arithmetic() {
    assert_eq!(fx(2.0).add(fx(3.5)).raw(), 5_500_000_000);
    assert_eq!(fx(2.0).sub(fx(3.5)).raw(), -1_500_000_000);
    assert_eq!(fx(2.0).mul(fx(3.0)).raw(), 6_000_000_000);
    // products and quotients round toward negative infinity
    assert_eq!(fx(2.0).div(fx(3.0)).raw(), 666_666_666);
    assert_eq!(Fixed::from_raw(1).mul(Fixed::from_raw(1)).raw(), 0);
    assert_eq!(Fixed::from_raw(-1).mul(Fixed::from_raw(1)).raw(), -1);
    // sums saturate instead of overflowing
    assert_eq!(Fixed::from_raw(i64::MAX).add(Fixed::from_raw(1)).raw(), i64::MAX);
    assert_eq!(Fixed::from_raw(i64::MIN).sub(Fixed::from_raw(1)).raw(), i64::MIN);
    assert_eq!(Fixed::from_units(7).raw(), 7_000_000_000);
    assert_eq!(Fixed::from_units(-2).raw(), -2_000_000_000);
    assert_eq!(Fixed::zero().raw(), 0);
}

#[test]
fn new_uses_default_hyperparameters() {
    let m = LinearRegression::new(fxv(&[1.0]), fxv(&[2.0]));
    assert_eq!(m.learning_rate.raw(), 10_000_000); // 0.01
    assert_eq!(m.num_iteration, 2000);
    assert_eq!(m.theta0.raw(), 0);
    assert_eq!(m.theta1.raw(), 0);
}

#[test]
fn predict_exact_value() {
    let mut m = LinearRegression::new(Vec::new(), Vec::new());
    m.theta0 = fx(1.0);
    m.theta1 = fx(2.0);
    assert_eq!(m.predict(fx(3.0)).raw(), 7_000_000_000);
}

#[test]
fn cost_exact_value() {
    // theta = (0, 0): mse of y = [3, 4] is (9 + 16) / 2 = 12.5
    let m = LinearRegression::new(fxv(&[1.0, 2.0]), fxv(&[3.0, 4.0]));
    assert_eq!(m.cost().unwrap().raw(), 12_500_000_000);
}

#[test]
fn cost_rejects_empty_data() {
    let m = LinearRegression::new(Vec::new(), Vec::new());
    assert_eq!(m.cost(), Err(FitError::InvalidInput));
}

// train() fails with InvalidInput when x and y have different lengths.
#[test]
fn gradient_descent_rejects_mismatched_lengths() {
    let mut m = LinearRegression::new(fxv(&[1.0, 2.0, 3.0]), fxv(&[1.0, 2.0]));
    assert_eq!(m.gradient_descent(), Err(FitError::InvalidInput));
    // nothing was trained
    assert_eq!(m.theta0.raw(), 0);
    assert_eq!(m.theta1.raw(), 0);
}

// train() fails with InvalidInput when the dataset is empty.
#[test]
fn gradient_descent_rejects_empty_data() {
    let mut m = LinearRegression::new(Vec::new(), Vec::new());
    assert_eq!(m.gradient_descent(), Err(FitError::InvalidInput));
}

#[test]
fn gradient_descent_rejects_bad_configuration() {
    let mut m =
        LinearRegression::with_config(fxv(&[1.0]), fxv(&[1.0]), fx(0.0), 10);
    assert_eq!(m.gradient_descent(), Err(FitError::InvalidConfiguration));
    let mut m2 =
        LinearRegression::with_config(fxv(&[1.0]), fxv(&[1.0]), fx(-0.5), 10);
    assert_eq!(m2.gradient_descent(), Err(FitError::InvalidConfiguration));
    let mut m3 =
        LinearRegression::with_config(fxv(&[1.0]), fxv(&[1.0]), fx(0.01), 0);
    assert_eq!(m3.gradient_descent(), Err(FitError::InvalidConfiguration));
}

#[test]
fn scale_divides_each_element() {
    let s = scale(&fxv(&[10000.0, 25000.0]), Fixed::from_units(10000)).unwrap();
    assert_eq!(s[0].raw(), 1_000_000_000);
    assert_eq!(s[1].raw(), 2_500_000_000);
}

#[test]
fn scale_rejects_non_positive_divisor() {
    assert_eq!(
        scale(&fxv(&[1.0]), Fixed::zero()),
        Err(FitError::InvalidConfiguration)
    );
    assert_eq!(
        scale(&fxv(&[1.0]), fx(-3.0)),
        Err(FitError::InvalidConfiguration)
    );
}

#[test]
fn fit_rejects_non_positive_divisor() {
    let r = fit(fxv(&[1.0]), fxv(&[1.0]), Fixed::zero(), fx(0.01), 10);
    assert!(matches!(r, Err(FitError::InvalidConfiguration)));
}

#[test]
fn min_max_by_value() {
    let r = min_max(&fxv(&[5.0, -2.0, 7.5, 0.0])).unwrap();
    assert_eq!(r.0.raw(), -2_000_000_000);
    assert_eq!(r.1.raw(), 7_500_000_000);
    assert!(min_max(&Vec::new()).is_none());
}

// For a dataset lying exactly on a line y = a*x + b, training long enough
// with a stable learning rate recovers a and b within a small tolerance.
#[test]
fn fit_collinear_converges() {
    // y = 2x + 3 on x = [1, 2, 3, 4]
    let x = fxv(&[1.0, 2.0, 3.0, 4.0]);
    let y = fxv(&[5.0, 7.0, 9.0, 11.0]);
    let m = fit(x, y, Fixed::from_units(1), fx(0.1), 5000).unwrap();
    assert!((val(m.theta1) - 2.0).abs() < 1e-3);
    assert!((val(m.theta0) - 3.0).abs() < 1e-3);
}

// cost() is non-increasing across iterations for a learning rate below the
// divergence threshold for the data scale.
#[test]
fn cost_non_increasing_across_iterations() {
    let mut m = LinearRegression::with_config(
        fxv(&[1.0, 2.0, 3.0]),
        fxv(&[2.0, 4.0, 6.0]),
        fx(0.01),
        1,
    );
    let mut prev = val(m.cost().unwrap());
    for _ in 0..300 {
        m.gradient_descent().unwrap();
        let next = val(m.cost().unwrap());
        assert!(next <= prev + 1e-7);
        prev = next;
    }
}

// predict(x1 + x2) - predict(x2) does not depend on x2: it is the pure
// slope contribution theta1 * x1, up to one raw rounding unit.
#[test]
fn predict_is_linear() {
    let mut m = LinearRegression::new(Vec::new(), Vec::new());
    m.theta0 = fx(1.5);
    m.theta1 = fx(-2.25);
    let x1 = fx(3.125);
    let slope_part = m.theta1.mul(x1).raw();
    for &b in &[-100.0, -1.0, 0.0, 0.5, 42.0, 10000.0] {
        let x2 = fx(b);
        let d = m.predict(x1.add(x2)).sub(m.predict(x2)).raw();
        assert!(d == slope_part || d == slope_part + 1);
    }
}

// Parameters that already fit the data exactly are a fixed point of
// training: iterations leave them unchanged, bit for bit.
#[test]
fn perfect_fit_is_fixed_point() {
    // y = x + 1, theta = (1, 1): every residual is zero
    let mut m = LinearRegression::with_config(
        fxv(&[1.0, 2.0, 3.0]),
        fxv(&[2.0, 3.0, 4.0]),
        fx(0.01),
        500,
    );
    m.theta0 = fx(1.0);
    m.theta1 = fx(1.0);
    m.gradient_descent().unwrap();
    assert_eq!(m.theta0.raw(), 1_000_000_000);
    assert_eq!(m.theta1.raw(), 1_000_000_000);
}

// Fitting on x/d and correcting the slope by d matches a fit done directly
// on the unscaled x, once both runs have converged.
#[test]
fn scaling_round_trip() {
    let x = fxv(&[1.0, 2.0, 3.0, 4.0]);
    let y = fxv(&[5.0, 7.0, 9.0, 11.0]);
    let direct = fit(x.clone(), y.clone(), Fixed::from_units(1), fx(0.1), 5000).unwrap();
    let scaled = fit(x, y, Fixed::from_units(2), fx(0.1), 5000).unwrap();
    // fit already divides the scaled-space slope by the divisor
    assert!((val(direct.theta1) - val(scaled.theta1)).abs() < 1e-3);
    assert!((val(direct.theta0) - val(scaled.theta0)).abs() < 1e-3);
    assert!((val(scaled.theta1) - 2.0).abs() < 1e-3);
}

// End-to-end: x = [10000, 20000, 30000], y = [3, 2, 1], divisor 10000,
// learning rate 0.01. After 2000 iterations the fit is still approaching
// the anti-correlated line (the slow eigenmode of this dataset decays as
// 0.9988^k); with a larger iteration budget it reaches slope -0.0001 and
// intercept 4, and predicts 1.0 at x = 30000.
#[test]
fn end_to_end_scenario() {
    let x = fxv(&[10000.0, 20000.0, 30000.0]);
    let y = fxv(&[3.0, 2.0, 1.0]);
    let d = Fixed::from_units(10000);

    let m = fit(x.clone(), y.clone(), d, fx(0.01), 2000).unwrap();
    assert!((val(m.theta0) - 3.664337).abs() < 0.01);
    assert!((val(m.theta1) * 10000.0 + 0.852341).abs() < 0.01);
    let p = val(m.predict(Fixed::from_units(30000)));
    assert!((p - 1.107313).abs() < 0.01);

    let m2 = fit(x, y, d, fx(0.01), 20000).unwrap();
    assert!((val(m2.theta0) - 4.0).abs() < 0.05);
    assert!((val(m2.theta1) * 10000.0 + 1.0).abs() < 0.01);
    let p2 = val(m2.predict(Fixed::from_units(30000)));
    assert!((p2 - 1.0).abs() < 0.05);
}
