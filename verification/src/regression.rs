//! Batch gradient descent for a univariate linear model, together with the
//! feature scaling that keeps it numerically stable.
//!
//! Training runs a fixed number of iterations; each one sums residuals over
//! the whole dataset and updates both parameters simultaneously from the
//! pre-update values. The spec functions below state that computation, step
//! by step, in the fixed-point arithmetic of [`crate::fixed`].

use vstd::prelude::*;

use crate::fixed::{Fixed, SCALE, fx_add, fx_div, fx_from_units, fx_mul, fx_sub, in_i64};

verus! {

/// Why a fit was refused.
#[derive(Clone, Copy, PartialEq, Eq, Structural, Debug)]
pub enum FitError {
    /// The two data sequences have different lengths, or are empty.
    InvalidInput,
    /// A non-positive scale divisor or learning rate, or a zero iteration
    /// count.
    InvalidConfiguration,
}

/// Raw values of a sequence of fixed-point numbers.
pub open spec fn vals(s: Seq<Fixed>) -> Seq<int> {
    s.map_values(|f: Fixed| f@)
}

/// Raw residual of the point `(x, y)` under parameters `(th0, th1)`:
/// the prediction `th0 + th1 * x` minus the observed `y`.
pub open spec fn residual(th0: int, th1: int, x: int, y: int) -> int {
    fx_sub(fx_add(th0, fx_mul(th1, x)), y)
}

/// Sum of the residuals of the first `k` points.
pub open spec fn grad0_sum(th0: int, th1: int, xs: Seq<int>, ys: Seq<int>, k: int) -> int
    decreases k,
{
    if k <= 0 {
        0
    } else {
        fx_add(grad0_sum(th0, th1, xs, ys, k - 1), residual(th0, th1, xs[k - 1], ys[k - 1]))
    }
}

/// Sum of residual times feature over the first `k` points.
pub open spec fn grad1_sum(th0: int, th1: int, xs: Seq<int>, ys: Seq<int>, k: int) -> int
    decreases k,
{
    if k <= 0 {
        0
    } else {
        fx_add(
            grad1_sum(th0, th1, xs, ys, k - 1),
            fx_mul(residual(th0, th1, xs[k - 1], ys[k - 1]), xs[k - 1]),
        )
    }
}

/// One training iteration: both parameters move against their gradient,
/// each computed from the pre-update parameter values.
pub open spec fn gd_step(th0: int, th1: int, xs: Seq<int>, ys: Seq<int>, step: int) -> (int, int) {
    (
        fx_sub(th0, fx_mul(step, grad0_sum(th0, th1, xs, ys, xs.len() as int))),
        fx_sub(th1, fx_mul(step, grad1_sum(th0, th1, xs, ys, xs.len() as int))),
    )
}

/// The parameters after `k` training iterations from `(th0, th1)`.
pub open spec fn gd_iterate(
    th0: int,
    th1: int,
    xs: Seq<int>,
    ys: Seq<int>,
    step: int,
    k: nat,
) -> (int, int)
    decreases k,
{
    if k == 0 {
        (th0, th1)
    } else {
        let prev = gd_iterate(th0, th1, xs, ys, step, (k - 1) as nat);
        gd_step(prev.0, prev.1, xs, ys, step)
    }
}

/// Training is strictly sequential: running `k1 + k2` iterations is the
/// same as running `k1` iterations and then `k2` more from the parameters
/// they produced. In particular, stepping a model one iteration at a time
/// traces exactly the states of one long run.
pub proof fn lemma_gd_iterate_compose(
    th0: int,
    th1: int,
    xs: Seq<int>,
    ys: Seq<int>,
    step: int,
    k1: nat,
    k2: nat,
)
    ensures
        gd_iterate(th0, th1, xs, ys, step, k1 + k2) == ({
            let mid = gd_iterate(th0, th1, xs, ys, step, k1);
            gd_iterate(mid.0, mid.1, xs, ys, step, k2)
        }),
    decreases k2,
{
    if k2 > 0 {
        lemma_gd_iterate_compose(th0, th1, xs, ys, step, k1, (k2 - 1) as nat);
        assert(k1 + k2 == (k1 + (k2 - 1) as nat) + 1);
    }
}

/// The per-iteration step: the learning rate divided by the number of
/// points.
pub open spec fn step_of(lr: int, n: int) -> int {
    fx_div(lr, fx_from_units(n))
}

/// Sum of squared errors `(y - (th1 * x + th0))^2` over the first `k`
/// points.
pub open spec fn sq_err_sum(th0: int, th1: int, xs: Seq<int>, ys: Seq<int>, k: int) -> int
    decreases k,
{
    if k <= 0 {
        0
    } else {
        let d = fx_sub(ys[k - 1], fx_add(fx_mul(th1, xs[k - 1]), th0));
        fx_add(sq_err_sum(th0, th1, xs, ys, k - 1), fx_mul(d, d))
    }
}

/// Mean squared error of `(th0, th1)` on the dataset.
pub open spec fn cost_of(th0: int, th1: int, xs: Seq<int>, ys: Seq<int>) -> int {
    fx_div(sq_err_sum(th0, th1, xs, ys, xs.len() as int), fx_from_units(xs.len() as int))
}

/// The error `train` reports for these argument shapes, if any: mismatched
/// or empty data first, then a bad configuration.
pub open spec fn train_error(n_km: int, n_price: int, lr: int, iters: int) -> Option<FitError> {
    if n_km != n_price || n_km == 0 {
        Some(FitError::InvalidInput)
    } else if lr <= 0 || iters == 0 {
        Some(FitError::InvalidConfiguration)
    } else {
        None
    }
}

/// Raw value of the default learning rate, 0.01.
pub const DEFAULT_LEARNING_RATE_RAW: i64 = 10_000_000;

/// Default number of training iterations.
pub const DEFAULT_NUM_ITERATION: usize = 2000;

/// A univariate linear model and the data and hyperparameters it is
/// trained with. The data is never mutated; training changes only the two
/// parameters.
pub struct LinearRegression {
    /// The feature values (already scaled when training via [`fit`]).
    pub vec_km: Vec<Fixed>,
    /// The observed values, paired with `vec_km` by index.
    pub vec_price: Vec<Fixed>,
    /// Step size of each gradient-descent update; must be positive.
    pub learning_rate: Fixed,
    /// How many iterations training runs, unconditionally.
    pub num_iteration: usize,
    /// Intercept of the model.
    pub theta0: Fixed,
    /// Slope of the model.
    pub theta1: Fixed,
}

impl LinearRegression {
    /// A fresh model on the given data with the default hyperparameters
    /// and both parameters at zero.
    pub fn new(vec_km: Vec<Fixed>, vec_price: Vec<Fixed>) -> (lr: LinearRegression)
        ensures
            lr.vec_km == vec_km,
            lr.vec_price == vec_price,
            lr.learning_rate@ == DEFAULT_LEARNING_RATE_RAW as int,
            lr.num_iteration == DEFAULT_NUM_ITERATION,
            lr.theta0@ == 0,
            lr.theta1@ == 0,
    {
        LinearRegression {
            vec_km,
            vec_price,
            learning_rate: Fixed::from_raw(DEFAULT_LEARNING_RATE_RAW),
            num_iteration: DEFAULT_NUM_ITERATION,
            theta0: Fixed::zero(),
            theta1: Fixed::zero(),
        }
    }

    /// A fresh model on the given data with explicit hyperparameters and
    /// both parameters at zero.
    pub fn with_config(
        vec_km: Vec<Fixed>,
        vec_price: Vec<Fixed>,
        learning_rate: Fixed,
        num_iteration: usize,
    ) -> (lr: LinearRegression)
        ensures
            lr.vec_km == vec_km,
            lr.vec_price == vec_price,
            lr.learning_rate == learning_rate,
            lr.num_iteration == num_iteration,
            lr.theta0@ == 0,
            lr.theta1@ == 0,
    {
        LinearRegression {
            vec_km,
            vec_price,
            learning_rate,
            num_iteration,
            theta0: Fixed::zero(),
            theta1: Fixed::zero(),
        }
    }

    /// Train by batch gradient descent: run exactly `num_iteration`
    /// iterations over the whole dataset, with no early exit. Fails with
    /// `InvalidInput` on mismatched or empty data and with
    /// `InvalidConfiguration` on a non-positive learning rate or a zero
    /// iteration count; on failure nothing is trained. The data and the
    /// hyperparameters are never mutated.
    pub fn gradient_descent(&mut self) -> (r: Result<(), FitError>)
        ensures
            final(self).vec_km == old(self).vec_km,
            final(self).vec_price == old(self).vec_price,
            final(self).learning_rate == old(self).learning_rate,
            final(self).num_iteration == old(self).num_iteration,
            ({
                let e = train_error(
                    old(self).vec_km@.len() as int,
                    old(self).vec_price@.len() as int,
                    old(self).learning_rate@,
                    old(self).num_iteration as int,
                );
                match e {
                    Some(err) => r == Err::<(), FitError>(err) && final(self).theta0
                        == old(self).theta0 && final(self).theta1 == old(self).theta1,
                    None => r == Ok::<(), FitError>(()) && (
                    final(self).theta0@,
                    final(self).theta1@,
                    ) == gd_iterate(
                        old(self).theta0@,
                        old(self).theta1@,
                        vals(old(self).vec_km@),
                        vals(old(self).vec_price@),
                        step_of(old(self).learning_rate@, old(self).vec_km@.len() as int),
                        old(self).num_iteration as nat,
                    ),
                }
            }),
    {
        let n = self.vec_km.len();
        if n != self.vec_price.len() || n == 0 {
            return Err(FitError::InvalidInput);
        }
        if self.learning_rate.raw() <= 0 || self.num_iteration == 0 {
            return Err(FitError::InvalidConfiguration);
        }
        let n_fx = Fixed::from_units_usize(n);
        proof {
            assert(n as int * (SCALE as int) >= SCALE as int) by (nonlinear_arith)
                requires
                    n >= 1,
            {
            }
        }
        let step = self.learning_rate.div(n_fx);
        let ghost xs = vals(self.vec_km@);
        let ghost ys = vals(self.vec_price@);
        let mut it: usize = 0;
        while it < self.num_iteration
            invariant
                it <= self.num_iteration,
                self.vec_km == old(self).vec_km,
                self.vec_price == old(self).vec_price,
                self.learning_rate == old(self).learning_rate,
                self.num_iteration == old(self).num_iteration,
                n == self.vec_km.len(),
                n == self.vec_price.len(),
                n > 0,
                xs == vals(self.vec_km@),
                ys == vals(self.vec_price@),
                step@ == step_of(old(self).learning_rate@, n as int),
                (self.theta0@, self.theta1@) == gd_iterate(
                    old(self).theta0@,
                    old(self).theta1@,
                    xs,
                    ys,
                    step@,
                    it as nat,
                ),
            decreases self.num_iteration - it,
        {
            let th0 = self.theta0;
            let th1 = self.theta1;
            let mut g0 = Fixed::zero();
            let mut g1 = Fixed::zero();
            let mut idx: usize = 0;
            while idx < n
                invariant
                    idx <= n,
                    n == self.vec_km.len(),
                    n == self.vec_price.len(),
                    self.vec_km == old(self).vec_km,
                    self.vec_price == old(self).vec_price,
                    self.theta0 == th0,
                    self.theta1 == th1,
                    xs == vals(self.vec_km@),
                    ys == vals(self.vec_price@),
                    g0@ == grad0_sum(th0@, th1@, xs, ys, idx as int),
                    g1@ == grad1_sum(th0@, th1@, xs, ys, idx as int),
                decreases n - idx,
            {
                let x = self.vec_km[idx];
                let y = self.vec_price[idx];
                proof {
                    assert(xs[idx as int] == x@);
                    assert(ys[idx as int] == y@);
                }
                let res = th0.add(th1.mul(x)).sub(y);
                g0 = g0.add(res);
                g1 = g1.add(res.mul(x));
                idx += 1;
            }
            self.theta0 = th0.sub(step.mul(g0));
            self.theta1 = th1.sub(step.mul(g1));
            it += 1;
            proof {
                let prev = gd_iterate(
                    old(self).theta0@,
                    old(self).theta1@,
                    xs,
                    ys,
                    step@,
                    (it - 1) as nat,
                );
                assert((self.theta0@, self.theta1@) == gd_step(prev.0, prev.1, xs, ys, step@));
                assert(gd_iterate(old(self).theta0@, old(self).theta1@, xs, ys, step@, it as nat)
                    == gd_step(prev.0, prev.1, xs, ys, step@));
            }
        }
        Ok(())
    }

    /// The model's prediction at `x`: `theta1 * x + theta0`.
    pub fn predict(&self, x: Fixed) -> (r: Fixed)
        ensures
            r@ == fx_add(fx_mul(self.theta1@, x@), self.theta0@),
    {
        self.theta1.mul(x).add(self.theta0)
    }

    /// Mean squared error of the current parameters on the data: the
    /// average of `(y - (theta1 * x + theta0))^2`. A pure diagnostic with
    /// no side effect; fails with `InvalidInput` on mismatched or empty
    /// data.
    pub fn cost(&self) -> (r: Result<Fixed, FitError>)
        ensures
            if self.vec_km@.len() != self.vec_price@.len() || self.vec_km@.len() == 0 {
                r == Err::<Fixed, FitError>(FitError::InvalidInput)
            } else {
                r matches Ok(c) && c@ == cost_of(
                    self.theta0@,
                    self.theta1@,
                    vals(self.vec_km@),
                    vals(self.vec_price@),
                )
            },
    {
        let n = self.vec_km.len();
        if n != self.vec_price.len() || n == 0 {
            return Err(FitError::InvalidInput);
        }
        let ghost xs = vals(self.vec_km@);
        let ghost ys = vals(self.vec_price@);
        let mut total_error = Fixed::zero();
        let mut idx: usize = 0;
        while idx < n
            invariant
                idx <= n,
                n == self.vec_km.len(),
                n == self.vec_price.len(),
                xs == vals(self.vec_km@),
                ys == vals(self.vec_price@),
                total_error@ == sq_err_sum(self.theta0@, self.theta1@, xs, ys, idx as int),
            decreases n - idx,
        {
            let x = self.vec_km[idx];
            let y = self.vec_price[idx];
            proof {
                assert(xs[idx as int] == x@);
                assert(ys[idx as int] == y@);
            }
            let d = y.sub(self.theta1.mul(x).add(self.theta0));
            total_error = total_error.add(d.mul(d));
            idx += 1;
        }
        let n_fx = Fixed::from_units_usize(n);
        proof {
            assert(n as int * (SCALE as int) >= SCALE as int) by (nonlinear_arith)
                requires
                    n >= 1,
            {
            }
        }
        Ok(total_error.div(n_fx))
    }
}

/// Both gradient sums vanish on a prefix whose residuals are all zero.
proof fn lemma_zero_residual_sums(th0: int, th1: int, xs: Seq<int>, ys: Seq<int>, k: int)
    requires
        forall|i: int| 0 <= i < k ==> #[trigger] residual(th0, th1, xs[i], ys[i]) == 0,
    ensures
        grad0_sum(th0, th1, xs, ys, k) == 0,
        grad1_sum(th0, th1, xs, ys, k) == 0,
    decreases k,
{
    if k > 0 {
        lemma_zero_residual_sums(th0, th1, xs, ys, k - 1);
        assert(0 * xs[k - 1] == 0) by (nonlinear_arith);
        vstd::arithmetic::div_mod::lemma_div_of0(SCALE as int);
        assert(fx_mul(residual(th0, th1, xs[k - 1], ys[k - 1]), xs[k - 1]) == 0);
    }
}

/// Parameters that fit the dataset exactly — every residual is zero — are
/// a fixed point of training: any number of iterations leaves them
/// unchanged. (That training *approaches* such a point on a dataset lying
/// on a line is a numeric convergence property, exercised by tests.)
pub proof fn lemma_perfect_fit_is_fixed_point(
    th0: int,
    th1: int,
    xs: Seq<int>,
    ys: Seq<int>,
    step: int,
    k: nat,
)
    requires
        in_i64(th0),
        in_i64(th1),
        forall|i: int| 0 <= i < xs.len() ==> #[trigger] residual(th0, th1, xs[i], ys[i]) == 0,
    ensures
        gd_iterate(th0, th1, xs, ys, step, k) == (th0, th1),
    decreases k,
{
    if k > 0 {
        lemma_perfect_fit_is_fixed_point(th0, th1, xs, ys, step, (k - 1) as nat);
        lemma_zero_residual_sums(th0, th1, xs, ys, xs.len() as int);
        assert(step * 0 == 0) by (nonlinear_arith);
        vstd::arithmetic::div_mod::lemma_div_of0(SCALE as int);
        assert(fx_mul(step, 0) == 0);
    }
}

/// With the parameters frozen, `predict` is linear in its argument:
/// `predict(x1 + x2) - predict(x2)` does not depend on `x2`. It lies
/// within one raw unit above the pure slope contribution `theta1 * x1`,
/// the one unit coming from the rounding of the fixed-point product. The
/// preconditions keep every intermediate inside the `i64` range, so that
/// no operation saturates.
pub proof fn lemma_predict_linear(th0: int, th1: int, x1: int, x2: int)
    requires
        in_i64(th0),
        in_i64(th1),
        in_i64(x1),
        in_i64(x2),
        in_i64(x1 + x2),
        in_i64((th1 * (x1 + x2)) / (SCALE as int)),
        in_i64((th1 * (x1 + x2)) / (SCALE as int) + th0),
        in_i64((th1 * x2) / (SCALE as int)),
        in_i64((th1 * x2) / (SCALE as int) + th0),
        in_i64((th1 * x1) / (SCALE as int)),
        in_i64((th1 * x1) / (SCALE as int) + 1),
    ensures
        ({
            let d = fx_sub(
                fx_add(fx_mul(th1, fx_add(x1, x2)), th0),
                fx_add(fx_mul(th1, x2), th0),
            );
            fx_mul(th1, x1) <= d <= fx_mul(th1, x1) + 1
        }),
{
    let s = SCALE as int;
    let p = th1 * x1;
    let q = th1 * x2;
    assert(th1 * (x1 + x2) == p + q) by (nonlinear_arith)
        requires
            p == th1 * x1,
            q == th1 * x2,
    {
    }
    vstd::arithmetic::div_mod::lemma_fundamental_div_mod(p, s);
    vstd::arithmetic::div_mod::lemma_fundamental_div_mod(q, s);
    vstd::arithmetic::div_mod::lemma_mod_division_less_than_divisor(p, s);
    vstd::arithmetic::div_mod::lemma_mod_division_less_than_divisor(q, s);
    let a = p / s;
    let b = q / s;
    let rp = p % s;
    let rq = q % s;
    assert(s * (a + b) == s * a + s * b) by (nonlinear_arith);
    assert((a + b) * s == s * (a + b)) by (nonlinear_arith);
    if rp + rq < s {
        vstd::arithmetic::div_mod::lemma_fundamental_div_mod_converse_div(
            p + q,
            s,
            a + b,
            rp + rq,
        );
        assert((p + q) / s == a + b);
    } else {
        assert((a + b + 1) * s == s * (a + b) + s) by (nonlinear_arith);
        vstd::arithmetic::div_mod::lemma_fundamental_div_mod_converse_div(
            p + q,
            s,
            a + b + 1,
            rp + rq - s,
        );
        assert((p + q) / s == a + b + 1);
    }
}

/// The feature sequence divided element by element by `divisor`, in raw
/// values.
pub open spec fn scaled_vals(xs: Seq<int>, d: int) -> Seq<int> {
    xs.map_values(|v: int| fx_div(v, d))
}

/// Divide every feature value by `divisor`, the normalization applied
/// before training. Fails with `InvalidConfiguration` when the divisor is
/// not positive.
pub fn scale(xs: &Vec<Fixed>, divisor: Fixed) -> (r: Result<Vec<Fixed>, FitError>)
    ensures
        if divisor@ <= 0 {
            r == Err::<Vec<Fixed>, FitError>(FitError::InvalidConfiguration)
        } else {
            r matches Ok(v) && vals(v@) == scaled_vals(vals(xs@), divisor@)
        },
{
    if divisor.raw() <= 0 {
        return Err(FitError::InvalidConfiguration);
    }
    let n = xs.len();
    let mut out: Vec<Fixed> = Vec::new();
    let mut idx: usize = 0;
    while idx < n
        invariant
            idx <= n,
            n == xs@.len(),
            divisor@ > 0,
            out@.len() == idx,
            forall|i: int| 0 <= i < idx ==> out@[i]@ == fx_div(xs@[i]@, divisor@),
        decreases n - idx,
    {
        out.push(xs[idx].div(divisor));
        idx += 1;
    }
    proof {
        assert(vals(out@) =~= scaled_vals(vals(xs@), divisor@));
    }
    Ok(out)
}

/// The smallest and largest value of a sequence, compared by value;
/// `None` exactly when the sequence is empty. Used to place the endpoints
/// of the fitted line at the dataset's extremes. The comparison is a true
/// value comparison, not one that first truncates each value to a whole
/// 32-bit number; the latter would misplace the endpoints whenever values
/// share a truncation.
pub fn min_max(xs: &Vec<Fixed>) -> (r: Option<(Fixed, Fixed)>)
    ensures
        r is None <==> xs@.len() == 0,
        r matches Some(p) ==> {
            &&& exists|i: int| 0 <= i < xs@.len() && xs@[i] == p.0
            &&& exists|i: int| 0 <= i < xs@.len() && xs@[i] == p.1
            &&& forall|i: int| 0 <= i < xs@.len() ==> p.0@ <= #[trigger] xs@[i]@
            &&& forall|i: int| 0 <= i < xs@.len() ==> p.1@ >= #[trigger] xs@[i]@
        },
{
    let n = xs.len();
    if n == 0 {
        return None;
    }
    let mut mn = xs[0];
    let mut mx = xs[0];
    let mut idx: usize = 1;
    while idx < n
        invariant
            1 <= idx <= n,
            n == xs@.len(),
            exists|i: int| 0 <= i < idx && xs@[i] == mn,
            exists|i: int| 0 <= i < idx && xs@[i] == mx,
            forall|i: int| 0 <= i < idx ==> mn@ <= #[trigger] xs@[i]@,
            forall|i: int| 0 <= i < idx ==> mx@ >= #[trigger] xs@[i]@,
        decreases n - idx,
    {
        let x = xs[idx];
        if x.raw() < mn.raw() {
            mn = x;
        }
        if x.raw() > mx.raw() {
            mx = x;
        }
        idx += 1;
    }
    Some((mn, mx))
}

/// The error `fit` reports for these arguments, if any: a bad divisor
/// first, then mismatched or empty data, then a bad configuration.
pub open spec fn fit_error(
    n_km: int,
    n_price: int,
    divisor: int,
    lr: int,
    iters: int,
) -> Option<FitError> {
    if divisor <= 0 {
        Some(FitError::InvalidConfiguration)
    } else {
        train_error(n_km, n_price, lr, iters)
    }
}

/// The whole pipeline: scale the features by `divisor`, train from zero
/// parameters on the scaled features, then correct the slope back to the
/// raw feature scale (`theta1 / divisor`; the intercept needs no
/// correction). The returned model holds the scaled features, the
/// hyperparameters, and the corrected parameters.
pub fn fit(
    vec_km: Vec<Fixed>,
    vec_price: Vec<Fixed>,
    divisor: Fixed,
    learning_rate: Fixed,
    num_iteration: usize,
) -> (r: Result<LinearRegression, FitError>)
    ensures
        ({
            let e = fit_error(
                vec_km@.len() as int,
                vec_price@.len() as int,
                divisor@,
                learning_rate@,
                num_iteration as int,
            );
            match e {
                Some(err) => r == Err::<LinearRegression, FitError>(err),
                None => {
                    let trained = gd_iterate(
                        0,
                        0,
                        scaled_vals(vals(vec_km@), divisor@),
                        vals(vec_price@),
                        step_of(learning_rate@, vec_km@.len() as int),
                        num_iteration as nat,
                    );
                    &&& r matches Ok(m)
                    &&& vals(m.vec_km@) == scaled_vals(vals(vec_km@), divisor@)
                    &&& m.vec_price == vec_price
                    &&& m.learning_rate == learning_rate
                    &&& m.num_iteration == num_iteration
                    &&& m.theta0@ == trained.0
                    &&& m.theta1@ == fx_div(trained.1, divisor@)
                },
            }
        }),
{
    let scaled = match scale(&vec_km, divisor) {
        Ok(v) => v,
        Err(err) => {
            return Err(err);
        },
    };
    proof {
        assert(vals(scaled@).len() == scaled@.len());
        assert(scaled_vals(vals(vec_km@), divisor@).len() == vec_km@.len());
    }
    let mut model = LinearRegression::with_config(scaled, vec_price, learning_rate, num_iteration);
    match model.gradient_descent() {
        Ok(()) => {},
        Err(err) => {
            return Err(err);
        },
    }
    model.theta1 = model.theta1.div(divisor);
    Ok(model)
}

} // verus!
