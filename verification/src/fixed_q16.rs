//! Binary fixed-point arithmetic with 16 fractional bits, as used by the
//! zero-knowledge guest to evaluate linear, multiple, polynomial and logistic
//! regression models without floating point.
use vstd::prelude::*;

verus! {

/// Number of fractional bits of the representation.
pub const SCALE_BITS: u32 = 16;

/// The fixed-point value of `1.0`.
pub const SCALE: i64 = 65536;

/// `0.1963` (the linear coefficient of the cubic sigmoid approximation),
/// rounded to the nearest fixed-point value.
pub const SIGMOID_A1_FX: i64 = 12865;

/// `0.004375` (the cubic coefficient of the sigmoid approximation), rounded.
pub const SIGMOID_A3_FX: i64 = 287;

/// `0.5` in fixed point.
pub const HALF_FX: i64 = 32768;

pub open spec fn in_i64(x: int) -> bool {
    i64::MIN <= x <= i64::MAX
}

/// The product of two fixed-point numbers: the exact product shifted right by
/// `SCALE_BITS` (that is, floored), then truncated to 64 bits.
pub open spec fn fixed_product(a: i64, b: i64) -> i64 {
    ((a * b) / 65536) as i64
}

/// Fixed-point multiplication.
pub fn fixed_mul(a: i64, b: i64) -> (r: i64)
    ensures
        r == fixed_product(a, b),
{
    assert(-0x4000_0000_0000_0000_0000_0000_0000_0000 <= a * b <= 0x4000_0000_0000_0000_0000_0000_0000_0000)
        by (nonlinear_arith);
    let prod = (a as i128) * (b as i128);
    let shifted = prod >> SCALE_BITS;
    assert((shifted as int) * 65536 <= prod && prod < (shifted as int) * 65536 + 65536)
        by (bit_vector)
        requires
            shifted == prod >> 16u32,
    ;
    assert(shifted == prod / 65536) by (nonlinear_arith)
        requires
            (shifted as int) * 65536 <= prod && prod < (shifted as int) * 65536 + 65536,
    ;
    #[verifier::truncate]
    (shifted as i64)
}

pub open spec fn clamp_spec(x: int, lo: int, hi: int) -> int {
    if x < lo {
        lo
    } else if x > hi {
        hi
    } else {
        x
    }
}

/// Clamps `x` to `lo` from below, then to `hi` from above.
pub fn clamp_fx(x: i64, lo: i64, hi: i64) -> (r: i64)
    ensures
        r == clamp_spec(x as int, lo as int, hi as int),
{
    if x < lo {
        lo
    } else if x > hi {
        hi
    } else {
        x
    }
}


pub open spec fn min_len(a: nat, b: nat) -> nat {
    if a <= b {
        a
    } else {
        b
    }
}

/// Sum of the fixed-point products of the first `n` pairs of `xs` and `ws`,
/// each product computed with `fixed_product`.
pub open spec fn fixed_dot(xs: Seq<i64>, ws: Seq<i64>, n: nat) -> int
    decreases n,
{
    if n == 0 {
        0
    } else {
        fixed_dot(xs, ws, (n - 1) as nat) + fixed_product(xs[n - 1], ws[n - 1])
    }
}

/// The pairs that a zip of `xs` and `ws` visits.
pub open spec fn zip_len(xs: Seq<i64>, ws: Seq<i64>) -> nat {
    min_len(xs.len(), ws.len())
}

/// Every running sum of the accumulation, and the final sum plus the bias,
/// fit in an `i64`.
pub open spec fn dot_fits(xs: Seq<i64>, ws: Seq<i64>, b: i64) -> bool {
    &&& forall|k: nat| k <= zip_len(xs, ws) ==> #[trigger] in_i64(fixed_dot(xs, ws, k))
    &&& in_i64(fixed_dot(xs, ws, zip_len(xs, ws)) + b)
}

/// Accumulates the products over the zipped pairs, then adds the bias; `None`
/// exactly when some running sum or the result leaves the `i64` range.
pub(crate) fn checked_fixed_dot(xs: &[i64], ws: &[i64], b: i64) -> (r: Option<i64>)
    ensures
        r is Some <==> dot_fits(xs@, ws@, b),
        r matches Some(v) ==> v == fixed_dot(xs@, ws@, zip_len(xs@, ws@)) + b,
{
    let n = if xs.len() <= ws.len() {
        xs.len()
    } else {
        ws.len()
    };
    let mut acc: i64 = 0;
    let mut i: usize = 0;
    while i < n
        invariant
            n == zip_len(xs@, ws@),
            n <= xs.len(),
            n <= ws.len(),
            i <= n,
            acc == fixed_dot(xs@, ws@, i as nat),
            forall|k: nat| k <= i ==> #[trigger] in_i64(fixed_dot(xs@, ws@, k)),
        decreases n - i,
    {
        let p = fixed_mul(xs[i], ws[i]);
        match acc.checked_add(p) {
            Some(next) => {
                acc = next;
                i = i + 1;
                assert forall|k: nat| k <= i implies #[trigger] in_i64(fixed_dot(xs@, ws@, k)) by {
                    if k < i {
                    }
                }
            },
            None => {
                assert(!in_i64(fixed_dot(xs@, ws@, (i + 1) as nat)));
                return None;
            },
        }
    }
    acc.checked_add(b)
}

/// The multiple-regression kernel: the fixed-point dot product of the zipped
/// features and weights, plus the bias.
pub fn multiple_regression_fixed_accumulate(features_fx: &[i64], weights_fx: &[i64], b_fx: i64) -> (r: i64)
    requires
        dot_fits(features_fx@, weights_fx@, b_fx),
    ensures
        r == fixed_dot(features_fx@, weights_fx@, zip_len(features_fx@, weights_fx@)) + b_fx,
{
    match checked_fixed_dot(features_fx, weights_fx, b_fx) {
        Some(v) => v,
        None => {
            proof {
                assert(false);
            }
            0
        },
    }
}

/// The accumulator of Horner's scheme after the last `k` coefficients of `cs`
/// have been folded in: `acc' = fixed_product(acc, x) + c`, starting at zero.
pub open spec fn horner_acc(x: i64, cs: Seq<i64>, k: nat) -> int
    decreases k,
{
    if k == 0 || k > cs.len() {
        0
    } else {
        fixed_product(horner_acc(x, cs, (k - 1) as nat) as i64, x) + cs[cs.len() - k]
    }
}

/// Every intermediate accumulator of Horner's scheme fits in an `i64`.
pub open spec fn horner_fits(x: i64, cs: Seq<i64>) -> bool {
    forall|k: nat| 1 <= k <= cs.len() ==> #[trigger] in_i64(horner_acc(x, cs, k))
}

/// Horner's scheme over the coefficients from the last to the first; `None`
/// exactly when an accumulator leaves the `i64` range.
pub(crate) fn checked_fixed_horner(x_fx: i64, coeffs_fx: &[i64]) -> (r: Option<i64>)
    ensures
        r is Some <==> horner_fits(x_fx, coeffs_fx@),
        r matches Some(v) ==> v == horner_acc(x_fx, coeffs_fx@, coeffs_fx@.len()),
{
    let n = coeffs_fx.len();
    let mut acc: i64 = 0;
    let mut k: usize = 0;
    while k < n
        invariant
            n == coeffs_fx@.len(),
            k <= n,
            acc == horner_acc(x_fx, coeffs_fx@, k as nat),
            forall|j: nat| 1 <= j <= k ==> #[trigger] in_i64(horner_acc(x_fx, coeffs_fx@, j)),
        decreases n - k,
    {
        let c = coeffs_fx[n - 1 - k];
        let p = fixed_mul(acc, x_fx);
        match p.checked_add(c) {
            Some(next) => {
                acc = next;
                k = k + 1;
                assert forall|j: nat| 1 <= j <= k implies #[trigger] in_i64(horner_acc(x_fx, coeffs_fx@, j)) by {
                    if j < k {
                    }
                }
            },
            None => {
                assert(!in_i64(horner_acc(x_fx, coeffs_fx@, (k + 1) as nat)));
                return None;
            },
        }
    }
    Some(acc)
}

/// Evaluates the polynomial with coefficients `coeffs_fx` (constant term
/// first) at `x_fx` by Horner's scheme in fixed point.
pub fn polynomial_fixed_horner(x_fx: i64, coeffs_fx: &[i64]) -> (r: i64)
    requires
        horner_fits(x_fx, coeffs_fx@),
    ensures
        r == horner_acc(x_fx, coeffs_fx@, coeffs_fx@.len()),
{
    match checked_fixed_horner(x_fx, coeffs_fx) {
        Some(v) => v,
        None => {
            proof {
                assert(false);
            }
            0
        },
    }
}

/// `0.5 + a1 * z - a3 * z^3` before clamping, each product in fixed point.
pub open spec fn sigmoid_raw(z: i64) -> int {
    let z3 = fixed_product(fixed_product(z, z), z);
    HALF_FX + fixed_product(SIGMOID_A1_FX, z) - fixed_product(SIGMOID_A3_FX, z3)
}

/// The unclamped cubic always fits in an `i64`: `|a1 * z|` stays below
/// `2^61` and `|a3 * z^3|` below `2^56`, whatever `z` is.
pub proof fn lemma_sigmoid_raw_fits(z: i64)
    ensures
        in_i64(sigmoid_raw(z)),
        -0x2000_0000_0000_0000 <= fixed_product(SIGMOID_A1_FX, z) <= 0x2000_0000_0000_0000,
        -0x100_0000_0000_0000 <= fixed_product(SIGMOID_A3_FX, fixed_product(fixed_product(z, z), z)) <= 0x100_0000_0000_0000,
{
    let zi = z as int;
    assert(-0x2000_0000_0000_0000 * 65536 <= 12865 * zi <= 0x2000_0000_0000_0000 * 65536) by (nonlinear_arith)
        requires
            i64::MIN <= zi <= i64::MAX,
    ;
    assert(-0x2000_0000_0000_0000 <= (12865 * zi) / 65536 <= 0x2000_0000_0000_0000) by (nonlinear_arith)
        requires
            -0x2000_0000_0000_0000 * 65536 <= 12865 * zi <= 0x2000_0000_0000_0000 * 65536,
    ;
    let z3 = fixed_product(fixed_product(z, z), z) as int;
    assert(-0x100_0000_0000_0000 * 65536 <= 287 * z3 <= 0x100_0000_0000_0000 * 65536) by (nonlinear_arith)
        requires
            i64::MIN <= z3 <= i64::MAX,
    ;
    assert(-0x100_0000_0000_0000 <= (287 * z3) / 65536 <= 0x100_0000_0000_0000) by (nonlinear_arith)
        requires
            -0x100_0000_0000_0000 * 65536 <= 287 * z3 <= 0x100_0000_0000_0000 * 65536,
    ;
}

/// The logistic function approximated by `0.5 + 0.1963 z - 0.004375 z^3` in
/// fixed point, clamped to `[0, 1]`.
pub fn sigmoid_fixed_approx(z_fx: i64) -> (r: i64)
    ensures
        r == clamp_spec(sigmoid_raw(z_fx), 0, SCALE as int),
        0 <= r <= SCALE,
{
    proof {
        lemma_sigmoid_raw_fits(z_fx);
    }
    let z2 = fixed_mul(z_fx, z_fx);
    let z3 = fixed_mul(z2, z_fx);
    let term1 = fixed_mul(SIGMOID_A1_FX, z_fx);
    let term3 = fixed_mul(SIGMOID_A3_FX, z3);
    let y_fx = HALF_FX + term1 - term3;
    clamp_fx(y_fx, 0, SCALE)
}


/// Why a model could not be evaluated on a row.
#[derive(Debug, PartialEq, Eq, Structural, Clone, Copy)]
pub enum InferenceError {
    /// A linear model was given no weight.
    LinearNeedsWeight,
    /// A multiple-regression model was given as many weights as the row has
    /// features.
    MultipleLengthMismatch,
    /// A polynomial model was given no coefficient.
    PolynomialNeedsCoefficient,
    /// A logistic model was not given as many weights as the row has
    /// features.
    LogisticLengthMismatch,
    /// The model number is not one of 1 (linear), 2 (multiple),
    /// 3 (polynomial), 4 (logistic).
    UnknownModelType(u32),
    /// An intermediate value of the fixed-point evaluation left the `i64`
    /// range.
    Overflow,
}

/// What `predict_fixed` returns for a model number, a row of fixed-point
/// features, the fixed-point weights and the fixed-point bias.
pub open spec fn fixed_prediction(model_type: u32, xs: Seq<i64>, ws: Seq<i64>, b: i64) -> Result<i64, InferenceError> {
    if model_type == 1 {
        if ws.len() < 1 {
            Err(InferenceError::LinearNeedsWeight)
        } else if in_i64(fixed_product(ws[0], xs[0]) + b) {
            Ok((fixed_product(ws[0], xs[0]) + b) as i64)
        } else {
            Err(InferenceError::Overflow)
        }
    } else if model_type == 2 {
        if ws.len() != xs.len() {
            Err(InferenceError::MultipleLengthMismatch)
        } else if dot_fits(xs, ws, b) {
            Ok((fixed_dot(xs, ws, zip_len(xs, ws)) + b) as i64)
        } else {
            Err(InferenceError::Overflow)
        }
    } else if model_type == 3 {
        if horner_fits(xs[0], ws) {
            Ok(horner_acc(xs[0], ws, ws.len()) as i64)
        } else {
            Err(InferenceError::Overflow)
        }
    } else if model_type == 4 {
        if ws.len() != xs.len() {
            Err(InferenceError::LogisticLengthMismatch)
        } else if !dot_fits(xs, ws, b) {
            Err(InferenceError::Overflow)
        } else {
            let z = fixed_dot(xs, ws, zip_len(xs, ws)) as i64;
            Ok(clamp_spec(sigmoid_raw(z), 0, SCALE as int) as i64)
        }
    } else {
        Err(InferenceError::UnknownModelType(model_type))
    }
}

/// Evaluates model `model_type` on one row in fixed point: linear
/// (`w0 * x0 + b`), multiple regression (`w . x + b`), polynomial in `x0` with
/// the weights as coefficients, or logistic (the sigmoid approximation of
/// `w . x`, without the bias).
pub fn predict_fixed(model_type: u32, features_fx: &[i64], weights_fx: &[i64], b_fx: i64) -> (r: Result<i64, InferenceError>)
    requires
        model_type == 1 || model_type == 3 ==> features_fx.len() >= 1,
    ensures
        r == fixed_prediction(model_type, features_fx@, weights_fx@, b_fx),
{
    if model_type == 1 {
        if weights_fx.len() < 1 {
            return Err(InferenceError::LinearNeedsWeight);
        }
        match fixed_mul(weights_fx[0], features_fx[0]).checked_add(b_fx) {
            Some(y) => Ok(y),
            None => Err(InferenceError::Overflow),
        }
    } else if model_type == 2 {
        if weights_fx.len() != features_fx.len() {
            return Err(InferenceError::MultipleLengthMismatch);
        }
        match checked_fixed_dot(features_fx, weights_fx, b_fx) {
            Some(y) => Ok(y),
            None => Err(InferenceError::Overflow),
        }
    } else if model_type == 3 {
        match checked_fixed_horner(features_fx[0], weights_fx) {
            Some(y) => Ok(y),
            None => Err(InferenceError::Overflow),
        }
    } else if model_type == 4 {
        if weights_fx.len() != features_fx.len() {
            return Err(InferenceError::LogisticLengthMismatch);
        }
        match checked_fixed_dot(features_fx, weights_fx, b_fx) {
            Some(acc) => {
                assert(in_i64(fixed_dot(features_fx@, weights_fx@, zip_len(features_fx@, weights_fx@))));
                let z_fx = acc - b_fx;
                Ok(sigmoid_fixed_approx(z_fx))
            },
            None => Err(InferenceError::Overflow),
        }
    } else {
        Err(InferenceError::UnknownModelType(model_type))
    }
}

/// The checks that the floating-point evaluation makes before it evaluates
/// model `model_type` on a row with `n_features` features and `n_weights`
/// weights.
pub fn check_float_model(model_type: u32, n_weights: usize, n_features: usize) -> (r: Result<(), InferenceError>)
    ensures
        r == (if model_type == 1 {
            if n_weights >= 1 { Ok(()) } else { Err(InferenceError::LinearNeedsWeight) }
        } else if model_type == 2 {
            if n_weights == n_features { Ok(()) } else { Err(InferenceError::MultipleLengthMismatch) }
        } else if model_type == 3 {
            if n_weights >= 1 { Ok(()) } else { Err(InferenceError::PolynomialNeedsCoefficient) }
        } else if model_type == 4 {
            if n_weights == n_features { Ok(()) } else { Err(InferenceError::LogisticLengthMismatch) }
        } else {
            Err(InferenceError::UnknownModelType(model_type))
        }),
{
    if model_type == 1 {
        if n_weights >= 1 { Ok(()) } else { Err(InferenceError::LinearNeedsWeight) }
    } else if model_type == 2 {
        if n_weights == n_features { Ok(()) } else { Err(InferenceError::MultipleLengthMismatch) }
    } else if model_type == 3 {
        if n_weights >= 1 { Ok(()) } else { Err(InferenceError::PolynomialNeedsCoefficient) }
    } else if model_type == 4 {
        if n_weights == n_features { Ok(()) } else { Err(InferenceError::LogisticLengthMismatch) }
    } else {
        Err(InferenceError::UnknownModelType(model_type))
    }
}


/// Fixed-point multiplication is commutative.
pub proof fn lemma_fixed_mul_commutative(a: i64, b: i64)
    ensures
        fixed_product(a, b) == fixed_product(b, a),
{
    assert(a * b == b * a) by (nonlinear_arith);
}

/// Multiplying by `1.0` (that is, `SCALE`) gives the value back.
pub proof fn lemma_fixed_mul_by_one(a: i64)
    ensures
        fixed_product(a, SCALE) == a,
{
    assert((a * 65536) / 65536 == a) by (nonlinear_arith);
}

/// Multiplying by zero gives zero.
pub proof fn lemma_fixed_mul_by_zero(a: i64)
    ensures
        fixed_product(a, 0) == 0,
{
    assert(a * 0 == 0) by (nonlinear_arith);
}

/// Clamping to a non-empty interval lands in it, and leaves a value already
/// inside it unchanged.
pub proof fn lemma_clamp_bounds(x: int, lo: int, hi: int)
    requires
        lo <= hi,
    ensures
        lo <= clamp_spec(x, lo, hi) <= hi,
        lo <= x <= hi ==> clamp_spec(x, lo, hi) == x,
{
}

/// At `x = 0` Horner's scheme gives the constant term, without overflow.
pub proof fn lemma_horner_at_zero(cs: Seq<i64>)
    requires
        cs.len() >= 1,
    ensures
        horner_fits(0, cs),
        horner_acc(0, cs, cs.len()) == cs[0],
{
    assert forall|k: nat| 1 <= k <= cs.len() implies horner_acc(0, cs, k) == cs[cs.len() - k] by {
        lemma_fixed_mul_by_zero(horner_acc(0, cs, (k - 1) as nat) as i64);
        lemma_fixed_mul_commutative(horner_acc(0, cs, (k - 1) as nat) as i64, 0);
    }
    assert forall|k: nat| 1 <= k <= cs.len() implies #[trigger] in_i64(horner_acc(0, cs, k)) by {
        assert(horner_acc(0, cs, k) == cs[cs.len() - k]);
    }
}

/// A polynomial with a single coefficient is that constant everywhere.
pub proof fn lemma_horner_constant(x: i64, c: i64)
    ensures
        horner_fits(x, seq![c]),
        horner_acc(x, seq![c], 1) == c,
{
    assert(horner_acc(x, seq![c], 0) == 0);
    lemma_fixed_mul_by_zero(x);
    lemma_fixed_mul_commutative(0, x);
    assert(horner_acc(x, seq![c], 1) == c);
    assert forall|k: nat| 1 <= k <= seq![c].len() implies #[trigger] in_i64(horner_acc(x, seq![c], k)) by {
        assert(k == 1);
    }
}

proof fn lemma_horner_shift(x: i64, cs: Seq<i64>, k: nat)
    requires
        k <= cs.len(),
    ensures
        horner_acc(x, cs.push(0), k + 1) == horner_acc(x, cs, k),
    decreases k,
{
    let ext = cs.push(0);
    if k == 0 {
        assert(horner_acc(x, ext, 0) == 0);
        lemma_fixed_mul_by_zero(x);
        lemma_fixed_mul_commutative(0, x);
        assert(ext[ext.len() - 1] == 0);
    } else {
        lemma_horner_shift(x, cs, (k - 1) as nat);
        assert(ext[ext.len() - (k + 1)] == cs[cs.len() - k]);
    }
}

/// A zero coefficient of highest degree changes neither the value of the
/// polynomial nor whether its evaluation overflows.
pub proof fn lemma_horner_trailing_zero(x: i64, cs: Seq<i64>)
    ensures
        horner_acc(x, cs.push(0), cs.len() + 1) == horner_acc(x, cs, cs.len()),
        horner_fits(x, cs.push(0)) <==> horner_fits(x, cs),
{
    let ext = cs.push(0);
    lemma_horner_shift(x, cs, cs.len());
    assert forall|k: nat| k <= cs.len() implies horner_acc(x, ext, k + 1) == horner_acc(x, cs, k) by {
        lemma_horner_shift(x, cs, k);
    }
    if horner_fits(x, cs) {
        assert forall|k: nat| 1 <= k <= ext.len() implies #[trigger] in_i64(horner_acc(x, ext, k)) by {
            assert(horner_acc(x, ext, ((k - 1) as nat) + 1) == horner_acc(x, cs, (k - 1) as nat));
            if k > 1 {
                assert(in_i64(horner_acc(x, cs, (k - 1) as nat)));
            }
        }
    }
    if horner_fits(x, ext) {
        assert forall|k: nat| 1 <= k <= cs.len() implies #[trigger] in_i64(horner_acc(x, cs, k)) by {
            assert(horner_acc(x, ext, k + 1) == horner_acc(x, cs, k));
            assert(in_i64(horner_acc(x, ext, k + 1)));
        }
    }
}

/// The sigmoid approximation is exactly one half at zero.
pub proof fn lemma_sigmoid_at_zero()
    ensures
        clamp_spec(sigmoid_raw(0), 0, SCALE as int) == HALF_FX,
{
    lemma_fixed_mul_by_zero(0);
    lemma_fixed_mul_by_zero(SIGMOID_A1_FX);
    lemma_fixed_mul_by_zero(SIGMOID_A3_FX);
}

/// A logistic prediction, when it succeeds, lies between `0` and `1.0`.
pub proof fn lemma_logistic_prediction_in_unit_interval(xs: Seq<i64>, ws: Seq<i64>, b: i64)
    ensures
        fixed_prediction(4, xs, ws, b) matches Ok(v) ==> 0 <= v <= SCALE,
{
}

/// A linear model with one weight predicts what a multiple-regression model
/// predicts on a row of one feature with the same weight and bias.
pub proof fn lemma_linear_is_single_feature_multiple(x: i64, w: i64, b: i64)
    ensures
        fixed_prediction(1, seq![x], seq![w], b) == fixed_prediction(2, seq![x], seq![w], b),
{
    let xs = seq![x];
    let ws = seq![w];
    lemma_fixed_mul_commutative(w, x);
    assert(zip_len(xs, ws) == 1);
    assert(fixed_dot(xs, ws, 0) == 0);
    assert(fixed_dot(xs, ws, 1) == fixed_product(x, w));
    if in_i64(fixed_product(w, x) + b) {
        assert forall|k: nat| k <= zip_len(xs, ws) implies #[trigger] in_i64(fixed_dot(xs, ws, k)) by {
            if k == 0 {
            } else {
                assert(k == 1);
            }
        }
        assert(dot_fits(xs, ws, b));
    }
}

/// The value at the integer `m` of the polynomial with coefficients `cs`,
/// constant term first: `cs[0] + cs[1] m + cs[2] m^2 + ...`.
pub open spec fn poly_at(cs: Seq<i64>, m: int) -> int
    decreases cs.len(),
{
    if cs.len() == 0 {
        0
    } else {
        cs[0] + m * poly_at(cs.drop_first(), m)
    }
}

/// The value at `m` of the polynomial of the last `k` coefficients of `cs`.
pub open spec fn tail_poly_at(cs: Seq<i64>, m: int, k: nat) -> int {
    poly_at(cs.subrange(cs.len() - k, cs.len() as int), m)
}

/// Evaluating the polynomial exactly at `m`, highest coefficient first, keeps
/// every partial value and every product by `m` inside the `i64` range.
pub open spec fn poly_fits(cs: Seq<i64>, m: int) -> bool {
    forall|k: nat| k <= cs.len() ==> in_i64(#[trigger] tail_poly_at(cs, m, k)) && in_i64(m * tail_poly_at(cs, m, k))
}

proof fn lemma_horner_tail(cs: Seq<i64>, m: int, k: nat)
    requires
        in_i64(m * 65536),
        poly_fits(cs, m),
        k <= cs.len(),
    ensures
        horner_acc((m * 65536) as i64, cs, k) == tail_poly_at(cs, m, k),
    decreases k,
{
    let x = (m * 65536) as i64;
    let n = cs.len() as int;
    if k == 0 {
        assert(cs.subrange(n, n).len() == 0);
    } else {
        lemma_horner_tail(cs, m, (k - 1) as nat);
        let a = tail_poly_at(cs, m, (k - 1) as nat);
        assert(in_i64(a) && in_i64(m * a));
        assert(a * (m * 65536) == (m * a) * 65536) by (nonlinear_arith);
        assert(((m * a) * 65536) / 65536 == m * a) by (nonlinear_arith);
        assert(fixed_product(a as i64, x) == m * a);
        let sub = cs.subrange(n - k, n);
        assert(sub.drop_first() == cs.subrange(n - (k - 1), n));
        assert(sub[0] == cs[n - k]);
        assert(tail_poly_at(cs, m, k) == cs[n - k] + m * a);
    }
}

/// At an integer point `x = m * 1.0`, Horner's scheme in fixed point gives
/// the exact value of the polynomial `cs[0] + cs[1] m + cs[2] m^2 + ...`, for
/// negative `m` as for positive ones, whenever the exact evaluation stays in
/// the `i64` range; it then does not overflow either.
pub proof fn lemma_horner_at_integer(cs: Seq<i64>, m: int)
    requires
        in_i64(m * 65536),
        poly_fits(cs, m),
    ensures
        horner_fits((m * 65536) as i64, cs),
        horner_acc((m * 65536) as i64, cs, cs.len()) == poly_at(cs, m),
{
    let x = (m * 65536) as i64;
    assert forall|k: nat| 1 <= k <= cs.len() implies #[trigger] in_i64(horner_acc(x, cs, k)) by {
        lemma_horner_tail(cs, m, k);
    }
    lemma_horner_tail(cs, m, cs.len());
    assert(cs.subrange(0, cs.len() as int) == cs);
}

} // verus!
