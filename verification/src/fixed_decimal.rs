//! Decimal fixed-point arithmetic with six fractional digits and the
//! deterministic generator that the benchmark guest uses to build its dataset.
use vstd::prelude::*;
use crate::fixed_q16::{in_i64, min_len, InferenceError};

verus! {

/// The fixed-point value of `1.0`: six decimal places.
pub const DECIMAL_SCALE: i64 = 1_000_000;

/// Integer division rounding toward zero, as Rust's `/` does.
pub open spec fn trunc_div(a: int, d: int) -> int {
    if a >= 0 {
        a / d
    } else {
        -((-a) / d)
    }
}

/// The product of two decimal fixed-point numbers: the exact product divided
/// by the scale toward zero, then truncated to 64 bits.
pub open spec fn decimal_product(a: i64, b: i64) -> i64 {
    trunc_div(a * b, 1_000_000) as i64
}

/// Decimal fixed-point multiplication.
pub fn mul_fx(a: i64, b: i64) -> (r: i64)
    ensures
        r == decimal_product(a, b),
{
    assert(-0x4000_0000_0000_0000_0000_0000_0000_0000 <= a * b <= 0x4000_0000_0000_0000_0000_0000_0000_0000)
        by (nonlinear_arith);
    let q = ((a as i128) * (b as i128)) / (DECIMAL_SCALE as i128);
    #[verifier::truncate]
    (q as i64)
}

/// The linear model `x * a + b` on fixed-point inputs.
pub fn linear_regression_fx(x_fx: i64, a_fx: i64, b_fx: i64) -> (r: i64)
    requires
        in_i64(decimal_product(x_fx, a_fx) + b_fx),
    ensures
        r == decimal_product(x_fx, a_fx) + b_fx,
{
    mul_fx(x_fx, a_fx) + b_fx
}

pub open spec fn in_i128(x: int) -> bool {
    i128::MIN <= x <= i128::MAX
}

/// Sum, over the first `n` pairs, of each product divided by the scale toward
/// zero (without the truncation to 64 bits).
pub open spec fn decimal_dot(xs: Seq<i64>, ws: Seq<i64>, n: nat) -> int
    decreases n,
{
    if n == 0 {
        0
    } else {
        decimal_dot(xs, ws, (n - 1) as nat) + trunc_div(xs[n - 1] * ws[n - 1], 1_000_000)
    }
}

/// Every running sum fits the 128-bit accumulator, and the accumulator cast to
/// 64 bits plus the bias fits in an `i64`.
pub open spec fn decimal_dot_fits(xs: Seq<i64>, ws: Seq<i64>, b: i64) -> bool {
    let n = min_len(xs.len(), ws.len());
    &&& forall|k: nat| k <= n ==> #[trigger] in_i128(decimal_dot(xs, ws, k))
    &&& in_i64((decimal_dot(xs, ws, n) as i64) + b)
}

/// The multiple-regression model on fixed-point inputs: the products of the
/// zipped features and weights are accumulated in 128 bits, the sum is cast to
/// 64 bits and the bias is added.
pub fn multiple_regression_fx(xs_fx: &[i64], weights_fx: &[i64], b_fx: i64) -> (r: i64)
    requires
        decimal_dot_fits(xs_fx@, weights_fx@, b_fx),
    ensures
        r == (decimal_dot(xs_fx@, weights_fx@, min_len(xs_fx@.len(), weights_fx@.len())) as i64) + b_fx,
{
    let n = if xs_fx.len() <= weights_fx.len() {
        xs_fx.len()
    } else {
        weights_fx.len()
    };
    let mut acc: i128 = 0;
    let mut i: usize = 0;
    while i < n
        invariant
            n == min_len(xs_fx@.len(), weights_fx@.len()),
            n <= xs_fx.len(),
            n <= weights_fx.len(),
            i <= n,
            acc == decimal_dot(xs_fx@, weights_fx@, i as nat),
            forall|k: nat| k <= n ==> #[trigger] in_i128(decimal_dot(xs_fx@, weights_fx@, k)),
        decreases n - i,
    {
        let xi = xs_fx[i] as i128;
        let wi = weights_fx[i] as i128;
        assert(-0x4000_0000_0000_0000_0000_0000_0000_0000 <= xi * wi <= 0x4000_0000_0000_0000_0000_0000_0000_0000)
            by (nonlinear_arith)
            requires
                i64::MIN <= xi <= i64::MAX,
                i64::MIN <= wi <= i64::MAX,
        ;
        let term = (xi * wi) / (DECIMAL_SCALE as i128);
        assert(in_i128(decimal_dot(xs_fx@, weights_fx@, (i + 1) as nat)));
        acc = acc + term;
        i = i + 1;
    }
    #[verifier::truncate]
    let narrowed = acc as i64;
    narrowed + b_fx
}

/// The linear model with the overflow checked: `None` exactly when
/// `x * a + b` does not fit in an `i64`.
pub fn checked_linear_regression_fx(x_fx: i64, a_fx: i64, b_fx: i64) -> (r: Option<i64>)
    ensures
        r is Some <==> in_i64(decimal_product(x_fx, a_fx) + b_fx),
        r matches Some(v) ==> v == decimal_product(x_fx, a_fx) + b_fx,
{
    mul_fx(x_fx, a_fx).checked_add(b_fx)
}

/// The multiple-regression model with the overflow checked: `None` exactly
/// when a running sum leaves the 128-bit accumulator or the result does not
/// fit in an `i64`.
pub fn checked_multiple_regression_fx(xs_fx: &[i64], weights_fx: &[i64], b_fx: i64) -> (r: Option<i64>)
    ensures
        r is Some <==> decimal_dot_fits(xs_fx@, weights_fx@, b_fx),
        r matches Some(v) ==> v == (decimal_dot(xs_fx@, weights_fx@, min_len(xs_fx@.len(), weights_fx@.len())) as i64) + b_fx,
{
    let n = if xs_fx.len() <= weights_fx.len() {
        xs_fx.len()
    } else {
        weights_fx.len()
    };
    let mut acc: i128 = 0;
    let mut i: usize = 0;
    while i < n
        invariant
            n == min_len(xs_fx@.len(), weights_fx@.len()),
            n <= xs_fx.len(),
            n <= weights_fx.len(),
            i <= n,
            acc == decimal_dot(xs_fx@, weights_fx@, i as nat),
            forall|k: nat| k <= i ==> #[trigger] in_i128(decimal_dot(xs_fx@, weights_fx@, k)),
        decreases n - i,
    {
        let xi = xs_fx[i] as i128;
        let wi = weights_fx[i] as i128;
        assert(-0x4000_0000_0000_0000_0000_0000_0000_0000 <= xi * wi <= 0x4000_0000_0000_0000_0000_0000_0000_0000)
            by (nonlinear_arith)
            requires
                i64::MIN <= xi <= i64::MAX,
                i64::MIN <= wi <= i64::MAX,
        ;
        let term = (xi * wi) / (DECIMAL_SCALE as i128);
        match acc.checked_add(term) {
            Some(next) => {
                acc = next;
            },
            None => {
                assert(!in_i128(decimal_dot(xs_fx@, weights_fx@, (i + 1) as nat)));
                return None;
            },
        }
        i = i + 1;
    }
    #[verifier::truncate]
    let narrowed = acc as i64;
    narrowed.checked_add(b_fx)
}

/// One step of the 64-bit linear congruential generator
/// `s' = s * 6364136223846793005 + 1 (mod 2^64)`.
pub open spec fn lcg_next(s: u64) -> u64 {
    ((s as int * 6364136223846793005 + 1) % 0x1_0000_0000_0000_0000) as u64
}

/// Advances the generator state and returns the new state.
pub fn lcg(state: &mut u64) -> (r: u64)
    ensures
        *final(state) == lcg_next(*old(state)),
        r == *final(state),
{
    let m = state.wrapping_mul(6364136223846793005);
    let next = m.wrapping_add(1);
    proof {
        let s = *old(state) as int;
        assert(m == (s * 6364136223846793005) % 0x1_0000_0000_0000_0000);
        assert(next == (m + 1) % 0x1_0000_0000_0000_0000);
        vstd::arithmetic::div_mod::lemma_add_mod_noop(s * 6364136223846793005, 1, 0x1_0000_0000_0000_0000);
        vstd::arithmetic::div_mod::lemma_small_mod(1, 0x1_0000_0000_0000_0000);
    }
    *state = next;
    next
}

/// The number of features of every generated benchmark row.
pub const BENCHMARK_FEATURES: usize = 3;

/// The check that the benchmark guest makes on the weights before it reports
/// results for model `model_type`.
pub fn check_benchmark_model(model_type: u32, n_weights: usize) -> (r: Result<(), InferenceError>)
    ensures
        r == (if model_type == 1 {
            if n_weights == 1 { Ok(()) } else { Err(InferenceError::LinearNeedsWeight) }
        } else if model_type == 2 {
            if n_weights == BENCHMARK_FEATURES { Ok(()) } else { Err(InferenceError::MultipleLengthMismatch) }
        } else if model_type == 3 {
            if n_weights >= 1 { Ok(()) } else { Err(InferenceError::PolynomialNeedsCoefficient) }
        } else if model_type == 4 {
            if n_weights == BENCHMARK_FEATURES { Ok(()) } else { Err(InferenceError::LogisticLengthMismatch) }
        } else {
            Err(InferenceError::UnknownModelType(model_type))
        }),
{
    if model_type == 1 {
        if n_weights == 1 { Ok(()) } else { Err(InferenceError::LinearNeedsWeight) }
    } else if model_type == 2 {
        if n_weights == BENCHMARK_FEATURES { Ok(()) } else { Err(InferenceError::MultipleLengthMismatch) }
    } else if model_type == 3 {
        if n_weights >= 1 { Ok(()) } else { Err(InferenceError::PolynomialNeedsCoefficient) }
    } else if model_type == 4 {
        if n_weights == BENCHMARK_FEATURES { Ok(()) } else { Err(InferenceError::LogisticLengthMismatch) }
    } else {
        Err(InferenceError::UnknownModelType(model_type))
    }
}


/// Multiplying by `1.0` (that is, `DECIMAL_SCALE`) gives the value back.
pub proof fn lemma_mul_fx_by_one(a: i64)
    ensures
        decimal_product(a, DECIMAL_SCALE) == a,
{
    assert(a * 1_000_000 >= 0 ==> (a * 1_000_000) / 1_000_000 == a) by (nonlinear_arith);
    assert(a * 1_000_000 < 0 ==> (-(a * 1_000_000)) / 1_000_000 == -a) by (nonlinear_arith);
}

/// Negating one factor negates the product, wherever the negated product
/// fits in an `i64` (it does not when the product is `i64::MIN`).
pub proof fn lemma_mul_fx_negation(a: i64, b: i64)
    requires
        a != i64::MIN,
        -i64::MAX <= trunc_div(a * b, 1_000_000) <= i64::MAX,
    ensures
        decimal_product((-a) as i64, b) == -decimal_product(a, b),
{
    let p = a * b;
    assert(((-a) as i64) * b == -p) by (nonlinear_arith)
        requires
            p == a * b,
            a != i64::MIN,
    ;
    assert(trunc_div(-p, 1_000_000) == -trunc_div(p, 1_000_000));
}

/// Decimal fixed-point multiplication is commutative.
pub proof fn lemma_mul_fx_commutative(a: i64, b: i64)
    ensures
        decimal_product(a, b) == decimal_product(b, a),
{
    assert(a * b == b * a) by (nonlinear_arith);
}

/// The linear model is the multiple-regression model on a single feature.
pub proof fn lemma_linear_is_single_feature_multiple(x: i64, a: i64, b: i64)
    ensures
        decimal_dot_fits(seq![x], seq![a], b) <==> in_i64(decimal_product(x, a) + b),
        (decimal_dot(seq![x], seq![a], 1) as i64) + b == decimal_product(x, a) + b,
{
    let xs = seq![x];
    let ws = seq![a];
    assert(decimal_dot(xs, ws, 0) == 0);
    assert(decimal_dot(xs, ws, 1) == trunc_div(x * a, 1_000_000));
    assert(-0x4000_0000_0000_0000_0000_0000_0000_0000 <= x * a <= 0x4000_0000_0000_0000_0000_0000_0000_0000)
        by (nonlinear_arith);
    assert(in_i128(decimal_dot(xs, ws, 1)));
    if in_i64(decimal_product(x, a) + b) {
        assert forall|k: nat| k <= min_len(xs.len(), ws.len()) implies #[trigger] in_i128(decimal_dot(xs, ws, k)) by {
            if k == 1 {
            }
        }
    }
}

} // verus!
