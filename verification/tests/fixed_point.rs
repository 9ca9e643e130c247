use verse::fixed_decimal::{
    check_benchmark_model, checked_linear_regression_fx, checked_multiple_regression_fx, lcg, linear_regression_fx,
    mul_fx, multiple_regression_fx, DECIMAL_SCALE,
};
use verse::fixed_q16::{
    check_float_model, clamp_fx, fixed_mul, multiple_regression_fixed_accumulate, polynomial_fixed_horner,
    predict_fixed, sigmoid_fixed_approx, InferenceError, SCALE,
};

fn q(x: i64) -> i64 {
    x * SCALE
}

#[test]
fn fixed_mul_exact_products() {
    assert_eq!(fixed_mul(q(3), q(2)), q(6));
    assert_eq!(fixed_mul(q(3) / 2, q(3) / 2), 147456); // 1.5 * 1.5 = 2.25
    // The product is floored: -1/65536 * 1/65536 rounds down to -1 unit.
    assert_eq!(fixed_mul(-1, 1), -1);
    assert_eq!(fixed_mul(1, 1), 0);
}

#[test]
fn fixed_mul_truncates_to_64_bits() {
    let expected = ((i64::MAX as i128 * i64::MAX as i128) >> 16) as i64;
    assert_eq!(fixed_mul(i64::MAX, i64::MAX), expected);
}

#[test]
fn fixed_mul_laws_on_samples() {
    for &a in &[0i64, 1, -1, 12345, -98765, q(7), -q(3), i64::MAX, i64::MIN] {
        assert_eq!(fixed_mul(a, SCALE), a);
        assert_eq!(fixed_mul(a, 0), 0);
        for &b in &[0i64, 3, -q(2), 77777, i64::MIN] {
            assert_eq!(fixed_mul(a, b), fixed_mul(b, a));
        }
    }
}

#[test]
fn clamp_cases() {
    assert_eq!(clamp_fx(-5, 0, 10), 0);
    assert_eq!(clamp_fx(15, 0, 10), 10);
    assert_eq!(clamp_fx(7, 0, 10), 7);
    // With an empty interval the lower bound is tested first.
    assert_eq!(clamp_fx(5, 10, 0), 10);
    assert_eq!(clamp_fx(20, 10, 0), 0);
}

#[test]
fn accumulate_dot_product() {
    let xs = [q(1), q(2)];
    let ws = [q(3), q(4)];
    assert_eq!(multiple_regression_fixed_accumulate(&xs, &ws, q(1) / 2), q(11) + q(1) / 2);
    // Only the zipped pairs count.
    assert_eq!(multiple_regression_fixed_accumulate(&xs, &ws[..1], 0), q(3));
    assert_eq!(multiple_regression_fixed_accumulate(&[], &[], 5), 5);
}

#[test]
fn horner_polynomials() {
    // 1 + 2x + 3x^2 at x = 2 is 17.
    assert_eq!(polynomial_fixed_horner(q(2), &[q(1), q(2), q(3)]), q(17));
    assert_eq!(polynomial_fixed_horner(q(5), &[]), 0);
    // At zero the polynomial is its constant term.
    assert_eq!(polynomial_fixed_horner(0, &[q(4), q(9), -q(2)]), q(4));
    // A single coefficient is a constant.
    assert_eq!(polynomial_fixed_horner(-q(123), &[777]), 777);
}

#[test]
fn sigmoid_values() {
    assert_eq!(sigmoid_fixed_approx(0), 32768);
    // 0.5 + 0.1963 - 0.004375 at z = 1.0 with the rounded constants.
    assert_eq!(sigmoid_fixed_approx(q(1)), 32768 + 12865 - 287);
    assert_eq!(sigmoid_fixed_approx(q(10)), 0);
    assert_eq!(sigmoid_fixed_approx(-q(10)), SCALE);
    for z in -20..=20 {
        let y = sigmoid_fixed_approx(q(z) / 3);
        assert!(0 <= y && y <= SCALE);
    }
}

#[test]
fn predict_fixed_models() {
    let xs = [q(1), q(2), q(3)];
    let ws = [q(1), -q(2), q(1) / 2];
    let b = q(1) / 4;
    assert_eq!(predict_fixed(1, &xs, &ws, b), Ok(q(1) + b));
    assert_eq!(predict_fixed(2, &xs, &ws, b), Ok(q(1) - q(4) + q(3) / 2 + b));
    assert_eq!(predict_fixed(3, &xs, &ws, b), Ok(q(1) - q(2) + q(1) / 2));
    // Logistic: the sigmoid of w.x without the bias; w.x = -1.5.
    assert_eq!(predict_fixed(4, &xs, &ws, b), Ok(sigmoid_fixed_approx(-q(3) / 2)));
    // A linear model predicts what a one-feature multiple regression does.
    assert_eq!(predict_fixed(1, &[q(5)], &[q(2)], 9), predict_fixed(2, &[q(5)], &[q(2)], 9));
}

#[test]
fn predict_fixed_errors() {
    let xs = [q(1), q(2)];
    assert_eq!(predict_fixed(1, &xs, &[], 0), Err(InferenceError::LinearNeedsWeight));
    assert_eq!(predict_fixed(2, &xs, &[q(1)], 0), Err(InferenceError::MultipleLengthMismatch));
    assert_eq!(predict_fixed(4, &xs, &[q(1)], 0), Err(InferenceError::LogisticLengthMismatch));
    assert_eq!(predict_fixed(7, &xs, &[q(1)], 0), Err(InferenceError::UnknownModelType(7)));
    assert_eq!(predict_fixed(1, &[SCALE], &[SCALE], i64::MAX), Err(InferenceError::Overflow));
    assert_eq!(predict_fixed(2, &[i64::MAX, i64::MAX], &[SCALE, SCALE], 0), Err(InferenceError::Overflow));
    assert_eq!(predict_fixed(3, &[q(1)], &[i64::MAX, i64::MAX], 0), Err(InferenceError::Overflow));
    // The polynomial model accepts an empty coefficient list in fixed point.
    assert_eq!(predict_fixed(3, &[q(1)], &[], 0), Ok(0));
}

#[test]
fn float_model_checks() {
    assert_eq!(check_float_model(1, 1, 3), Ok(()));
    assert_eq!(check_float_model(1, 0, 3), Err(InferenceError::LinearNeedsWeight));
    assert_eq!(check_float_model(2, 3, 3), Ok(()));
    assert_eq!(check_float_model(2, 2, 3), Err(InferenceError::MultipleLengthMismatch));
    assert_eq!(check_float_model(3, 0, 3), Err(InferenceError::PolynomialNeedsCoefficient));
    assert_eq!(check_float_model(4, 1, 3), Err(InferenceError::LogisticLengthMismatch));
    assert_eq!(check_float_model(0, 1, 1), Err(InferenceError::UnknownModelType(0)));
}

#[test]
fn decimal_products() {
    assert_eq!(mul_fx(2_000_000, 3_500_000), 7_000_000);
    // Division truncates toward zero, unlike the binary format's floor.
    assert_eq!(mul_fx(-1, 1), 0);
    assert_eq!(mul_fx(-1_500_000, 1_500_001), -2_250_001);
    for &a in &[0i64, 1, -7, 123_456_789, -999_999_999_999] {
        assert_eq!(mul_fx(a, DECIMAL_SCALE), a);
        assert_eq!(mul_fx(a, 42), mul_fx(42, a));
    }
    let expected = ((i64::MIN as i128 * i64::MIN as i128) / 1_000_000) as i64;
    assert_eq!(mul_fx(i64::MIN, i64::MIN), expected);
}

#[test]
fn decimal_models() {
    assert_eq!(linear_regression_fx(2_000_000, 3_000_000, 1_000_000), 7_000_000);
    let xs = [1_000_000, -2_000_000, 500_000];
    let ws = [2_000_000, 1_000_000, 4_000_000];
    assert_eq!(multiple_regression_fx(&xs, &ws, 300_000), 2_300_000);
    assert_eq!(
        multiple_regression_fx(&[2_000_000], &[3_000_000], 1_000_000),
        linear_regression_fx(2_000_000, 3_000_000, 1_000_000)
    );
}

#[test]
fn lcg_sequence() {
    let mut state: u64 = 0xC0FFEE;
    let mut expected: u64 = 0xC0FFEE;
    for _ in 0..5 {
        expected = expected.wrapping_mul(6364136223846793005).wrapping_add(1);
        let out = lcg(&mut state);
        assert_eq!(out, expected);
        assert_eq!(state, expected);
    }
    let mut zero: u64 = 0;
    assert_eq!(lcg(&mut zero), 1);
}

#[test]
fn benchmark_model_checks() {
    assert_eq!(check_benchmark_model(1, 1), Ok(()));
    assert_eq!(check_benchmark_model(1, 2), Err(InferenceError::LinearNeedsWeight));
    assert_eq!(check_benchmark_model(2, 3), Ok(()));
    assert_eq!(check_benchmark_model(2, 1), Err(InferenceError::MultipleLengthMismatch));
    assert_eq!(check_benchmark_model(3, 5), Ok(()));
    assert_eq!(check_benchmark_model(3, 0), Err(InferenceError::PolynomialNeedsCoefficient));
    assert_eq!(check_benchmark_model(4, 2), Err(InferenceError::LogisticLengthMismatch));
    assert_eq!(check_benchmark_model(9, 3), Err(InferenceError::UnknownModelType(9)));
}

#[test]
fn checked_decimal_models() {
    assert_eq!(checked_linear_regression_fx(2_000_000, 3_000_000, 1_000_000), Some(7_000_000));
    assert_eq!(checked_linear_regression_fx(DECIMAL_SCALE, i64::MAX, 1), None);
    assert_eq!(checked_linear_regression_fx(DECIMAL_SCALE, i64::MAX, 0), Some(i64::MAX));
    let xs = [1_000_000, -2_000_000, 500_000];
    let ws = [2_000_000, 1_000_000, 4_000_000];
    assert_eq!(checked_multiple_regression_fx(&xs, &ws, 300_000), Some(2_300_000));
    // Zipping stops at the shorter list.
    assert_eq!(checked_multiple_regression_fx(&xs, &ws[..1], 0), Some(2_000_000));
    assert_eq!(checked_multiple_regression_fx(&[], &[], -5), Some(-5));
    assert_eq!(checked_multiple_regression_fx(&[DECIMAL_SCALE], &[i64::MAX], 1), None);
    assert_eq!(checked_multiple_regression_fx(&[DECIMAL_SCALE], &[i64::MAX], -1), Some(i64::MAX - 1));
}

#[test]
fn horner_trailing_zero_changes_nothing() {
    for &x in &[0i64, q(1), -q(3) / 2, q(7)] {
        let cs = [q(1), -q(2), q(1) / 2];
        assert_eq!(polynomial_fixed_horner(x, &[q(1), -q(2), q(1) / 2, 0]), polynomial_fixed_horner(x, &cs));
    }
}

#[test]
fn mul_fx_negation() {
    for &(a, b) in &[(1_500_000i64, 1_500_001i64), (-7, 3), (123_456_789, -42_000_000), (0, 5)] {
        assert_eq!(mul_fx(-a, b), -mul_fx(a, b));
    }
    // Where the product is i64::MIN the negation does not fit.
    assert_eq!(mul_fx(-(1i64 << 62), 2_000_000), i64::MIN);
    assert_eq!(mul_fx(1i64 << 62, 2_000_000), i64::MIN);
}
