//! The index of the largest of a row of floating-point numbers, as
//! `iter().enumerate().max_by(|a, b| a.1.partial_cmp(b.1).unwrap())` picks it:
//! the running maximum is replaced by every element that is not smaller, so
//! among equal maxima the last one wins.
use vstd::prelude::*;
use crate::float_bits::{f32_key, f32_is_nan, f32_bits_gt, f64_key, f64_is_nan, f64_bits_gt};

verus! {

/// The index that the scan of the first `k` elements keeps (`k >= 1`).
pub open spec fn argmax_f32_upto(row: Seq<u32>, k: nat) -> nat
    decreases k,
{
    if k <= 1 {
        0
    } else if f32_key(row[argmax_f32_upto(row, (k - 1) as nat) as int]) > f32_key(row[k - 1]) {
        argmax_f32_upto(row, (k - 1) as nat)
    } else {
        (k - 1) as nat
    }
}

/// The scan compares only numbers that are not NaN: a row of two or more
/// elements holds no NaN.
pub open spec fn f32_row_comparable(row: Seq<u32>) -> bool {
    row.len() >= 2 ==> forall|i: int| 0 <= i < row.len() ==> !f32_is_nan(#[trigger] row[i])
}

/// Whether some element of `row` is NaN.
pub fn f32_row_has_nan(row: &Vec<u32>) -> (r: bool)
    ensures
        r == exists|i: int| 0 <= i < row@.len() && f32_is_nan(#[trigger] row@[i]),
{
    let mut j: usize = 0;
    while j < row.len()
        invariant
            j <= row@.len(),
            forall|k: int| 0 <= k < j ==> !f32_is_nan(#[trigger] row@[k]),
        decreases row@.len() - j,
    {
        if crate::float_bits::f32_bits_is_nan(row[j]) {
            return true;
        }
        j = j + 1;
    }
    false
}

/// The index of the last largest element of `row`; `None` for an empty row.
pub fn argmax_f32_bits(row: &Vec<u32>) -> (r: Option<usize>)
    requires
        f32_row_comparable(row@),
    ensures
        row@.len() == 0 ==> r is None,
        row@.len() > 0 ==> r == Some(argmax_f32_upto(row@, row@.len()) as usize),
{
    if row.len() == 0 {
        return None;
    }
    let mut best: usize = 0;
    let mut k: usize = 1;
    while k < row.len()
        invariant
            1 <= k <= row@.len(),
            best == argmax_f32_upto(row@, k as nat),
            best < k,
            f32_row_comparable(row@),
        decreases row@.len() - k,
    {
        if !f32_bits_gt(row[best], row[k]) {
            best = k;
        }
        k = k + 1;
    }
    Some(best)
}

/// The index that the scan keeps is a largest element, and no later element
/// is as large.
pub proof fn lemma_argmax_f32_is_last_maximum(row: Seq<u32>, k: nat)
    requires
        1 <= k <= row.len(),
    ensures
        argmax_f32_upto(row, k) < k,
        forall|j: int| 0 <= j < k ==> f32_key(#[trigger] row[j]) <= f32_key(row[argmax_f32_upto(row, k) as int]),
        forall|j: int| argmax_f32_upto(row, k) < j < k ==> f32_key(#[trigger] row[j]) < f32_key(row[argmax_f32_upto(row, k) as int]),
    decreases k,
{
    if k > 1 {
        lemma_argmax_f32_is_last_maximum(row, (k - 1) as nat);
    }
}

/// The index that the scan of the first `k` elements keeps (`k >= 1`).
pub open spec fn argmax_f64_upto(row: Seq<u64>, k: nat) -> nat
    decreases k,
{
    if k <= 1 {
        0
    } else if f64_key(row[argmax_f64_upto(row, (k - 1) as nat) as int]) > f64_key(row[k - 1]) {
        argmax_f64_upto(row, (k - 1) as nat)
    } else {
        (k - 1) as nat
    }
}

/// A row of two or more binary64 numbers holds no NaN.
pub open spec fn f64_row_comparable(row: Seq<u64>) -> bool {
    row.len() >= 2 ==> forall|i: int| 0 <= i < row.len() ==> !f64_is_nan(#[trigger] row[i])
}

/// Whether some element of `row` is NaN.
pub fn f64_row_has_nan(row: &Vec<u64>) -> (r: bool)
    ensures
        r == exists|i: int| 0 <= i < row@.len() && f64_is_nan(#[trigger] row@[i]),
{
    let mut j: usize = 0;
    while j < row.len()
        invariant
            j <= row@.len(),
            forall|k: int| 0 <= k < j ==> !f64_is_nan(#[trigger] row@[k]),
        decreases row@.len() - j,
    {
        if crate::float_bits::f64_bits_is_nan(row[j]) {
            return true;
        }
        j = j + 1;
    }
    false
}

/// The index of the last largest element of `row` with that element; `None`
/// for an empty row.
pub fn argmax_f64_bits(row: &Vec<u64>) -> (r: Option<(usize, u64)>)
    requires
        f64_row_comparable(row@),
    ensures
        row@.len() == 0 ==> r is None,
        row@.len() > 0 ==> r == Some(
            (argmax_f64_upto(row@, row@.len()) as usize, row@[argmax_f64_upto(row@, row@.len()) as int]),
        ),
{
    if row.len() == 0 {
        return None;
    }
    let mut best: usize = 0;
    let mut k: usize = 1;
    while k < row.len()
        invariant
            1 <= k <= row@.len(),
            best == argmax_f64_upto(row@, k as nat),
            best < k,
            f64_row_comparable(row@),
        decreases row@.len() - k,
    {
        if !f64_bits_gt(row[best], row[k]) {
            best = k;
        }
        k = k + 1;
    }
    Some((best, row[best]))
}

/// The index that the scan keeps is a largest element, and no later element
/// is as large.
pub proof fn lemma_argmax_f64_is_last_maximum(row: Seq<u64>, k: nat)
    requires
        1 <= k <= row.len(),
    ensures
        argmax_f64_upto(row, k) < k,
        forall|j: int| 0 <= j < k ==> f64_key(#[trigger] row[j]) <= f64_key(row[argmax_f64_upto(row, k) as int]),
        forall|j: int| argmax_f64_upto(row, k) < j < k ==> f64_key(#[trigger] row[j]) < f64_key(row[argmax_f64_upto(row, k) as int]),
    decreases k,
{
    if k > 1 {
        lemma_argmax_f64_is_last_maximum(row, (k - 1) as nat);
    }
}

} // verus!
