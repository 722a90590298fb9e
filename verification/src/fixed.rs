//! Saturating / strict fixed-point arithmetic on `i128` values.
//!
//! Every arithmetic step of the aggregation has a defined overflow policy:
//! either the result is clamped to the representable range (`Saturate`) or
//! the whole computation is abandoned (`Strict`, surfaced as `None`).
//! Division by zero is fatal under both policies.

use vstd::prelude::*;

verus! {

/// Policy applied when an arithmetic step cannot represent its true result.
#[derive(Clone, Copy, Debug, PartialEq, Eq, Structural)]
pub enum OverflowPolicy {
    /// Clamp the result to `i128::MIN` / `i128::MAX` and continue.
    Saturate,
    /// Abandon the whole computation.
    Strict,
}

/// Whether a mathematical integer is representable as an `i128`.
pub open spec fn in_range(x: int) -> bool {
    i128::MIN <= x <= i128::MAX
}

/// Clamp a mathematical integer to the `i128` range.
pub open spec fn saturate(x: int) -> int {
    if x > i128::MAX {
        i128::MAX as int
    } else if x < i128::MIN {
        i128::MIN as int
    } else {
        x
    }
}

/// The value of an optional `i128` as an optional mathematical integer.
pub open spec fn opt_val(r: Option<i128>) -> Option<int> {
    match r {
        Some(v) => Some(v as int),
        None => None,
    }
}

/// Addition under a policy.
pub open spec fn spec_add(p: OverflowPolicy, a: int, b: int) -> Option<int> {
    match p {
        OverflowPolicy::Saturate => Some(saturate(a + b)),
        OverflowPolicy::Strict => if in_range(a + b) {
            Some(a + b)
        } else {
            None
        },
    }
}

/// Subtraction under a policy.
pub open spec fn spec_sub(p: OverflowPolicy, a: int, b: int) -> Option<int> {
    match p {
        OverflowPolicy::Saturate => Some(saturate(a - b)),
        OverflowPolicy::Strict => if in_range(a - b) {
            Some(a - b)
        } else {
            None
        },
    }
}

/// Multiplication under a policy.
pub open spec fn spec_mul(p: OverflowPolicy, a: int, b: int) -> Option<int> {
    match p {
        OverflowPolicy::Saturate => Some(saturate(a * b)),
        OverflowPolicy::Strict => if in_range(a * b) {
            Some(a * b)
        } else {
            None
        },
    }
}

/// Division truncating toward zero, as machine division does.
pub open spec fn div_trunc(a: int, b: int) -> int
    recommends
        b != 0,
{
    if a == 0 {
        0
    } else if a > 0 && b > 0 {
        a / b
    } else if a < 0 && b < 0 {
        (a * -1) / (b * -1)
    } else if a < 0 {
        ((a * -1) / b) * -1
    } else {
        (a / (b * -1)) * -1
    }
}

/// Division under a policy. Division by zero is fatal under both policies;
/// the one overflowing quotient (`i128::MIN / -1`) saturates or aborts.
pub open spec fn spec_div(p: OverflowPolicy, a: int, b: int) -> Option<int> {
    if b == 0 {
        None
    } else if in_range(div_trunc(a, b)) {
        Some(div_trunc(a, b))
    } else {
        match p {
            OverflowPolicy::Saturate => Some(i128::MAX as int),
            OverflowPolicy::Strict => None,
        }
    }
}

/// Add two fixed-point values under the given policy.
pub fn fp_add(p: OverflowPolicy, a: i128, b: i128) -> (r: Option<i128>)
    ensures
        opt_val(r) == spec_add(p, a as int, b as int),
{
    match a.checked_add(b) {
        Some(v) => Some(v),
        None => match p {
            OverflowPolicy::Saturate => if b >= 0 {
                Some(i128::MAX)
            } else {
                Some(i128::MIN)
            },
            OverflowPolicy::Strict => None,
        },
    }
}

/// Subtract two fixed-point values under the given policy.
pub fn fp_sub(p: OverflowPolicy, a: i128, b: i128) -> (r: Option<i128>)
    ensures
        opt_val(r) == spec_sub(p, a as int, b as int),
{
    match a.checked_sub(b) {
        Some(v) => Some(v),
        None => match p {
            OverflowPolicy::Saturate => if b <= 0 {
                Some(i128::MAX)
            } else {
                Some(i128::MIN)
            },
            OverflowPolicy::Strict => None,
        },
    }
}

/// Multiply two fixed-point values under the given policy.
pub fn fp_mul(p: OverflowPolicy, a: i128, b: i128) -> (r: Option<i128>)
    ensures
        opt_val(r) == spec_mul(p, a as int, b as int),
{
    match a.checked_mul(b) {
        Some(v) => Some(v),
        None => {
            proof {
                if a >= 0 && b >= 0 {
                    assert(a * b >= 0) by (nonlinear_arith)
                        requires
                            a >= 0 && b >= 0,
                    ;
                }
                if a < 0 && b < 0 {
                    assert(a * b >= 0) by (nonlinear_arith)
                        requires
                            a < 0 && b < 0,
                    ;
                }
                if a >= 0 && b < 0 {
                    assert(a * b <= 0) by (nonlinear_arith)
                        requires
                            a >= 0 && b < 0,
                    ;
                }
                if a < 0 && b >= 0 {
                    assert(a * b <= 0) by (nonlinear_arith)
                        requires
                            a < 0 && b >= 0,
                    ;
                }
            }
            match p {
                OverflowPolicy::Saturate => if (a < 0) == (b < 0) {
                    Some(i128::MAX)
                } else {
                    Some(i128::MIN)
                },
                OverflowPolicy::Strict => None,
            }
        },
    }
}

/// Divide two fixed-point values under the given policy.
pub fn fp_div(p: OverflowPolicy, a: i128, b: i128) -> (r: Option<i128>)
    ensures
        opt_val(r) == spec_div(p, a as int, b as int),
{
    if b == 0 {
        None
    } else {
        match a.checked_div(b) {
            Some(v) => Some(v),
            None => match p {
                OverflowPolicy::Saturate => Some(i128::MAX),
                OverflowPolicy::Strict => None,
            },
        }
    }
}

/// A truncated quotient by a positive divisor never exceeds its dividend
/// in magnitude, so it stays representable.
pub proof fn lemma_div_trunc_in_range_pos(a: int, b: int)
    requires
        b > 0,
        in_range(a),
    ensures
        in_range(div_trunc(a, b)),
        spec_div(OverflowPolicy::Saturate, a, b) == Some(div_trunc(a, b)),
        spec_div(OverflowPolicy::Strict, a, b) == Some(div_trunc(a, b)),
{
    if a > 0 {
        vstd::arithmetic::div_mod::lemma_div_nonincreasing(a, b);
        vstd::arithmetic::div_mod::lemma_div_pos_is_pos(a, b);
    } else if a < 0 {
        vstd::arithmetic::div_mod::lemma_div_nonincreasing(a * -1, b);
        vstd::arithmetic::div_mod::lemma_div_pos_is_pos(a * -1, b);
    }
}

/// Under the saturating policy an arithmetic step never fails: a result
/// beyond the representable range is clamped to the nearest bound,
/// `i128::MAX` above and `i128::MIN` below.
pub proof fn lemma_saturation_boundary(a: int, b: int)
    ensures
        a + b > i128::MAX ==> spec_add(OverflowPolicy::Saturate, a, b) == Some(i128::MAX as int),
        a + b < i128::MIN ==> spec_add(OverflowPolicy::Saturate, a, b) == Some(i128::MIN as int),
        a - b > i128::MAX ==> spec_sub(OverflowPolicy::Saturate, a, b) == Some(i128::MAX as int),
        a - b < i128::MIN ==> spec_sub(OverflowPolicy::Saturate, a, b) == Some(i128::MIN as int),
        a * b > i128::MAX ==> spec_mul(OverflowPolicy::Saturate, a, b) == Some(i128::MAX as int),
        a * b < i128::MIN ==> spec_mul(OverflowPolicy::Saturate, a, b) == Some(i128::MIN as int),
        in_range(a + b) ==> spec_add(OverflowPolicy::Saturate, a, b) == Some(a + b),
        in_range(a - b) ==> spec_sub(OverflowPolicy::Saturate, a, b) == Some(a - b),
        in_range(a * b) ==> spec_mul(OverflowPolicy::Saturate, a, b) == Some(a * b),
{
}

} // verus!
