use vstd::prelude::*;
use vstd::arithmetic::div_mod::{lemma_div_by_multiple, lemma_div_is_ordered};
use vstd::arithmetic::mul::{lemma_mul_inequality, lemma_mul_upper_bound};

verus! {

/// Largest grey level of an output pixel.
pub const MAX_INTENSITY: usize = 255;

/// `value` carried linearly from the range `from` to the range `to`, rounded down.
pub open spec fn rescaled(value: int, from: (int, int), to: (int, int)) -> int {
    to.0 + (value - from.0) * (to.1 - to.0) / (from.1 - from.0)
}

/// Grey level of a pixel whose escape result is `result`: a point that did not
/// escape is black; otherwise the count (or its distance to the limit, when
/// inverted) is scaled from `[0, limit]` onto `[0, 255]`.
pub open spec fn intensity(result: Option<usize>, limit: usize, invert: bool) -> u8 {
    match result {
        None => 0,
        Some(count) => {
            let v: int = if invert { limit - count } else { count as int };
            rescaled(v, (0, limit as int), (0, MAX_INTENSITY as int)) as u8
        },
    }
}

/// An escape result that an image of iteration limit `limit` can hold.
pub open spec fn within_limit(result: Option<usize>, limit: usize) -> bool {
    match result {
        None => true,
        Some(count) => count <= limit,
    }
}

proof fn lemma_scaled_bound(a: int, b: int, r: int)
    requires
        0 <= a <= r,
        0 < r,
        0 <= b,
    ensures
        0 <= a * b / r <= b,
{
    lemma_mul_inequality(a, r, b);
    assert(0 <= a * b) by (nonlinear_arith)
        requires
            0 <= a,
            0 <= b,
    ;
    lemma_div_is_ordered(a * b, r * b, r);
    lemma_div_by_multiple(b, r);
    assert(r * b == b * r) by (nonlinear_arith);
    lemma_div_is_ordered(0, a * b, r);
}

/// Carries `value` linearly from the range `from` onto the range `to`,
/// rounding down.
pub fn map_ranges(value: usize, from: (usize, usize), to: (usize, usize)) -> (r: usize)
    requires
        from.0 <= value <= from.1,
        from.0 < from.1,
        to.0 <= to.1,
    ensures
        r == rescaled(value as int, (from.0 as int, from.1 as int), (to.0 as int, to.1 as int)),
        to.0 <= r <= to.1,
{
    let range: u128 = (from.1 - from.0) as u128;
    let new_range: u128 = (to.1 - to.0) as u128;
    let offset: u128 = (value - from.0) as u128;
    proof {
        lemma_mul_upper_bound(offset as int, u64::MAX as int, new_range as int, u64::MAX as int);
        assert(u64::MAX * u64::MAX <= u128::MAX);
        lemma_scaled_bound(offset as int, new_range as int, range as int);
    }
    let scaled: u128 = offset * new_range / range;
    to.0 + scaled as usize
}

/// Grey level of a pixel whose escape result is `result`, for the iteration
/// limit `limit`: 0 where the point did not escape, else the count (or
/// `limit - count` when `invert` is set) scaled onto `[0, 255]`.
pub fn map_intensity(result: Option<usize>, limit: usize, invert: bool) -> (r: u8)
    requires
        limit > 0,
        within_limit(result, limit),
    ensures
        r == intensity(result, limit, invert),
{
    match result {
        None => 0,
        Some(count) => {
            let v: usize = if invert { limit - count } else { count };
            map_ranges(v, (0, limit), (0, MAX_INTENSITY)) as u8
        },
    }
}

/// For a fixed limit and without inversion, a larger escape count never gives
/// a darker pixel, and a point that did not escape is black whatever the
/// inversion.
pub proof fn lemma_intensity_monotonic(a: usize, b: usize, limit: usize, invert: bool)
    requires
        a <= b <= limit,
        limit > 0,
    ensures
        intensity(Some(a), limit, false) <= intensity(Some(b), limit, false),
        intensity(None, limit, invert) == 0,
{
    lemma_scaled_bound(a as int, 255, limit as int);
    lemma_scaled_bound(b as int, 255, limit as int);
    assert(a * 255 <= b * 255) by (nonlinear_arith)
        requires
            a <= b,
    ;
    lemma_div_is_ordered(a * 255, b * 255, limit as int);
}

} // verus!
