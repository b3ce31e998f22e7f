//! Rescaling of a sample from `[0, max_value]` to `[0, 255]`.

use vstd::prelude::*;

verus! {

/// `sample * 255 / max_value`, rounded to the nearest integer, halves
/// upwards.
pub open spec fn scaled(sample: int, max_value: int) -> int {
    (2 * 255 * sample + max_value) / (2 * max_value)
}

/// The scaled sample lies within half a unit of the exact quotient:
/// `scaled * max_value` differs from `sample * 255` by at most
/// `max_value / 2`, and it is the larger of two candidates at equal distance.
pub proof fn lemma_scaled_is_nearest(sample: int, max_value: int)
    requires
        0 <= sample,
        1 <= max_value,
    ensures
        -max_value < 2 * (scaled(sample, max_value) * max_value - 255 * sample) <= max_value,
{
    let x = 2 * 255 * sample + max_value;
    let d = 2 * max_value;
    let q = x / d;
    assert(0 <= x - q * d < d) by (nonlinear_arith)
        requires
            q == x / d,
            d > 0,
    ;
    assert(q * d == 2 * (q * max_value)) by (nonlinear_arith)
        requires
            d == 2 * max_value,
    ;
}

/// Scaling keeps a sample that is in range within the 8-bit range.
pub proof fn lemma_scaled_in_range(sample: int, max_value: int)
    requires
        0 <= sample <= max_value,
        1 <= max_value,
    ensures
        0 <= scaled(sample, max_value) <= 255,
{
    lemma_scaled_is_nearest(sample, max_value);
    let r = scaled(sample, max_value);
    assert(r <= 255) by (nonlinear_arith)
        requires
            2 * (r * max_value - 255 * sample) <= max_value,
            0 <= sample <= max_value,
            1 <= max_value,
    ;
    assert(0 <= r) by (nonlinear_arith)
        requires
            -max_value < 2 * (r * max_value - 255 * sample),
            0 <= sample,
            1 <= max_value,
    ;
}

/// The ends of the range are exact: sample 0 scales to 0 and sample
/// `max_value` scales to 255, whatever `max_value` is.
pub proof fn lemma_scaled_ends(max_value: int)
    requires
        1 <= max_value,
    ensures
        scaled(0, max_value) == 0,
        scaled(max_value, max_value) == 255,
{
    lemma_scaled_is_nearest(0, max_value);
    lemma_scaled_is_nearest(max_value, max_value);
    let lo = scaled(0, max_value);
    let hi = scaled(max_value, max_value);
    assert(lo == 0) by (nonlinear_arith)
        requires
            -max_value < 2 * (lo * max_value) <= max_value,
            1 <= max_value,
    ;
    assert(hi == 255) by (nonlinear_arith)
        requires
            -max_value < 2 * (hi * max_value - 255 * max_value) <= max_value,
            1 <= max_value,
    ;
}

/// With a maximum intensity of 255 scaling changes nothing.
pub proof fn lemma_scaled_identity(sample: int)
    requires
        0 <= sample,
    ensures
        scaled(sample, 255) == sample,
{
    lemma_scaled_is_nearest(sample, 255);
}

/// Scaling preserves the order of samples.
pub proof fn lemma_scaled_monotone(low: int, high: int, max_value: int)
    requires
        0 <= low <= high,
        1 <= max_value,
    ensures
        scaled(low, max_value) <= scaled(high, max_value),
{
    lemma_scaled_is_nearest(low, max_value);
    lemma_scaled_is_nearest(high, max_value);
    let a = scaled(low, max_value);
    let b = scaled(high, max_value);
    assert(a <= b) by (nonlinear_arith)
        requires
            -max_value < 2 * (a * max_value - 255 * low) <= max_value,
            -max_value < 2 * (b * max_value - 255 * high) <= max_value,
            low <= high,
            1 <= max_value,
    ;
}

/// Rescales `sample`, which lies in `[0, max_value]`, to `[0, 255]`.
pub fn scale_sample(sample: u32, max_value: u32) -> (r: u8)
    requires
        1 <= max_value <= 65535,
        sample <= max_value,
    ensures
        r == scaled(sample as int, max_value as int),
{
    proof {
        lemma_scaled_in_range(sample as int, max_value as int);
    }
    let r: u32 = (510 * sample + max_value) / (2 * max_value);
    r as u8
}

} // verus!
