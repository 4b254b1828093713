use vstd::prelude::*;

verus! {

/// Scalars are binary64 bit patterns carried in `u64` values.  The top bit
/// is the sign and the remaining 63 bits the magnitude (exponent followed by
/// mantissa); for finite values, ordering the magnitude bits as an integer
/// orders the encoded magnitudes.
pub const SIGN_DIVISOR: u64 = 0x8000_0000_0000_0000;

/// The encoding of positive one.
pub const SCALAR_ONE: u64 = 0x3ff0_0000_0000_0000;

/// Sign bit of an encoded scalar: 0 for positive, 1 for negative.
pub open spec fn spec_sign(a: u64) -> u64 {
    a / SIGN_DIVISOR
}

/// Magnitude bits of an encoded scalar (everything below the sign bit).
pub open spec fn spec_magnitude(a: u64) -> u64 {
    a % SIGN_DIVISOR
}

/// Equality of encoded scalars: identical patterns, or both signed zeros.
pub open spec fn spec_scalar_eq(a: u64, b: u64) -> bool {
    a == b || (spec_magnitude(a) == 0 && spec_magnitude(b) == 0)
}

/// Strict order on encoded scalars: negatives below positives (except that
/// the two zeros are equal), positives by magnitude, negatives by reversed
/// magnitude.
pub open spec fn spec_scalar_lt(a: u64, b: u64) -> bool {
    if spec_sign(a) != spec_sign(b) {
        spec_sign(a) == 1 && !(spec_magnitude(a) == 0 && spec_magnitude(b) == 0)
    } else if spec_sign(a) == 0 {
        spec_magnitude(a) < spec_magnitude(b)
    } else {
        spec_magnitude(b) < spec_magnitude(a)
    }
}

/// Non-strict order on encoded scalars.
pub open spec fn spec_scalar_le(a: u64, b: u64) -> bool {
    spec_scalar_lt(a, b) || spec_scalar_eq(a, b)
}

/// Whether `a` and `b` encode equal scalars.
pub fn scalar_eq(a: u64, b: u64) -> (result: bool)
    ensures
        result == spec_scalar_eq(a, b),
{
    a == b || (a % SIGN_DIVISOR == 0 && b % SIGN_DIVISOR == 0)
}

/// Whether `a` encodes a scalar strictly below the one `b` encodes.
pub fn scalar_lt(a: u64, b: u64) -> (result: bool)
    ensures
        result == spec_scalar_lt(a, b),
{
    let sign_a = a / SIGN_DIVISOR;
    let sign_b = b / SIGN_DIVISOR;
    let magnitude_a = a % SIGN_DIVISOR;
    let magnitude_b = b % SIGN_DIVISOR;
    if sign_a != sign_b {
        sign_a == 1 && !(magnitude_a == 0 && magnitude_b == 0)
    } else if sign_a == 0 {
        magnitude_a < magnitude_b
    } else {
        magnitude_b < magnitude_a
    }
}

/// Whether `a` encodes a scalar at or below the one `b` encodes.
pub fn scalar_le(a: u64, b: u64) -> (result: bool)
    ensures
        result == spec_scalar_le(a, b),
{
    scalar_lt(a, b) || scalar_eq(a, b)
}

/// The order on encoded scalars is total: two encodings are always
/// comparable.
pub proof fn lemma_scalar_order_total(a: u64, b: u64)
    ensures
        spec_scalar_le(a, b) || spec_scalar_le(b, a),
{
}

/// The order on encoded scalars is transitive.
pub proof fn lemma_scalar_le_trans(a: u64, b: u64, c: u64)
    requires
        spec_scalar_le(a, b),
        spec_scalar_le(b, c),
    ensures
        spec_scalar_le(a, c),
{
}

/// Picks the index of the largest encoded scalar in a non-empty list; on
/// ties the last such index wins, matching a fold that replaces the running
/// best whenever the next value is at or above it.
pub fn arg_max(values: &Vec<u64>) -> (best: usize)
    requires
        values.len() > 0,
    ensures
        best < values.len(),
        forall|j: int| 0 <= j < values.len() ==> spec_scalar_le(values[j], values[best as int]),
        forall|j: int| best < j < values.len() ==> spec_scalar_lt(values[j], values[best as int]),
{
    let mut best: usize = 0;
    let mut j: usize = 1;
    while j < values.len()
        invariant
            1 <= j <= values.len(),
            best < j,
            forall|k: int| 0 <= k < j ==> spec_scalar_le(values[k], values[best as int]),
            forall|k: int| best < k < j ==> spec_scalar_lt(values[k], values[best as int]),
        decreases values.len() - j,
    {
        if scalar_le(values[best], values[j]) {
            proof {
                assert forall|k: int| 0 <= k < j + 1 implies spec_scalar_le(
                    values[k],
                    values[j as int],
                ) by {
                    if k < j {
                        lemma_scalar_le_trans(values[k], values[best as int], values[j as int]);
                    }
                }
            }
            best = j;
        } else {
            proof {
                lemma_scalar_order_total(values[best as int], values[j as int]);
            }
        }
        j = j + 1;
    }
    best
}

} // verus!
