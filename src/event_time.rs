//! Event times arrive as IEEE-754 binary64 values, carried here as their raw
//! bit patterns. This module maps them to unsigned keys whose integer order is
//! the floating-point order, so that "due time `d` is reached at time `t`",
//! that is `d <= t` on the floats, becomes `due_key(d) <= time_key(t)`.
use vstd::prelude::*;

verus! {

/// The sign bit of a binary64 bit pattern.
pub const SIGN_BIT: u64 = 0x8000_0000_0000_0000;

/// The bit pattern of positive infinity; larger magnitudes are NaN.
pub const INFINITY_BITS: u64 = 0x7FF0_0000_0000_0000;

/// Whether the value is negative or negative zero.
pub open spec fn is_negative(b: u64) -> bool {
    b >= SIGN_BIT
}

/// The bit pattern without its sign bit: the order of magnitudes is the order
/// of absolute values.
pub open spec fn magnitude(b: u64) -> int {
    if is_negative(b) {
        b - SIGN_BIT
    } else {
        b as int
    }
}

/// Whether the pattern encodes a NaN.
pub open spec fn is_nan(b: u64) -> bool {
    magnitude(b) > INFINITY_BITS
}

/// `x <= y` on two binary64 values that are not NaN: both zeros are equal,
/// every negative value lies below every positive one, positive values are
/// ordered by magnitude and negative ones by reversed magnitude.
pub open spec fn float_le(x: u64, y: u64) -> bool {
    if magnitude(x) == 0 && magnitude(y) == 0 {
        true
    } else if !is_negative(x) && !is_negative(y) {
        magnitude(x) <= magnitude(y)
    } else if is_negative(x) && is_negative(y) {
        magnitude(x) >= magnitude(y)
    } else {
        is_negative(x)
    }
}

/// The order key of a value that is not NaN.
pub open spec fn order_key(b: u64) -> int {
    if magnitude(b) == 0 {
        SIGN_BIT as int
    } else if is_negative(b) {
        u64::MAX - b
    } else {
        b + SIGN_BIT
    }
}

/// Key of an arrival's time. A NaN time reaches no due time, so it gets the
/// smallest key.
pub open spec fn time_key_spec(b: u64) -> int {
    if is_nan(b) {
        0
    } else {
        order_key(b)
    }
}

/// Key of a due time. A NaN due time is never reached, so it gets the largest key.
pub open spec fn due_key_spec(b: u64) -> int {
    if is_nan(b) {
        u64::MAX as int
    } else {
        order_key(b)
    }
}

/// Keys of values that are not NaN lie strictly between the two NaN keys.
proof fn lemma_order_key_range(b: u64)
    requires
        !is_nan(b),
    ensures
        0 < order_key(b) < u64::MAX,
{
}

/// Keys of values that are not NaN compare as the values do.
pub proof fn lemma_order_key_monotone(x: u64, y: u64)
    requires
        !is_nan(x),
        !is_nan(y),
    ensures
        order_key(x) <= order_key(y) <==> float_le(x, y),
{
}

/// A due time is reached at an arrival time exactly when the float comparison
/// `due <= time` holds, which is false whenever either is NaN.
pub proof fn lemma_due_reached_iff_float_le(due: u64, time: u64)
    ensures
        due_key_spec(due) <= time_key_spec(time) <==> (!is_nan(due) && !is_nan(time) && float_le(
            due,
            time,
        )),
{
    if !is_nan(due) {
        lemma_order_key_range(due);
    }
    if !is_nan(time) {
        lemma_order_key_range(time);
    }
    if !is_nan(due) && !is_nan(time) {
        lemma_order_key_monotone(due, time);
    }
}

fn order_key_exec(b: u64) -> (r: u64)
    requires
        !is_nan(b),
    ensures
        r == order_key(b),
{
    if b == 0 || b == SIGN_BIT {
        SIGN_BIT
    } else if b >= SIGN_BIT {
        u64::MAX - b
    } else {
        b + SIGN_BIT
    }
}

/// The key of an arrival time given by its bit pattern.
pub fn time_key(b: u64) -> (r: u64)
    ensures
        r == time_key_spec(b),
{
    if (b >= SIGN_BIT && b - SIGN_BIT > INFINITY_BITS) || (b < SIGN_BIT && b > INFINITY_BITS) {
        0
    } else {
        order_key_exec(b)
    }
}

/// The key of a due time given by its bit pattern.
pub fn due_key(b: u64) -> (r: u64)
    ensures
        r == due_key_spec(b),
{
    if (b >= SIGN_BIT && b - SIGN_BIT > INFINITY_BITS) || (b < SIGN_BIT && b > INFINITY_BITS) {
        u64::MAX
    } else {
        order_key_exec(b)
    }
}

} // verus!
