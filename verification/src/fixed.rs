//! Fixed-point coordinates.
//!
//! A coordinate is an `i64` count of millionths: the value `c` stands for
//! `c / UNIT`. Sums and products saturate at the ends of the `i64` range
//! instead of wrapping, and products round towards negative infinity.

use vstd::prelude::*;

verus! {

/// Number of coordinate units in one whole.
pub const UNIT: i64 = 1_000_000;

/// The representable coordinate nearest to `v`.
pub open spec fn saturate(v: int) -> i64 {
    if v < i64::MIN {
        i64::MIN
    } else if v > i64::MAX {
        i64::MAX
    } else {
        v as i64
    }
}

/// The coordinate `a` moved by `d`.
pub open spec fn shifted(a: i64, d: i64) -> i64 {
    saturate(a + d)
}

/// The coordinate `a` multiplied by the factor `f`, itself a fixed-point
/// number: the exact product is rounded down to a whole number of units.
pub open spec fn scaled(a: i64, f: i64) -> i64 {
    saturate((a * f) / (UNIT as int))
}

/// Moves the coordinate `a` by `d`.
pub fn shift(a: i64, d: i64) -> (r: i64)
    ensures
        r == shifted(a, d),
{
    let wide: i128 = a as i128 + d as i128;
    narrow(wide)
}

/// Multiplies the coordinate `a` by the fixed-point factor `f`.
pub fn scale(a: i64, f: i64) -> (r: i64)
    ensures
        r == scaled(a, f),
{
    assert(-0x4000_0000_0000_0000_0000_0000_0000_0000 <= (a as int) * (f as int)
        <= 0x4000_0000_0000_0000_0000_0000_0000_0000) by (nonlinear_arith)
        requires
            -0x8000_0000_0000_0000 <= a <= 0x7fff_ffff_ffff_ffff,
            -0x8000_0000_0000_0000 <= f <= 0x7fff_ffff_ffff_ffff,
    ;
    let exact: i128 = (a as i128) * (f as i128);
    let quotient: i128 = exact / (UNIT as i128);
    let remainder: i128 = exact % (UNIT as i128);
    let floor: i128 = if remainder < 0 {
        quotient - 1
    } else {
        quotient
    };
    assert(floor == exact as int / (UNIT as int));
    narrow(floor)
}

/// Brings a wide intermediate result back into the coordinate range.
fn narrow(v: i128) -> (r: i64)
    ensures
        r == saturate(v as int),
{
    if v < i64::MIN as i128 {
        i64::MIN
    } else if v > i64::MAX as i128 {
        i64::MAX
    } else {
        v as i64
    }
}

/// Moving by zero changes nothing, and scaling by one whole is exact.
pub proof fn lemma_neutral(a: i64)
    ensures
        shifted(a, 0) == a,
        scaled(a, UNIT) == a,
{
}

/// Scaling by four tenths and then by two and a half returns to within three
/// units below the starting coordinate, and never above it.
pub proof fn lemma_scale_round_trip(a: i64)
    ensures
        a - 3 <= scaled(scaled(a, 400_000), 2_500_000) <= a,
{
}

} // verus!
