//! Small scalar utilities and the random-number source.

use vstd::prelude::*;
use rand::Rng;

verus! {

pub fn clamp(x: i64, min_v: i64, max_v: i64) -> (r: i64)
    ensures
        x < min_v ==> r == min_v,
        x > max_v && x >= min_v ==> r == max_v,
        min_v <= x <= max_v ==> r == x,
{
    if x < min_v {
        return min_v;
    }
    if x > max_v {
        return max_v;
    }
    x
}

pub fn fmin(a: i64, b: i64) -> (r: i64)
    ensures
        r == if a <= b { a } else { b },
{
    if a <= b {
        return a;
    }
    b
}

pub fn fmax(a: i64, b: i64) -> (r: i64)
    ensures
        r == if a >= b { a } else { b },
{
    if a >= b {
        return a;
    }
    b
}

/// Relies on `rand::Rng::gen_range`: a uniform draw from `low..high`, which
/// always lies in that half-open range (the range must be non-empty).
#[verifier::external_body]
pub fn random_int(low: i32, high: i32) -> (r: i32)
    requires
        low < high,
    ensures
        low <= r < high,
{
    let mut rng = rand::thread_rng();
    rng.gen_range(low..high)
}

/// Relies on `rand::Rng::gen_range`: a uniform draw from `low..high`, which
/// always lies in that half-open range (the range must be non-empty).
/// The scalar is a grid coordinate, the integer counterpart of the
/// floating-point draw the renderer's samplers ask for.
#[verifier::external_body]
pub fn random_double(low: i64, high: i64) -> (r: i64)
    requires
        low < high,
    ensures
        low <= r < high,
{
    let mut rng = rand::thread_rng();
    rng.gen_range(low..high)
}

} // verus!
