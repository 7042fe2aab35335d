//! Estimates between two values.

use std::ops::{Add, Mul, Sub};
use vstd::prelude::*;
use vstd::std_specs::ops::{AddSpec, MulSpec, SubSpec};

verus! {

/// `start`, moved by the difference from `start` to `end`, times `proportion`.
pub fn lerp<X, T>(start: X, end: X, proportion: T) -> (result: X)
    where X: Copy + Add<Output = X> + Sub<Output = X> + Mul<T, Output = X>
    requires
        <X as SubSpec>::obeys_sub_spec(),
        <X as AddSpec>::obeys_add_spec(),
        <X as MulSpec<T>>::obeys_mul_spec(),
        end.sub_req(start),
        start.add_req(end.sub_spec(start)),
        start.add_spec(end.sub_spec(start)).mul_req(proportion),
    ensures
        result == start.add_spec(end.sub_spec(start)).mul_spec(proportion),
{
    (start + (end - start)) * proportion
}

} // verus!
