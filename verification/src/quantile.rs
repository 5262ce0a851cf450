//! Positions of the order statistics read from a sorted series.

use vstd::prelude::*;

verus! {

/// Positions of the first and third quartile in a sorted series of `n` points:
/// `n / 4` and `3 * n / 4`.
pub fn quartile_positions(n: usize) -> (positions: (usize, usize))
    requires
        n <= usize::MAX / 3,
    ensures
        positions.0 == n / 4,
        positions.1 == (3 * n) / 4,
        // the quartiles lie inside a non-empty series, around its median
        n > 0 ==> positions.0 <= n / 2 <= positions.1 < n,
{
    let q1 = n / 4;
    let q3 = (3 * n) / 4;
    (q1, q3)
}

/// Position of the median in a sorted series of `n` points: `n / 2`, the
/// upper of the two middle points when `n` is even.
pub fn median_position(n: usize) -> (position: usize)
    ensures
        position == n / 2,
        n > 0 ==> position < n,
{
    n / 2
}

} // verus!
