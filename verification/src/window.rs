//! Geometry of the local windows over which rolling statistics are taken.

use vstd::prelude::*;

verus! {

/// A window `start..end` of a series, centred on the point `center`.
#[derive(Clone, Copy, Debug, PartialEq, Eq, Structural)]
pub struct LocalWindow {
    pub center: usize,
    pub start: usize,
    pub end: usize,
}

/// Whether the rolling z-score examines any point of a series of `len`
/// points with windows of `window` points.
pub open spec fn rolling_applies(len: usize, window: usize) -> bool {
    len >= window && window >= 2
}

/// The local windows of the rolling z-score on a series of `len` points: for
/// each point `i` at least `window / 2` away from both ends, the window
/// `i - window / 2 .. min(i + window / 2, len)`. Too short a series, or a
/// window of fewer than two points, yields no window at all.
pub fn moving_windows(len: usize, window: usize) -> (windows: Vec<LocalWindow>)
    ensures
        !rolling_applies(len, window) ==> windows.len() == 0,
        rolling_applies(len, window) ==> windows.len() == len - 2 * (window / 2),
        (len < window || window < 2) ==> windows.len() == 0,
        (len >= window && window >= 2) ==> windows.len() == len - 2 * (window / 2),
        forall|k: int|
            0 <= k < windows.len() ==> {
                let half = window / 2;
                let w = #[trigger] windows[k];
                &&& w.center == half + k
                &&& w.start == w.center - half
                &&& w.end == (if w.center + half < len {
                    w.center + half
                } else {
                    len as int
                })
                // every window lies inside the series, holds its centre,
                // and spans exactly `2 * (window / 2)` points
                &&& w.end == w.center + half
                &&& w.start <= w.center < w.end <= len
                &&& w.end - w.start == 2 * half
            },
{
    let mut windows: Vec<LocalWindow> = Vec::new();
    if len < window || window < 2 {
        return windows;
    }
    let half = window / 2;
    let last = len - half;
    let mut i = half;
    while i < last
        invariant
            half == window / 2,
            half >= 1,
            last == len - half,
            2 * half <= len,
            half <= i <= last,
            windows.len() == i - half,
            forall|k: int|
                0 <= k < windows.len() ==> {
                    let w = #[trigger] windows[k];
                    &&& w.center == half + k
                    &&& w.start == w.center - half
                    &&& w.end == w.center + half
                },
        decreases last - i,
    {
        let start = i - half;
        let end = if i + half < len {
            i + half
        } else {
            len
        };
        windows.push(LocalWindow { center: i, start, end });
        i = i + 1;
    }
    windows
}

/// The rolling z-score examines a series exactly when it is at least one
/// window long and the window holds at least two points; a longer series has
/// at least one interior point with a window around it, and one more point
/// adds one more window.
pub proof fn law_rolling_needs_one_window(len: usize, window: usize)
    ensures
        len < window ==> !rolling_applies(len, window),
        window < 2 ==> !rolling_applies(len, window),
        len >= window && window >= 2 ==> rolling_applies(len, window),
        rolling_applies(len, window) && len > window ==> len - 2 * (window / 2) >= 1,
        rolling_applies(len, window) && len < usize::MAX ==> rolling_applies(
            (len + 1) as usize,
            window,
        ),
{
}

} // verus!
