//! Bookkeeping of the seasonal decomposition: when it applies, the windows of
//! its centred moving average, how the edges of the trend are filled, and how
//! many points fall on each phase of the period.

use vstd::prelude::*;

use crate::window::LocalWindow;

verus! {

/// Whether a series of `n` points is decomposed with the given period: the
/// period must be at least 2 and the series must span two full periods.
pub open spec fn decomposes(n: usize, period: usize) -> bool {
    period >= 2 && n >= 2 * period
}

/// Decides whether a series of `n` points is decomposed with `period`;
/// otherwise the series is its own trend with zero seasonal and residual parts.
pub fn decomposition_applies(n: usize, period: usize) -> (applies: bool)
    requires
        period <= usize::MAX / 2,
    ensures
        applies == decomposes(n, period),
        applies <==> (period >= 2 && n >= 2 * period),
{
    !(period < 2 || n < period * 2)
}

/// The windows of the centred moving average that gives the trend of a series
/// of `n` points: for each point `i` at least `period / 2` away from both ends,
/// the window `i - period / 2 .. min(i + period / 2 + 1, n)`.
pub fn trend_windows(n: usize, period: usize) -> (windows: Vec<LocalWindow>)
    requires
        2 * (period / 2) <= n,
    ensures
        windows.len() == n - 2 * (period / 2),
        forall|k: int|
            0 <= k < windows.len() ==> {
                let half = period / 2;
                let w = #[trigger] windows[k];
                &&& w.center == half + k
                &&& w.start == w.center - half
                &&& w.end == (if w.center + half + 1 < n {
                    w.center + half + 1
                } else {
                    n as int
                })
                // every window lies inside the series, holds its centre,
                // and spans `2 * (period / 2) + 1` points
                &&& w.end == w.center + half + 1
                &&& w.start <= w.center < w.end <= n
                &&& w.end - w.start == 2 * half + 1
            },
{
    let half = period / 2;
    let last = n - half;
    let mut windows: Vec<LocalWindow> = Vec::new();
    let mut i = half;
    while i < last
        invariant
            half == period / 2,
            last == n - half,
            2 * half <= n,
            half <= i <= last,
            windows.len() == i - half,
            forall|k: int|
                0 <= k < windows.len() ==> {
                    let w = #[trigger] windows[k];
                    &&& w.center == half + k
                    &&& w.start == w.center - half
                    &&& w.end == w.center + half + 1
                },
        decreases last - i,
    {
        let start = i - half;
        let end = if i + half + 1 < n {
            i + half + 1
        } else {
            n
        };
        windows.push(LocalWindow { center: i, start, end });
        i = i + 1;
    }
    windows
}

/// First position at or after `k` that holds `true`, or `v.len()` if none does.
pub open spec fn first_true_from(v: Seq<bool>, k: int) -> int
    decreases v.len() - k,
{
    if k >= v.len() {
        v.len() as int
    } else if k >= 0 && v[k] {
        k
    } else {
        first_true_from(v, k + 1)
    }
}

/// Last position before `k` that holds `true`, or `-1` if none does.
pub open spec fn last_true_before(v: Seq<bool>, k: int) -> int
    decreases k,
{
    if k <= 0 {
        -1
    } else if k <= v.len() && v[k - 1] {
        k - 1
    } else {
        last_true_before(v, k - 1)
    }
}

/// Position of the first valid trend value, or the last position if none is valid.
pub open spec fn first_valid(v: Seq<bool>) -> int {
    let f = first_true_from(v, 0);
    if f < v.len() {
        f
    } else {
        v.len() - 1
    }
}

/// Position of the last valid trend value, or `0` if none is valid.
pub open spec fn last_valid(v: Seq<bool>) -> int {
    let l = last_true_before(v, v.len() as int);
    if l >= 0 {
        l
    } else {
        0
    }
}

/// Where position `j` takes its trend from after the leading edge is filled.
pub open spec fn after_leading_fill(v: Seq<bool>, j: int) -> int {
    if j < first_valid(v) {
        first_valid(v)
    } else {
        j
    }
}

/// Where position `i` takes its trend from once both edges are filled: first
/// every position before the first valid one copies it, then every position
/// after the last valid one copies what that position holds by then.
pub open spec fn fill_source(v: Seq<bool>, i: int) -> int {
    if i > last_valid(v) {
        after_leading_fill(v, last_valid(v))
    } else {
        after_leading_fill(v, i)
    }
}

proof fn lemma_first_true_from(v: Seq<bool>, k: int)
    requires
        0 <= k <= v.len(),
    ensures
        k <= first_true_from(v, k) <= v.len(),
        first_true_from(v, k) < v.len() ==> v[first_true_from(v, k)],
        forall|j: int| k <= j < first_true_from(v, k) ==> !v[j],
    decreases v.len() - k,
{
    if k < v.len() && !v[k] {
        lemma_first_true_from(v, k + 1);
    }
}

proof fn lemma_last_true_before(v: Seq<bool>, k: int)
    requires
        0 <= k <= v.len(),
    ensures
        -1 <= last_true_before(v, k) < k,
        last_true_before(v, k) >= 0 ==> v[last_true_before(v, k)],
        forall|j: int| last_true_before(v, k) < j < k ==> !v[j],
    decreases k,
{
    if k > 0 && !v[k - 1] {
        lemma_last_true_before(v, k - 1);
    }
}

/// For each position of a trend of which `valid` tells the positions that hold
/// a value, the position whose value it takes once the edges are filled.
pub fn fill_sources(valid: &Vec<bool>) -> (sources: Vec<usize>)
    requires
        valid.len() > 0,
    ensures
        sources.len() == valid.len(),
        forall|i: int| 0 <= i < valid.len() ==> sources[i] == fill_source(valid@, i),
{
    let n = valid.len();
    let ghost v = valid@;
    let mut f: usize = 0;
    while f < n && !valid[f]
        invariant
            n == v.len(),
            v == valid@,
            0 <= f <= n,
            first_true_from(v, 0) == first_true_from(v, f as int),
        decreases n - f,
    {
        f = f + 1;
    }
    let first: usize = if f < n {
        f
    } else {
        n - 1
    };
    let mut l: usize = n;
    while l > 0 && !valid[l - 1]
        invariant
            n == v.len(),
            v == valid@,
            0 <= l <= n,
            last_true_before(v, n as int) == last_true_before(v, l as int),
        decreases l,
    {
        l = l - 1;
    }
    let last: usize = if l > 0 {
        l - 1
    } else {
        0
    };
    assert(first == first_valid(v));
    assert(last == last_valid(v));
    let last_source: usize = if last < first {
        first
    } else {
        last
    };
    let mut sources: Vec<usize> = Vec::new();
    let mut i: usize = 0;
    while i < n
        invariant
            n == v.len(),
            v == valid@,
            first == first_valid(v),
            last == last_valid(v),
            last_source == after_leading_fill(v, last as int),
            i <= n,
            sources.len() == i,
            forall|j: int| 0 <= j < i ==> sources[j] == fill_source(v, j),
        decreases n - i,
    {
        let s = if i > last {
            last_source
        } else if i < first {
            first
        } else {
            i
        };
        sources.push(s);
        i = i + 1;
    }
    sources
}

/// Filling the edges: when some position is valid, every position before the
/// first valid one takes its value from it, every position after the last
/// valid one takes its value from that one, and the positions in between keep
/// their own.
pub proof fn law_edges_filled_from_valid_ends(v: Seq<bool>, i: int)
    requires
        exists|k: int| 0 <= k < v.len() && v[k],
        0 <= i < v.len(),
    ensures
        0 <= first_valid(v) <= last_valid(v) < v.len(),
        v[first_valid(v)],
        v[last_valid(v)],
        i < first_valid(v) ==> fill_source(v, i) == first_valid(v),
        i > last_valid(v) ==> fill_source(v, i) == last_valid(v),
        first_valid(v) <= i <= last_valid(v) ==> fill_source(v, i) == i,
        v[i] ==> fill_source(v, i) == i,
        forall|j: int| 0 <= j < first_valid(v) ==> !v[j],
        forall|j: int| last_valid(v) < j < v.len() ==> !v[j],
{
    lemma_first_true_from(v, 0);
    lemma_last_true_before(v, v.len() as int);
    let k = choose|k: int| 0 <= k < v.len() && v[k];
    assert(first_true_from(v, 0) <= k);
    assert(k <= last_true_before(v, v.len() as int));
    if v[i] {
        assert(first_true_from(v, 0) <= i);
        assert(i <= last_true_before(v, v.len() as int));
    }
}

/// Number of positions `i < n` that fall on phase `p` of the period, that is
/// with `i % period == p`.
pub open spec fn phase_count(n: nat, period: nat, p: nat) -> nat
    decreases n,
{
    if n == 0 {
        0
    } else {
        phase_count((n - 1) as nat, period, p) + if (n - 1) as nat % period == p {
            1nat
        } else {
            0nat
        }
    }
}

/// Sum of the phase counts of the phases `0..k`.
pub open spec fn phase_total(n: nat, period: nat, k: nat) -> nat
    decreases k,
{
    if k == 0 {
        0
    } else {
        phase_total(n, period, (k - 1) as nat) + phase_count(n, period, (k - 1) as nat)
    }
}

proof fn lemma_phase_count_le(n: nat, period: nat, p: nat)
    ensures
        phase_count(n, period, p) <= n,
    decreases n,
{
    if n > 0 {
        lemma_phase_count_le((n - 1) as nat, period, p);
    }
}

/// How many points of a series of `n` points fall on each phase of `period`.
pub fn phase_counts(n: usize, period: usize) -> (counts: Vec<usize>)
    requires
        period > 0,
    ensures
        counts.len() == period,
        forall|p: int|
            0 <= p < period ==> counts[p] == phase_count(n as nat, period as nat, p as nat),
{
    let mut counts: Vec<usize> = Vec::new();
    let mut p: usize = 0;
    while p < period
        invariant
            p <= period,
            counts.len() == p,
            forall|q: int| 0 <= q < p ==> counts[q] == 0,
        decreases period - p,
    {
        counts.push(0);
        p = p + 1;
    }
    let mut i: usize = 0;
    while i < n
        invariant
            period > 0,
            i <= n,
            counts.len() == period,
            forall|q: int|
                0 <= q < period ==> counts[q] == phase_count(i as nat, period as nat, q as nat),
        decreases n - i,
    {
        let phase = i % period;
        proof {
            lemma_phase_count_le(i as nat, period as nat, phase as nat);
        }
        let current = counts[phase];
        counts.set(phase, current + 1);
        i = i + 1;
    }
    counts
}

proof fn lemma_phase_total_step(n: nat, period: nat, k: nat)
    requires
        period > 0,
        k <= period,
    ensures
        phase_total(n + 1, period, k) == phase_total(n, period, k) + if n % period < k {
            1nat
        } else {
            0nat
        },
    decreases k,
{
    if k > 0 {
        lemma_phase_total_step(n, period, (k - 1) as nat);
    }
}

/// Every point falls on exactly one phase: the phase counts add up to the
/// length of the series.
pub proof fn law_phase_counts_add_up(n: nat, period: nat)
    requires
        period > 0,
    ensures
        phase_total(n, period, period) == n,
    decreases n,
{
    if n == 0 {
        lemma_phase_total_zero(period, period);
    } else {
        law_phase_counts_add_up((n - 1) as nat, period);
        lemma_phase_total_step((n - 1) as nat, period, period);
    }
}

proof fn lemma_phase_total_zero(period: nat, k: nat)
    ensures
        phase_total(0, period, k) == 0,
    decreases k,
{
    if k > 0 {
        lemma_phase_total_zero(period, (k - 1) as nat);
    }
}

proof fn lemma_phase_count_monotone(m: nat, n: nat, period: nat, p: nat)
    requires
        m <= n,
    ensures
        phase_count(m, period, p) <= phase_count(n, period, p),
    decreases n - m,
{
    if m < n {
        lemma_phase_count_monotone(m, (n - 1) as nat, period, p);
    }
}

/// Once the series spans a full period, every phase holds at least one point,
/// so the average of each phase is taken over a non-empty set.
pub proof fn law_every_phase_observed(n: nat, period: nat, p: nat)
    requires
        p < period,
        n >= period,
    ensures
        phase_count(n, period, p) >= 1,
{
    assert(p % period == p) by {
        vstd::arithmetic::div_mod::lemma_small_mod(p, period);
    }
    assert(phase_count(p + 1, period, p) >= 1);
    lemma_phase_count_monotone(p + 1, n, period, p);
}

proof fn lemma_div_mod_step(n: nat, period: nat)
    requires
        period > 0,
    ensures
        n % period + 1 < period ==> (n + 1) / period == n / period && (n + 1) % period == n
            % period + 1,
        n % period + 1 == period ==> (n + 1) / period == n / period + 1 && (n + 1) % period == 0,
{
    vstd::arithmetic::div_mod::lemma_fundamental_div_mod(n as int, period as int);
    vstd::arithmetic::div_mod::lemma_mod_bound(n as int, period as int);
    let q = n / period;
    let r = n % period;
    vstd::arithmetic::mul::lemma_mul_is_commutative(q as int, period as int);
    if r + 1 < period {
        vstd::arithmetic::div_mod::lemma_fundamental_div_mod_converse(
            (n + 1) as int,
            period as int,
            q as int,
            (r + 1) as int,
        );
    } else if r + 1 == period {
        assert((q + 1) * period == q * period + period) by (nonlinear_arith);
        vstd::arithmetic::div_mod::lemma_fundamental_div_mod_converse(
            (n + 1) as int,
            period as int,
            (q + 1) as int,
            0,
        );
    }
}

/// The phases are balanced: with `n = c * period + r`, the first `r` phases
/// hold `c + 1` points each and the others `c`.
pub proof fn law_phase_counts_balanced(n: nat, period: nat, p: nat)
    requires
        p < period,
    ensures
        phase_count(n, period, p) == n / period + if p < n % period {
            1nat
        } else {
            0nat
        },
    decreases n,
{
    if n > 0 {
        let m = (n - 1) as nat;
        law_phase_counts_balanced(m, period, p);
        lemma_div_mod_step(m, period);
        vstd::arithmetic::div_mod::lemma_mod_bound(m as int, period as int);
    } else {
        assert(0nat / period == 0) by {
            vstd::arithmetic::div_mod::lemma_basic_div(0, period as int);
        }
        assert(0nat % period == 0) by {
            vstd::arithmetic::div_mod::lemma_small_mod(0, period);
        }
    }
}

/// A series is decomposed only when it spans two full periods of at least two
/// points: shorter series, or periods below two, are left undecomposed, and a
/// series that is decomposed stays so when it grows. A decomposed series is
/// long enough for every trend window.
pub proof fn law_decomposition_needs_two_periods(n: usize, period: usize, more: usize)
    ensures
        n < 2 * period ==> !decomposes(n, period),
        period < 2 ==> !decomposes(n, period),
        period >= 2 && n >= 2 * period ==> decomposes(n, period),
        decomposes(n, period) && n <= more ==> decomposes(more, period),
        decomposes(n, period) ==> 2 * (period / 2) + 1 <= n,
{
}

/// When no position of the trend is valid, every position takes its value from
/// the last one.
pub proof fn law_no_valid_position_fills_from_last(v: Seq<bool>, i: int)
    requires
        forall|k: int| 0 <= k < v.len() ==> !v[k],
        0 <= i < v.len(),
    ensures
        fill_source(v, i) == v.len() - 1,
{
    lemma_first_true_from(v, 0);
    lemma_last_true_before(v, v.len() as int);
    if first_true_from(v, 0) < v.len() {
        assert(v[first_true_from(v, 0)]);
    }
    if last_true_before(v, v.len() as int) >= 0 {
        assert(v[last_true_before(v, v.len() as int)]);
    }
}

} // verus!
