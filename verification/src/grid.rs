//! The date grid of a sweep, laid out in nanoseconds on the sweep's time line.
use vstd::prelude::*;

verus! {

/// The magnitude below which the epochs and steps of a grid must stay, so
/// that stepping past the end cannot overflow. Every epoch that the
/// parser yields, and every step built from a time span, lies far inside it.
pub open spec fn grid_limit() -> int {
    0x10000000000000000000000000
}

/// One axis of a sweep's date grid: epochs from `start_ns` to `end_ns`
/// (inclusive) every `step_ns`, all in nanoseconds on one time line.
#[derive(Debug, Clone, Copy, PartialEq, Eq, Structural)]
pub struct GridAxis {
    /// First epoch of the window.
    pub start_ns: i128,
    /// Last admissible epoch of the window.
    pub end_ns: i128,
    /// Spacing between consecutive epochs.
    pub step_ns: i128,
}

impl GridAxis {
    /// A positive step, and epochs and step within the grid limit.
    pub open spec fn valid(self) -> bool {
        &&& 0 < self.step_ns <= grid_limit()
        &&& -grid_limit() <= self.start_ns <= grid_limit()
        &&& -grid_limit() <= self.end_ns <= grid_limit()
    }

    /// The number of epochs on this axis.
    pub open spec fn len(self) -> nat {
        if self.start_ns > self.end_ns {
            0
        } else {
            ((self.end_ns - self.start_ns) / (self.step_ns as int) + 1) as nat
        }
    }

    /// The `k`-th epoch of this axis.
    pub open spec fn point(self, k: int) -> int {
        self.start_ns + k * self.step_ns
    }

    /// The axis from `start_ns` to `end_ns` every `step_ns`, if it is valid.
    pub fn checked(start_ns: i128, end_ns: i128, step_ns: i128) -> (axis: Option<GridAxis>)
        ensures
            axis matches Some(a) ==> a == (GridAxis { start_ns, end_ns, step_ns }),
            axis is Some <==> (GridAxis { start_ns, end_ns, step_ns }).valid(),
    {
        let limit: i128 = 0x10000000000000000000000000;
        if 0 < step_ns && step_ns <= limit && -limit <= start_ns && start_ns <= limit && -limit
            <= end_ns && end_ns <= limit {
            Some(GridAxis { start_ns, end_ns, step_ns })
        } else {
            None
        }
    }
}

proof fn lemma_axis_len(axis: GridAxis, n: int)
    requires
        axis.valid(),
        n >= 0,
        n == 0 ==> axis.start_ns > axis.end_ns,
        n > 0 ==> axis.point(n - 1) <= axis.end_ns,
        axis.point(n) > axis.end_ns,
    ensures
        axis.len() == n,
{
    if n > 0 {
        let diff = axis.end_ns - axis.start_ns;
        let s = axis.step_ns as int;
        assert((n - 1) * s <= diff < n * s);
        assert((diff / s) == n - 1) by (nonlinear_arith)
            requires
                (n - 1) * s <= diff < n * s,
                s > 0,
                n > 0,
        {
            vstd::arithmetic::div_mod::lemma_fundamental_div_mod(diff, s);
            let q = diff / s;
            let r = diff % s;
            assert(0 <= r < s);
            assert(diff == s * q + r);
            if q < n - 1 {
                assert(s * q + r < s * (n - 1));
            }
            if q > n - 1 {
                assert(s * q >= s * n);
            }
        }
    }
}

/// The epochs of one grid axis, in increasing order: `start_ns`,
/// `start_ns + step_ns`, ... up to and including the last one not after `end_ns`.
pub fn epoch_grid(axis: GridAxis) -> (points: Vec<i128>)
    requires
        axis.valid(),
    ensures
        points@.len() == axis.len(),
        forall|k: int| 0 <= k < points@.len() ==> points@[k] == axis.point(k),
{
    let mut points: Vec<i128> = Vec::new();
    let mut current = axis.start_ns;
    while current <= axis.end_ns
        invariant
            axis.valid(),
            current == axis.point(points@.len() as int),
            points@.len() > 0 ==> axis.point(points@.len() - 1) <= axis.end_ns,
            -grid_limit() <= current <= 2 * grid_limit(),
            points@.len() > 0 ==> current <= axis.end_ns + axis.step_ns,
            forall|k: int| 0 <= k < points@.len() ==> points@[k] == axis.point(k),
        decreases axis.end_ns - current + axis.step_ns,
    {
        let ghost n: int = points@.len() as int;
        points.push(current);
        current = current + axis.step_ns;
        assert(axis.point(n + 1) == axis.point(n) + axis.step_ns) by (nonlinear_arith)
            requires
                axis.point(n + 1) == axis.start_ns + (n + 1) * axis.step_ns,
                axis.point(n) == axis.start_ns + n * axis.step_ns,
        ;
    }
    proof {
        lemma_axis_len(axis, points@.len() as int);
    }
    points
}

/// The number of epochs on one grid axis.
pub fn axis_len(axis: GridAxis) -> (n: u128)
    requires
        axis.valid(),
    ensures
        n == axis.len(),
{
    if axis.start_ns > axis.end_ns {
        0
    } else {
        let span = axis.end_ns - axis.start_ns;
        let q = span / axis.step_ns;
        assert(0 <= q <= span) by (nonlinear_arith)
            requires
                span >= 0,
                axis.step_ns >= 1,
                q == span / axis.step_ns,
        ;
        (q + 1) as u128
    }
}


/// The epochs of an axis run from the window's start to its end, inclusive,
/// one step apart: each of them lies in the window, and the epoch one step
/// after the last lies past the end.
pub proof fn lemma_axis_points_in_window(axis: GridAxis, k: int)
    requires
        axis.valid(),
        0 <= k <= axis.len(),
    ensures
        k < axis.len() ==> axis.start_ns <= axis.point(k) <= axis.end_ns,
        k == axis.len() ==> axis.point(k) > axis.end_ns,
        axis.point(k + 1) == axis.point(k) + axis.step_ns,
{
    let s = axis.step_ns as int;
    assert(axis.point(k + 1) == axis.point(k) + s) by (nonlinear_arith)
        requires
            axis.point(k + 1) == axis.start_ns + (k + 1) * s,
            axis.point(k) == axis.start_ns + k * s,
    ;
    if axis.start_ns <= axis.end_ns {
        let diff = axis.end_ns - axis.start_ns;
        let q = diff / s;
        assert(axis.len() == q + 1);
        assert(s * q <= diff < s * (q + 1)) by (nonlinear_arith)
            requires
                s > 0,
                diff >= 0,
                q == diff / s,
        {
            vstd::arithmetic::div_mod::lemma_fundamental_div_mod(diff, s);
        }
        if k < axis.len() {
            assert(0 <= k * s <= q * s) by (nonlinear_arith)
                requires
                    0 <= k <= q,
                    s > 0,
            ;
        } else {
            assert(k * s > diff) by (nonlinear_arith)
                requires
                    k == q + 1,
                    diff < s * (q + 1),
            ;
        }
    } else {
        assert(k == 0);
        assert(k * s == 0) by (nonlinear_arith)
            requires
                k == 0,
        ;
    }
}

/// Every window whose start and end lie within 2^100 nanoseconds of the
/// reference epoch, before it (negative) or after it, with a step in
/// (0, 2^100], is a valid axis; and no other is. Windows before J2000 are
/// accepted like any other.
pub proof fn lemma_valid_axes(start_ns: i128, end_ns: i128, step_ns: i128)
    ensures
        (GridAxis { start_ns, end_ns, step_ns }).valid() <==> (0 < step_ns
            <= 0x10000000000000000000000000 && -0x10000000000000000000000000 <= start_ns
            <= 0x10000000000000000000000000 && -0x10000000000000000000000000 <= end_ns
            <= 0x10000000000000000000000000),
{
}

} // verus!
