//! Sweep execution: the per-point pipeline over the date grid and the
//! bookkeeping of its outcomes.
use vstd::prelude::*;
use anise::prelude::Frame;
use crate::bodies::{BodySpec, body_naif_id, j2000_frame_of, resolve_frame, unknown_body_message};
use anise::prelude::TimeScale;
use crate::epoch::{common_time_line, duration_limit, on_common_line, read_epoch, window_epoch};
use crate::error::LambertoError;
use crate::grid::{GridAxis, axis_len, epoch_grid};

verus! {

/// A diagnostic event recorded during a sweep, carrying what the failing
/// step reported.
#[derive(Debug, Clone, PartialEq)]
pub enum SweepDiagnostic<E, N, F> {
    /// An ephemeris query failed.
    EphemerisError(E),
    /// Departure and arrival positions are nearly collinear (Lambert singularity).
    NearSingularity(N),
    /// The Lambert solver returned an error for this grid point.
    SolverFailure(F),
}

/// The three kinds of diagnostic.
pub enum DiagnosticKind {
    Ephemeris,
    Singularity,
    Solver,
}

/// The kind of a diagnostic.
pub open spec fn kind_of<E, N, F>(d: SweepDiagnostic<E, N, F>) -> DiagnosticKind {
    match d {
        SweepDiagnostic::EphemerisError(_) => DiagnosticKind::Ephemeris,
        SweepDiagnostic::NearSingularity(_) => DiagnosticKind::Singularity,
        SweepDiagnostic::SolverFailure(_) => DiagnosticKind::Solver,
    }
}

/// The number of diagnostics of the given kind.
pub open spec fn count_kind<E, N, F>(diagnostics: Seq<SweepDiagnostic<E, N, F>>, kind: DiagnosticKind) -> nat
    decreases diagnostics.len(),
{
    if diagnostics.len() == 0 {
        0
    } else {
        count_kind(diagnostics.drop_last(), kind) + if kind_of(diagnostics.last()) == kind {
            1nat
        } else {
            0nat
        }
    }
}

proof fn lemma_count_kind_push<E, N, F>(
    diagnostics: Seq<SweepDiagnostic<E, N, F>>,
    d: SweepDiagnostic<E, N, F>,
    kind: DiagnosticKind,
)
    ensures
        count_kind(diagnostics.push(d), kind) == count_kind(diagnostics, kind) + if kind_of(d) == kind {
            1nat
        } else {
            0nat
        },
{
    assert(diagnostics.push(d).drop_last() =~= diagnostics);
}

/// What became of one grid point.
#[derive(Debug)]
pub enum PointOutcome<R, E, N, F> {
    /// Arrival not after departure: the point was skipped before any query.
    NonPositiveTof,
    /// An ephemeris query failed.
    EphemerisFailure(E),
    /// Departure and arrival positions are nearly collinear.
    NearSingularity(N),
    /// The Lambert solver returned an error.
    SolverFailure(F),
    /// A valid Lambert solution.
    Solution(R),
}

/// The abstract content of a sweep's bookkeeping.
pub struct SweepTally<R, E, N, F> {
    pub solutions: Seq<R>,
    pub diagnostics: Seq<SweepDiagnostic<E, N, F>>,
    pub total: nat,
    pub skipped_tof: nat,
    pub skipped_singularity: nat,
    pub skipped_solver: nat,
    pub skipped_ephemeris: nat,
}

impl<R, E, N, F> SweepTally<R, E, N, F> {
    /// Nothing recorded yet.
    pub open spec fn empty() -> Self {
        SweepTally {
            solutions: Seq::empty(),
            diagnostics: Seq::empty(),
            total: 0,
            skipped_tof: 0,
            skipped_singularity: 0,
            skipped_solver: 0,
            skipped_ephemeris: 0,
        }
    }

    /// The tally after one more grid point with the given outcome.
    pub open spec fn record(self, outcome: PointOutcome<R, E, N, F>) -> Self {
        let t = SweepTally { total: self.total + 1, ..self };
        match outcome {
            PointOutcome::NonPositiveTof => SweepTally { skipped_tof: t.skipped_tof + 1, ..t },
            PointOutcome::EphemerisFailure(e) => SweepTally {
                diagnostics: t.diagnostics.push(SweepDiagnostic::EphemerisError(e)),
                skipped_ephemeris: t.skipped_ephemeris + 1,
                ..t
            },
            PointOutcome::NearSingularity(n) => SweepTally {
                diagnostics: t.diagnostics.push(SweepDiagnostic::NearSingularity(n)),
                skipped_singularity: t.skipped_singularity + 1,
                ..t
            },
            PointOutcome::SolverFailure(f) => SweepTally {
                diagnostics: t.diagnostics.push(SweepDiagnostic::SolverFailure(f)),
                skipped_solver: t.skipped_solver + 1,
                ..t
            },
            PointOutcome::Solution(r) => SweepTally { solutions: t.solutions.push(r), ..t },
        }
    }

    /// Every grid point is either a solution or counted under exactly one
    /// skip reason; every skip but a time-of-flight skip left exactly one
    /// diagnostic, of the kind that its counter names.
    pub open spec fn accounted(self) -> bool {
        &&& self.total == self.solutions.len() + self.skipped_tof + self.skipped_singularity
            + self.skipped_solver + self.skipped_ephemeris
        &&& self.diagnostics.len() == self.skipped_singularity + self.skipped_solver
            + self.skipped_ephemeris
        &&& count_kind(self.diagnostics, DiagnosticKind::Ephemeris) == self.skipped_ephemeris
        &&& count_kind(self.diagnostics, DiagnosticKind::Singularity) == self.skipped_singularity
        &&& count_kind(self.diagnostics, DiagnosticKind::Solver) == self.skipped_solver
    }
}

/// The tally of a sequence of outcomes, recorded in order.
pub open spec fn tally_of<R, E, N, F>(outcomes: Seq<PointOutcome<R, E, N, F>>) -> SweepTally<R, E, N, F>
    decreases outcomes.len(),
{
    if outcomes.len() == 0 {
        SweepTally::empty()
    } else {
        tally_of(outcomes.drop_last()).record(outcomes.last())
    }
}

/// Statistics and results from one sweep.
#[derive(Debug)]
pub struct SweepResult<R, E, N, F> {
    /// Sweep name from configuration.
    pub name: String,
    /// Valid Lambert solutions found.
    pub solutions: Vec<R>,
    /// Diagnostic events (errors, warnings) encountered during the sweep.
    pub diagnostics: Vec<SweepDiagnostic<E, N, F>>,
    /// Total grid points evaluated.
    pub total_points: u64,
    /// Points skipped due to non-positive time of flight.
    pub skipped_tof: u64,
    /// Points skipped due to near-collinear geometry.
    pub skipped_singularity: u64,
    /// Points skipped due to solver failure.
    pub skipped_solver: u64,
    /// Points skipped due to ephemeris query failure.
    pub skipped_ephemeris: u64,
}

impl<R, E, N, F> SweepResult<R, E, N, F> {
    /// The abstract bookkeeping of this result.
    pub open spec fn tally(&self) -> SweepTally<R, E, N, F> {
        SweepTally {
            solutions: self.solutions@,
            diagnostics: self.diagnostics@,
            total: self.total_points as nat,
            skipped_tof: self.skipped_tof as nat,
            skipped_singularity: self.skipped_singularity as nat,
            skipped_solver: self.skipped_solver as nat,
            skipped_ephemeris: self.skipped_ephemeris as nat,
        }
    }

    /// An empty result for the sweep with the given name.
    pub fn new(name: String) -> (r: Self)
        ensures
            r.name@ == name@,
            r.tally() == SweepTally::<R, E, N, F>::empty(),
    {
        SweepResult {
            name,
            solutions: Vec::new(),
            diagnostics: Vec::new(),
            total_points: 0,
            skipped_tof: 0,
            skipped_singularity: 0,
            skipped_solver: 0,
            skipped_ephemeris: 0,
        }
    }

    /// Count one more grid point, with the given outcome.
    pub fn record(&mut self, outcome: PointOutcome<R, E, N, F>)
        requires
            old(self).total_points < u64::MAX,
            old(self).skipped_tof < u64::MAX,
            old(self).skipped_singularity < u64::MAX,
            old(self).skipped_solver < u64::MAX,
            old(self).skipped_ephemeris < u64::MAX,
        ensures
            final(self).name == old(self).name,
            final(self).tally() == old(self).tally().record(outcome),
    {
        self.total_points = self.total_points + 1;
        match outcome {
            PointOutcome::NonPositiveTof => {
                self.skipped_tof = self.skipped_tof + 1;
            },
            PointOutcome::EphemerisFailure(e) => {
                self.diagnostics.push(SweepDiagnostic::EphemerisError(e));
                self.skipped_ephemeris = self.skipped_ephemeris + 1;
            },
            PointOutcome::NearSingularity(n) => {
                self.diagnostics.push(SweepDiagnostic::NearSingularity(n));
                self.skipped_singularity = self.skipped_singularity + 1;
            },
            PointOutcome::SolverFailure(f) => {
                self.diagnostics.push(SweepDiagnostic::SolverFailure(f));
                self.skipped_solver = self.skipped_solver + 1;
            },
            PointOutcome::Solution(r) => {
                self.solutions.push(r);
            },
        }
    }
}

/// Recording any outcome into an accounted tally leaves it accounted.
pub proof fn lemma_record_keeps_accounting<R, E, N, F>(t: SweepTally<R, E, N, F>, outcome: PointOutcome<R, E, N, F>)
    requires
        t.accounted(),
    ensures
        t.record(outcome).accounted(),
        t.record(outcome).total == t.total + 1,
{
    match outcome {
        PointOutcome::EphemerisFailure(e) => {
            let d = SweepDiagnostic::<E, N, F>::EphemerisError(e);
            lemma_count_kind_push(t.diagnostics, d, DiagnosticKind::Ephemeris);
            lemma_count_kind_push(t.diagnostics, d, DiagnosticKind::Singularity);
            lemma_count_kind_push(t.diagnostics, d, DiagnosticKind::Solver);
        },
        PointOutcome::NearSingularity(n) => {
            let d = SweepDiagnostic::<E, N, F>::NearSingularity(n);
            lemma_count_kind_push(t.diagnostics, d, DiagnosticKind::Ephemeris);
            lemma_count_kind_push(t.diagnostics, d, DiagnosticKind::Singularity);
            lemma_count_kind_push(t.diagnostics, d, DiagnosticKind::Solver);
        },
        PointOutcome::SolverFailure(f) => {
            let d = SweepDiagnostic::<E, N, F>::SolverFailure(f);
            lemma_count_kind_push(t.diagnostics, d, DiagnosticKind::Ephemeris);
            lemma_count_kind_push(t.diagnostics, d, DiagnosticKind::Singularity);
            lemma_count_kind_push(t.diagnostics, d, DiagnosticKind::Solver);
        },
        _ => {},
    }
}

/// The tally of any sequence of outcomes is accounted, and counts one grid
/// point per outcome.
pub proof fn lemma_tally_accounted<R, E, N, F>(outcomes: Seq<PointOutcome<R, E, N, F>>)
    ensures
        tally_of(outcomes).accounted(),
        tally_of(outcomes).total == outcomes.len(),
    decreases outcomes.len(),
{
    if outcomes.len() > 0 {
        lemma_tally_accounted(outcomes.drop_last());
        lemma_record_keeps_accounting(tally_of(outcomes.drop_last()), outcomes.last());
    }
}


/// `outcome` is what the point pipeline can yield at departure epoch `d` and
/// arrival epoch `a`: a time-of-flight skip when the arrival is not after the
/// departure; otherwise the departure state is queried, then the arrival
/// state, then the geometry is checked, then the solver runs, and the first
/// step that reports a problem gives the outcome.
pub open spec fn point_outcome<S, R, E, N, F, ED, EA, G, SV>(
    departure_state: ED,
    arrival_state: EA,
    geometry: G,
    solve: SV,
    d: i128,
    a: i128,
    outcome: PointOutcome<R, E, N, F>,
) -> bool where
    ED: Fn(i128) -> Result<S, E>,
    EA: Fn(i128) -> Result<S, E>,
    G: Fn(i128, i128, &S, &S) -> Option<N>,
    SV: Fn(i128, i128, &S, &S) -> Result<R, F>,
 {
    if a <= d {
        outcome is NonPositiveTof
    } else {
        match outcome {
            PointOutcome::NonPositiveTof => false,
            PointOutcome::EphemerisFailure(e) => {
                ||| call_ensures(departure_state, (d,), Err::<S, E>(e))
                ||| exists|s1: S|
                    call_ensures(departure_state, (d,), Ok::<S, E>(s1)) && call_ensures(
                        arrival_state,
                        (a,),
                        Err::<S, E>(e),
                    )
            },
            PointOutcome::NearSingularity(e) => exists|s1: S, s2: S|
                #![trigger call_ensures(departure_state, (d,), Ok::<S, E>(s1)), call_ensures(arrival_state, (a,), Ok::<S, E>(s2))]
                {
                    &&& call_ensures(departure_state, (d,), Ok::<S, E>(s1))
                    &&& call_ensures(arrival_state, (a,), Ok::<S, E>(s2))
                    &&& call_ensures(geometry, (d, a, &s1, &s2), Some::<N>(e))
                },
            PointOutcome::SolverFailure(e) => exists|s1: S, s2: S|
                #![trigger call_ensures(departure_state, (d,), Ok::<S, E>(s1)), call_ensures(arrival_state, (a,), Ok::<S, E>(s2))]
                {
                    &&& call_ensures(departure_state, (d,), Ok::<S, E>(s1))
                    &&& call_ensures(arrival_state, (a,), Ok::<S, E>(s2))
                    &&& call_ensures(geometry, (d, a, &s1, &s2), None::<N>)
                    &&& call_ensures(solve, (d, a, &s1, &s2), Err::<R, F>(e))
                },
            PointOutcome::Solution(r) => exists|s1: S, s2: S|
                #![trigger call_ensures(departure_state, (d,), Ok::<S, E>(s1)), call_ensures(arrival_state, (a,), Ok::<S, E>(s2))]
                {
                    &&& call_ensures(departure_state, (d,), Ok::<S, E>(s1))
                    &&& call_ensures(arrival_state, (a,), Ok::<S, E>(s2))
                    &&& call_ensures(geometry, (d, a, &s1, &s2), None::<N>)
                    &&& call_ensures(solve, (d, a, &s1, &s2), Ok::<R, F>(r))
                },
        }
    }
}

/// The closures of the point pipeline accept every argument.
pub open spec fn pipeline_total<S, R, E, N, F, ED, EA, G, SV>(
    departure_state: ED,
    arrival_state: EA,
    geometry: G,
    solve: SV,
) -> bool where
    ED: Fn(i128) -> Result<S, E>,
    EA: Fn(i128) -> Result<S, E>,
    G: Fn(i128, i128, &S, &S) -> Option<N>,
    SV: Fn(i128, i128, &S, &S) -> Result<R, F>,
 {
    &&& forall|d: i128| call_requires(departure_state, (d,))
    &&& forall|a: i128| call_requires(arrival_state, (a,))
    &&& forall|d: i128, a: i128, s1: &S, s2: &S| call_requires(geometry, (d, a, s1, s2))
    &&& forall|d: i128, a: i128, s1: &S, s2: &S| call_requires(solve, (d, a, s1, s2))
}

/// `rows[i][j]` is an outcome the pipeline can yield at the `i`-th departure
/// epoch and the `j`-th arrival epoch, for every point of the grid.
pub open spec fn grid_outcomes<S, R, E, N, F, ED, EA, G, SV>(
    departure: GridAxis,
    arrival: GridAxis,
    departure_state: ED,
    arrival_state: EA,
    geometry: G,
    solve: SV,
    rows: Seq<Seq<PointOutcome<R, E, N, F>>>,
) -> bool where
    ED: Fn(i128) -> Result<S, E>,
    EA: Fn(i128) -> Result<S, E>,
    G: Fn(i128, i128, &S, &S) -> Option<N>,
    SV: Fn(i128, i128, &S, &S) -> Result<R, F>,
 {
    &&& rows.len() == departure.len()
    &&& forall|i: int| 0 <= i < rows.len() ==> (#[trigger] rows[i]).len() == arrival.len()
    &&& forall|i: int, j: int|
        0 <= i < rows.len() && 0 <= j < arrival.len() ==> point_outcome(
            departure_state,
            arrival_state,
            geometry,
            solve,
            departure.point(i) as i128,
            arrival.point(j) as i128,
            #[trigger] rows[i][j],
        )
}

fn evaluate_point<S, R, E, N, F, ED, EA, G, SV>(
    d: i128,
    a: i128,
    departure_state: &ED,
    arrival_state: &EA,
    geometry: &G,
    solve: &SV,
) -> (outcome: PointOutcome<R, E, N, F>) where
    ED: Fn(i128) -> Result<S, E>,
    EA: Fn(i128) -> Result<S, E>,
    G: Fn(i128, i128, &S, &S) -> Option<N>,
    SV: Fn(i128, i128, &S, &S) -> Result<R, F>,

    requires
        pipeline_total(*departure_state, *arrival_state, *geometry, *solve),
    ensures
        point_outcome(*departure_state, *arrival_state, *geometry, *solve, d, a, outcome),
{
    if a <= d {
        return PointOutcome::NonPositiveTof;
    }
    let s1 = match departure_state(d) {
        Ok(s) => s,
        Err(e) => {
            return PointOutcome::EphemerisFailure(e);
        },
    };
    let s2 = match arrival_state(a) {
        Ok(s) => s,
        Err(e) => {
            return PointOutcome::EphemerisFailure(e);
        },
    };
    match geometry(d, a, &s1, &s2) {
        Some(e) => {
            assert(call_ensures(*geometry, (d, a, &s1, &s2), Some(e)));
            return PointOutcome::NearSingularity(e);
        },
        None => {},
    }
    match solve(d, a, &s1, &s2) {
        Ok(r) => PointOutcome::Solution(r),
        Err(e) => PointOutcome::SolverFailure(e),
    }
}


/// The number of the first `m` arrival epochs that are not after epoch `d`.
pub open spec fn nonpositive_in_row(d: int, arrival: GridAxis, m: nat) -> nat
    decreases m,
{
    if m == 0 {
        0
    } else {
        nonpositive_in_row(d, arrival, (m - 1) as nat) + if arrival.point(m - 1) <= d {
            1nat
        } else {
            0nat
        }
    }
}

/// The number of grid points, among the rows of the first `n` departure
/// epochs, whose arrival is not after their departure.
pub open spec fn nonpositive_pairs_upto(departure: GridAxis, arrival: GridAxis, n: nat) -> nat
    decreases n,
{
    if n == 0 {
        0
    } else {
        nonpositive_pairs_upto(departure, arrival, (n - 1) as nat) + nonpositive_in_row(
            departure.point(n - 1),
            arrival,
            arrival.len(),
        )
    }
}

/// The number of grid points whose arrival epoch is not after their
/// departure epoch: the points a sweep skips for their time of flight.
pub open spec fn nonpositive_pairs(departure: GridAxis, arrival: GridAxis) -> nat {
    nonpositive_pairs_upto(departure, arrival, departure.len())
}

/// Execute one sweep: iterate the departure/arrival date grid in order
/// (departure epochs outer, arrival epochs inner) and run the point pipeline
/// at each grid point, recording every outcome.
///
/// The pipeline's steps are supplied by the caller: the heliocentric states
/// of the departure and arrival bodies, the near-singularity check of the
/// two positions, and the Lambert solve. All diagnostics are collected in
/// the result rather than printed.
pub fn run_sweep<S, R, E, N, F, ED, EA, G, SV>(
    name: String,
    departure: GridAxis,
    arrival: GridAxis,
    departure_state: ED,
    arrival_state: EA,
    geometry: G,
    solve: SV,
) -> (result: SweepResult<R, E, N, F>) where
    ED: Fn(i128) -> Result<S, E>,
    EA: Fn(i128) -> Result<S, E>,
    G: Fn(i128, i128, &S, &S) -> Option<N>,
    SV: Fn(i128, i128, &S, &S) -> Result<R, F>,

    requires
        departure.valid(),
        arrival.valid(),
        departure.len() * arrival.len() <= u64::MAX,
        pipeline_total(departure_state, arrival_state, geometry, solve),
    ensures
        result.name@ == name@,
        result.total_points == departure.len() * arrival.len(),
        result.skipped_tof == nonpositive_pairs(departure, arrival),
        result.tally().accounted(),
        exists|rows: Seq<Seq<PointOutcome<R, E, N, F>>>|
            {
                &&& grid_outcomes(
                    departure,
                    arrival,
                    departure_state,
                    arrival_state,
                    geometry,
                    solve,
                    rows,
                )
                &&& #[trigger] tally_of(rows.flatten()) == result.tally()
            },
{
    let departure_points = epoch_grid(departure);
    let arrival_points = epoch_grid(arrival);
    let n = departure_points.len();
    let m = arrival_points.len();
    let ghost name_view = name@;
    let mut result: SweepResult<R, E, N, F> = SweepResult::new(name);
    let ghost mut rows: Seq<Seq<PointOutcome<R, E, N, F>>> = Seq::empty();
    proof {
        assert(rows.flatten() =~= Seq::<PointOutcome<R, E, N, F>>::empty());
    }
    let mut i: usize = 0;
    while i < n
        invariant
            departure.valid(),
            arrival.valid(),
            n == departure.len(),
            m == arrival.len(),
            n * m <= u64::MAX,
            pipeline_total(departure_state, arrival_state, geometry, solve),
            departure_points@.len() == n,
            arrival_points@.len() == m,
            forall|k: int| 0 <= k < n ==> departure_points@[k] == departure.point(k),
            forall|k: int| 0 <= k < m ==> arrival_points@[k] == arrival.point(k),
            i <= n,
            rows.len() == i,
            forall|r: int| 0 <= r < rows.len() ==> (#[trigger] rows[r]).len() == m,
            forall|r: int, c: int|
                0 <= r < rows.len() && 0 <= c < m ==> point_outcome(
                    departure_state,
                    arrival_state,
                    geometry,
                    solve,
                    departure.point(r) as i128,
                    arrival.point(c) as i128,
                    #[trigger] rows[r][c],
                ),
            result.tally() == tally_of(rows.flatten()),
            result.total_points == i * m,
            result.skipped_tof == nonpositive_pairs_upto(departure, arrival, i as nat),
            result.name@ == name_view,
        decreases n - i,
    {
        let d = departure_points[i];
        let ghost mut row: Seq<PointOutcome<R, E, N, F>> = Seq::empty();
        let mut j: usize = 0;
        proof {
            assert(rows.flatten() + row =~= rows.flatten());
        }
        while j < m
            invariant
                departure.valid(),
                arrival.valid(),
                n == departure.len(),
                m == arrival.len(),
                n * m <= u64::MAX,
                pipeline_total(departure_state, arrival_state, geometry, solve),
                arrival_points@.len() == m,
                forall|k: int| 0 <= k < m ==> arrival_points@[k] == arrival.point(k),
                i < n,
                d == departure.point(i as int),
                j <= m,
                row.len() == j,
                forall|c: int|
                    0 <= c < row.len() ==> point_outcome(
                        departure_state,
                        arrival_state,
                        geometry,
                        solve,
                        d,
                        arrival.point(c) as i128,
                        #[trigger] row[c],
                    ),
                result.tally() == tally_of(rows.flatten() + row),
                result.total_points == i * m + j,
                result.skipped_tof == nonpositive_pairs_upto(departure, arrival, i as nat)
                    + nonpositive_in_row(departure.point(i as int), arrival, j as nat),
                result.name@ == name_view,
            decreases m - j,
        {
            let a = arrival_points[j];
            let outcome = evaluate_point(d, a, &departure_state, &arrival_state, &geometry, &solve);
            let ghost o = outcome;
            proof {
                assert(i * m + j < n * m) by (nonlinear_arith)
                    requires
                        i < n,
                        j < m,
                ;
                lemma_tally_accounted(rows.flatten() + row);
            }
            result.record(outcome);
            proof {
                let prev = rows.flatten() + row;
                row = row.push(o);
                assert((rows.flatten() + row).drop_last() =~= prev);
                assert((rows.flatten() + row).last() == o);
            }
            j = j + 1;
        }
        proof {
            rows.lemma_flatten_push(row);
            rows = rows.push(row);
            assert((i + 1) * m == i * m + m) by (nonlinear_arith);
        }
        i = i + 1;
    }
    proof {
        lemma_tally_accounted(rows.flatten());
    }
    result
}


/// The resolved bodies and the parsed date windows of a sweep.
pub struct SweepSetup {
    /// Frame of the departure body.
    pub departure_frame: Frame,
    /// Frame of the arrival body.
    pub arrival_frame: Frame,
    /// Start of the departure window, nanoseconds on the sweep's time line.
    pub departure_start_ns: i128,
    /// End of the departure window, nanoseconds on the sweep's time line.
    pub departure_end_ns: i128,
    /// Start of the arrival window, nanoseconds on the sweep's time line.
    pub arrival_start_ns: i128,
    /// End of the arrival window, nanoseconds on the sweep's time line.
    pub arrival_end_ns: i128,
    /// The sweep's time line: the time scale that all four window epochs are
    /// written in, or `None` (TDB) when they are written in several.
    pub time_scale: Option<TimeScale>,
}

/// The first error among the four window epochs, in the order departure
/// start, departure end, arrival start, arrival end.
pub open spec fn first_epoch_error(
    departure_start: Seq<char>,
    departure_end: Seq<char>,
    arrival_start: Seq<char>,
    arrival_end: Seq<char>,
) -> Option<Seq<char>> {
    if window_epoch(departure_start) is Err {
        Some(window_epoch(departure_start)->Err_0)
    } else if window_epoch(departure_end) is Err {
        Some(window_epoch(departure_end)->Err_0)
    } else if window_epoch(arrival_start) is Err {
        Some(window_epoch(arrival_start)->Err_0)
    } else if window_epoch(arrival_end) is Err {
        Some(window_epoch(arrival_end)->Err_0)
    } else {
        None
    }
}

fn parse_window_epoch(text: &str) -> (r: Result<(i128, TimeScale), LambertoError>)
    ensures
        r matches Ok((ns, ts)) ==> (window_epoch(text@) matches Ok((v, s)) && v == ns && s == ts),
        r matches Ok((ns, ts)) ==> -duration_limit() < ns < duration_limit(),
        r matches Err(e) ==> (e matches LambertoError::Config(m) && window_epoch(text@) matches Err(pm) && pm == m@),
        r is Err <==> window_epoch(text@) is Err,
{
    match read_epoch(text) {
        Ok(parsed) => Ok(parsed),
        Err(msg) => Err(LambertoError::Config(msg)),
    }
}

/// The window epochs of a sweep on its time line (see `on_common_line`),
/// when all four read.
pub open spec fn window_line(
    departure_start: Seq<char>,
    departure_end: Seq<char>,
    arrival_start: Seq<char>,
    arrival_end: Seq<char>,
) -> (Seq<int>, Option<TimeScale>) {
    on_common_line(
        window_epoch(departure_start)->Ok_0,
        window_epoch(departure_end)->Ok_0,
        window_epoch(arrival_start)->Ok_0,
        window_epoch(arrival_end)->Ok_0,
    )
}

/// Resolve the bodies of a sweep and parse its date windows, reporting the
/// first problem: an unknown departure body, an unknown arrival body, then
/// an unparsable epoch (departure start, departure end, arrival start,
/// arrival end).
pub fn prepare_sweep(
    departure_body: &BodySpec,
    arrival_body: &BodySpec,
    departure_start: &str,
    departure_end: &str,
    arrival_start: &str,
    arrival_end: &str,
) -> (r: Result<SweepSetup, LambertoError>)
    ensures
        body_naif_id(*departure_body) is None ==> (r matches Err(LambertoError::Ephemeris(m))
            && m@ == unknown_body_message(*departure_body)),
        body_naif_id(*departure_body) is Some && body_naif_id(*arrival_body) is None ==> (r matches Err(
            LambertoError::Ephemeris(m),
        ) && m@ == unknown_body_message(*arrival_body)),
        body_naif_id(*departure_body) is Some && body_naif_id(*arrival_body) is Some ==> (
        first_epoch_error(departure_start@, departure_end@, arrival_start@, arrival_end@) matches Some(pm)
            ==> (r matches Err(LambertoError::Config(m)) && m@ == pm)),
        r matches Ok(setup) ==> {
            let line = window_line(departure_start@, departure_end@, arrival_start@, arrival_end@);
            &&& body_naif_id(*departure_body) matches Some(id) && setup.departure_frame == j2000_frame_of(id)
            &&& body_naif_id(*arrival_body) matches Some(id) && setup.arrival_frame == j2000_frame_of(id)
            &&& setup.departure_start_ns == line.0[0]
            &&& setup.departure_end_ns == line.0[1]
            &&& setup.arrival_start_ns == line.0[2]
            &&& setup.arrival_end_ns == line.0[3]
            &&& setup.time_scale == line.1
            &&& -duration_limit() < setup.departure_start_ns < duration_limit()
            &&& -duration_limit() < setup.departure_end_ns < duration_limit()
            &&& -duration_limit() < setup.arrival_start_ns < duration_limit()
            &&& -duration_limit() < setup.arrival_end_ns < duration_limit()
        },
        r is Ok <==> (body_naif_id(*departure_body) is Some && body_naif_id(*arrival_body) is Some
            && first_epoch_error(departure_start@, departure_end@, arrival_start@, arrival_end@) is None),
{
    let departure_frame = match resolve_frame(departure_body) {
        Ok(f) => f,
        Err(msg) => {
            return Err(LambertoError::Ephemeris(msg));
        },
    };
    let arrival_frame = match resolve_frame(arrival_body) {
        Ok(f) => f,
        Err(msg) => {
            return Err(LambertoError::Ephemeris(msg));
        },
    };
    let departure_start_epoch = match parse_window_epoch(departure_start) {
        Ok(e) => e,
        Err(e) => {
            return Err(e);
        },
    };
    let departure_end_epoch = match parse_window_epoch(departure_end) {
        Ok(e) => e,
        Err(e) => {
            return Err(e);
        },
    };
    let arrival_start_epoch = match parse_window_epoch(arrival_start) {
        Ok(e) => e,
        Err(e) => {
            return Err(e);
        },
    };
    let arrival_end_epoch = match parse_window_epoch(arrival_end) {
        Ok(e) => e,
        Err(e) => {
            return Err(e);
        },
    };
    let (departure_start_ns, departure_end_ns, arrival_start_ns, arrival_end_ns, time_scale) =
        common_time_line(departure_start_epoch, departure_end_epoch, arrival_start_epoch, arrival_end_epoch);
    Ok(
        SweepSetup {
            departure_frame,
            arrival_frame,
            departure_start_ns,
            departure_end_ns,
            arrival_start_ns,
            arrival_end_ns,
            time_scale,
        },
    )
}

/// The number of grid points of a sweep over the two axes, if it fits the
/// sweep's counters.
pub fn sweep_point_count(departure: GridAxis, arrival: GridAxis) -> (count: Option<u64>)
    requires
        departure.valid(),
        arrival.valid(),
    ensures
        count matches Some(c) ==> c == departure.len() * arrival.len(),
        count is None <==> departure.len() * arrival.len() > u64::MAX,
{
    let n = axis_len(departure);
    let m = axis_len(arrival);
    if n == 0 || m == 0 {
        assert(departure.len() * arrival.len() == 0) by (nonlinear_arith)
            requires
                departure.len() == 0 || arrival.len() == 0,
        ;
        return Some(0);
    }
    if n > u64::MAX as u128 || m > u64::MAX as u128 {
        proof {
            assert(departure.len() * arrival.len() > u64::MAX) by (nonlinear_arith)
                requires
                    departure.len() > u64::MAX && arrival.len() >= 1 || arrival.len() > u64::MAX && departure.len() >= 1,
            ;
        }
        return None;
    }
    let n64 = n as u64;
    let m64 = m as u64;
    n64.checked_mul(m64)
}


/// `i` is the first position at which `keys` takes its least value.
pub open spec fn is_first_min(keys: Seq<i64>, i: int) -> bool {
    &&& 0 <= i < keys.len()
    &&& forall|j: int| 0 <= j < keys.len() ==> keys[i] <= #[trigger] keys[j]
    &&& forall|j: int| 0 <= j < i ==> keys[i] < #[trigger] keys[j]
}

/// The position of the first least key, if there is any key.
pub fn first_min_index(keys: &Vec<i64>) -> (best: Option<usize>)
    ensures
        best is None <==> keys@.len() == 0,
        best matches Some(i) ==> is_first_min(keys@, i as int),
{
    if keys.len() == 0 {
        return None;
    }
    let mut best: usize = 0;
    let mut k: usize = 1;
    while k < keys.len()
        invariant
            1 <= k <= keys@.len(),
            best < k,
            forall|j: int| 0 <= j < k ==> keys@[best as int] <= #[trigger] keys@[j],
            forall|j: int| 0 <= j < best ==> keys@[best as int] < #[trigger] keys@[j],
        decreases keys@.len() - k,
    {
        if keys[k] < keys[best] {
            best = k;
        }
        k = k + 1;
    }
    Some(best)
}

impl<R, E, N, F> SweepResult<R, E, N, F> {
    /// The first solution whose key is least, the key of each solution
    /// given at its position in `keys` (ties go to the earliest solution).
    pub fn best_solution(&self, keys: &Vec<i64>) -> (best: Option<&R>)
        requires
            keys@.len() == self.solutions@.len(),
        ensures
            best is None <==> self.solutions@.len() == 0,
            best matches Some(r) ==> exists|i: int| is_first_min(keys@, i) && *r == self.solutions@[i],
    {
        match first_min_index(keys) {
            Some(i) => Some(&self.solutions[i]),
            None => None,
        }
    }
}


proof fn lemma_row_all_nonpositive(d: int, arrival: GridAxis, m: nat)
    requires
        arrival.valid(),
        arrival.end_ns <= d,
        m <= arrival.len(),
    ensures
        nonpositive_in_row(d, arrival, m) == m,
    decreases m,
{
    if m > 0 {
        lemma_row_all_nonpositive(d, arrival, (m - 1) as nat);
        crate::grid::lemma_axis_points_in_window(arrival, m - 1);
    }
}

proof fn lemma_row_none_nonpositive(d: int, arrival: GridAxis, m: nat)
    requires
        arrival.valid(),
        arrival.start_ns > d,
        m <= arrival.len(),
    ensures
        nonpositive_in_row(d, arrival, m) == 0,
    decreases m,
{
    if m > 0 {
        lemma_row_none_nonpositive(d, arrival, (m - 1) as nat);
        crate::grid::lemma_axis_points_in_window(arrival, m - 1);
    }
}

/// When the arrival window ends no later than the departure window starts,
/// every grid point has a non-positive time of flight.
pub proof fn lemma_arrivals_never_after_departures(departure: GridAxis, arrival: GridAxis)
    requires
        departure.valid(),
        arrival.valid(),
        arrival.end_ns <= departure.start_ns,
    ensures
        nonpositive_pairs(departure, arrival) == departure.len() * arrival.len(),
{
    lemma_upto_all_nonpositive(departure, arrival, departure.len());
}

proof fn lemma_upto_all_nonpositive(departure: GridAxis, arrival: GridAxis, n: nat)
    requires
        departure.valid(),
        arrival.valid(),
        arrival.end_ns <= departure.start_ns,
        n <= departure.len(),
    ensures
        nonpositive_pairs_upto(departure, arrival, n) == n * arrival.len(),
    decreases n,
{
    if n > 0 {
        lemma_upto_all_nonpositive(departure, arrival, (n - 1) as nat);
        crate::grid::lemma_axis_points_in_window(departure, n - 1);
        lemma_row_all_nonpositive(departure.point(n - 1), arrival, arrival.len());
        assert(n * arrival.len() == (n - 1) * arrival.len() + arrival.len()) by (nonlinear_arith);
    } else {
        assert(n * arrival.len() == 0) by (nonlinear_arith)
            requires
                n == 0,
        ;
    }
}

proof fn lemma_upto_none_nonpositive(departure: GridAxis, arrival: GridAxis, n: nat)
    requires
        departure.valid(),
        arrival.valid(),
        arrival.start_ns > departure.end_ns,
        n <= departure.len(),
    ensures
        nonpositive_pairs_upto(departure, arrival, n) == 0,
    decreases n,
{
    if n > 0 {
        lemma_upto_none_nonpositive(departure, arrival, (n - 1) as nat);
        crate::grid::lemma_axis_points_in_window(departure, n - 1);
        lemma_row_none_nonpositive(departure.point(n - 1), arrival, arrival.len());
    }
}

/// When every arrival epoch is after every departure epoch, no grid point is
/// skipped for its time of flight.
pub proof fn lemma_arrivals_all_after_departures(departure: GridAxis, arrival: GridAxis)
    requires
        departure.valid(),
        arrival.valid(),
        arrival.start_ns > departure.end_ns,
    ensures
        nonpositive_pairs(departure, arrival) == 0,
{
    lemma_upto_none_nonpositive(departure, arrival, departure.len());
}

/// A sweep whose arrival window ends no later than its departure window
/// starts skips every grid point for its time of flight: it finds no
/// solution and reports no diagnostic. The requirements on the tally are
/// what `run_sweep` ensures of its result.
pub proof fn lemma_arrival_window_first_yields_nothing<R, E, N, F>(
    departure: GridAxis,
    arrival: GridAxis,
    t: SweepTally<R, E, N, F>,
)
    requires
        departure.valid(),
        arrival.valid(),
        arrival.end_ns <= departure.start_ns,
        t.accounted(),
        t.total == departure.len() * arrival.len(),
        t.skipped_tof == nonpositive_pairs(departure, arrival),
    ensures
        t.skipped_tof == t.total,
        t.solutions.len() == 0,
        t.diagnostics.len() == 0,
{
    lemma_arrivals_never_after_departures(departure, arrival);
}

proof fn lemma_row_bounded(d: int, arrival: GridAxis, m: nat)
    ensures
        nonpositive_in_row(d, arrival, m) <= m,
    decreases m,
{
    if m > 0 {
        lemma_row_bounded(d, arrival, (m - 1) as nat);
    }
}

proof fn lemma_upto_bounded(departure: GridAxis, arrival: GridAxis, n: nat)
    ensures
        nonpositive_pairs_upto(departure, arrival, n) <= n * arrival.len(),
    decreases n,
{
    if n > 0 {
        lemma_upto_bounded(departure, arrival, (n - 1) as nat);
        lemma_row_bounded(departure.point(n - 1), arrival, arrival.len());
        assert(n * arrival.len() == (n - 1) * arrival.len() + arrival.len()) by (nonlinear_arith);
    } else {
        assert(n * arrival.len() == 0) by (nonlinear_arith)
            requires
                n == 0,
        ;
    }
}

/// No more grid points are skipped for their time of flight than the grid holds.
pub proof fn lemma_nonpositive_pairs_bounded(departure: GridAxis, arrival: GridAxis)
    ensures
        nonpositive_pairs(departure, arrival) <= departure.len() * arrival.len(),
{
    lemma_upto_bounded(departure, arrival, departure.len());
}

/// Two sweeps over the same departure and arrival grids, whatever their
/// bodies, direction, revolutions or solver outcomes, count the same grid
/// points, skip the same number for their time of flight, and so take the
/// same number of points through the pipeline: that number is the grid's
/// size less its time-of-flight skips, and each such point is a solution or
/// a skip of one of the other three kinds. The requirements on each tally
/// are what `run_sweep` ensures of its result.
pub proof fn lemma_grid_alone_decides_counts<R1, E1, N1, F1, R2, E2, N2, F2>(
    departure: GridAxis,
    arrival: GridAxis,
    first: SweepTally<R1, E1, N1, F1>,
    second: SweepTally<R2, E2, N2, F2>,
)
    requires
        first.accounted(),
        first.total == departure.len() * arrival.len(),
        first.skipped_tof == nonpositive_pairs(departure, arrival),
        second.accounted(),
        second.total == departure.len() * arrival.len(),
        second.skipped_tof == nonpositive_pairs(departure, arrival),
    ensures
        first.total == second.total,
        first.skipped_tof == second.skipped_tof,
        first.skipped_tof <= first.total,
        first.solutions.len() + first.skipped_singularity + first.skipped_solver
            + first.skipped_ephemeris == departure.len() * arrival.len() - nonpositive_pairs(
            departure,
            arrival,
        ),
        second.solutions.len() + second.skipped_singularity + second.skipped_solver
            + second.skipped_ephemeris == departure.len() * arrival.len() - nonpositive_pairs(
            departure,
            arrival,
        ),
{
    lemma_nonpositive_pairs_bounded(departure, arrival);
}

} // verus!
