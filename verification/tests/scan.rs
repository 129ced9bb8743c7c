use std::cell::Cell;

use anise::constants::frames::{EARTH_MOON_BARYCENTER_J2000, MARS_BARYCENTER_J2000};
use lamberto::bodies::BodySpec;
use anise::prelude::{Epoch, TimeScale};
use lamberto::grid::{axis_len, epoch_grid, GridAxis};
use lamberto::epoch::epoch_text_is_safe;
use lamberto::scan::{
    first_min_index, prepare_sweep, run_sweep, sweep_point_count, PointOutcome, SweepDiagnostic,
    SweepResult,
};
use lamberto::LambertoError;

const DAY_NS: i128 = 86_400_000_000_000;

fn axis(start_ns: i128, end_ns: i128, step_ns: i128) -> GridAxis {
    GridAxis { start_ns, end_ns, step_ns }
}

type Diag = (&'static str, i128, i128);
type Row = (i128, i128);
type Res = SweepResult<Row, Diag, Diag, Diag>;

/// A pipeline whose states are the epochs themselves, that reports the
/// geometry singular when the time of flight is a multiple of 3 units, and
/// whose solver fails when it is a multiple of 5.
fn synthetic(
    name: &str,
    departure: GridAxis,
    arrival: GridAxis,
) -> Res {
    run_sweep(
        name.to_string(),
        departure,
        arrival,
        |d: i128| -> Result<i128, Diag> { Ok(d) },
        |a: i128| -> Result<i128, Diag> { Ok(a) },
        |d: i128, a: i128, _s1: &i128, _s2: &i128| -> Option<Diag> {
            if (a - d) % 3 == 0 { Some(("singular", d, a)) } else { None }
        },
        |d: i128, a: i128, _s1: &i128, _s2: &i128| -> Result<Row, Diag> {
            if (a - d) % 5 == 0 { Err(("solver", d, a)) } else { Ok((d, a)) }
        },
    )
}

fn count<E, N, F>(r: &SweepResult<impl Sized, E, N, F>) -> (u64, u64, u64) {
    let mut counts = (0, 0, 0);
    for d in &r.diagnostics {
        match d {
            SweepDiagnostic::EphemerisError(_) => counts.0 += 1,
            SweepDiagnostic::NearSingularity(_) => counts.1 += 1,
            SweepDiagnostic::SolverFailure(_) => counts.2 += 1,
        }
    }
    counts
}

fn accounted<R, E, N, F>(r: &SweepResult<R, E, N, F>) -> bool {
    count(r) == (r.skipped_ephemeris, r.skipped_singularity, r.skipped_solver)
        && r.total_points
        == r.solutions.len() as u64
            + r.skipped_tof
            + r.skipped_singularity
            + r.skipped_solver
            + r.skipped_ephemeris
        && r.diagnostics.len() as u64
            == r.skipped_singularity + r.skipped_solver + r.skipped_ephemeris
}

#[test]
fn grid_is_inclusive_of_the_end() {
    assert_eq!(epoch_grid(axis(0, 10, 5)), vec![0, 5, 10]);
    assert_eq!(epoch_grid(axis(0, 9, 5)), vec![0, 5]);
    assert_eq!(epoch_grid(axis(-3, 4, 2)), vec![-3, -1, 1, 3]);
    assert_eq!(epoch_grid(axis(7, 7, 1)), vec![7]);
    assert_eq!(epoch_grid(axis(8, 7, 1)), Vec::<i128>::new());
    assert_eq!(axis_len(axis(0, 10, 5)), 3);
    assert_eq!(axis_len(axis(0, 9, 5)), 2);
    assert_eq!(axis_len(axis(8, 7, 1)), 0);
    assert_eq!(axis_len(axis(0, 365 * DAY_NS, 5 * DAY_NS)), 74);
}

#[test]
fn point_count_of_a_sweep() {
    assert_eq!(sweep_point_count(axis(0, 10, 5), axis(0, 9, 1)), Some(30));
    assert_eq!(sweep_point_count(axis(1, 0, 5), axis(0, 9, 1)), Some(0));
    let huge = axis(0, 1 << 70, 1);
    assert_eq!(sweep_point_count(huge, axis(0, 0, 1)), None);
    assert_eq!(sweep_point_count(huge, axis(1, 0, 1)), Some(0));
    assert_eq!(sweep_point_count(axis(0, (1 << 32) - 1, 1), axis(0, (1 << 32) - 1, 1)), None);
    assert_eq!(
        sweep_point_count(axis(0, (1 << 32) - 1, 1), axis(0, (1 << 31) - 1, 1)),
        Some(1 << 63)
    );
}

#[test]
fn sweep_accounts_for_every_point() {
    let r = synthetic("accounting", axis(0, 20, 2), axis(5, 40, 3));
    assert_eq!(r.name, "accounting");
    assert_eq!(r.total_points, 11 * 12);
    assert!(accounted(&r));
    let mut tof = 0;
    let mut singular = 0;
    let mut solver = 0;
    let mut solutions = Vec::new();
    for d in (0..=20).step_by(2) {
        for a in (5..=40).step_by(3) {
            if a <= d {
                tof += 1;
            } else if (a - d) % 3 == 0 {
                singular += 1;
            } else if (a - d) % 5 == 0 {
                solver += 1;
            } else {
                solutions.push((d, a));
            }
        }
    }
    assert_eq!(r.skipped_tof, tof);
    assert_eq!(r.skipped_singularity, singular);
    assert_eq!(r.skipped_solver, solver);
    assert_eq!(r.skipped_ephemeris, 0);
    assert_eq!(r.solutions, solutions);
}

#[test]
fn arrival_window_before_departure_window_skips_everything() {
    let calls = Cell::new(0u32);
    let r: Res = run_sweep(
        "negative".to_string(),
        axis(100 * DAY_NS, 160 * DAY_NS, 5 * DAY_NS),
        axis(0, 50 * DAY_NS, 5 * DAY_NS),
        |d: i128| -> Result<i128, Diag> {
            calls.set(calls.get() + 1);
            Ok(d)
        },
        |a: i128| -> Result<i128, Diag> { Ok(a) },
        |_d: i128, _a: i128, _s1: &i128, _s2: &i128| -> Option<Diag> { None },
        |d: i128, a: i128, _s1: &i128, _s2: &i128| -> Result<Row, Diag> { Ok((d, a)) },
    );
    assert_eq!(calls.get(), 0);
    assert!(r.solutions.is_empty());
    assert!(r.diagnostics.is_empty());
    assert_eq!(r.total_points, 13 * 11);
    assert_eq!(r.skipped_tof, r.total_points);
}

#[test]
fn equal_epochs_are_a_tof_skip() {
    let r = synthetic("same", axis(10, 10, 1), axis(10, 10, 1));
    assert_eq!(r.total_points, 1);
    assert_eq!(r.skipped_tof, 1);
}

#[test]
fn ephemeris_failures_stop_the_point() {
    let arrival_calls = Cell::new(0u32);
    let r: Res = run_sweep(
        "ephemeris".to_string(),
        axis(0, 3, 1),
        axis(10, 12, 1),
        |d: i128| -> Result<i128, Diag> { if d == 1 { Err(("dep", d, 0)) } else { Ok(d) } },
        |a: i128| -> Result<i128, Diag> {
            arrival_calls.set(arrival_calls.get() + 1);
            if a == 12 { Err(("arr", 0, a)) } else { Ok(a) }
        },
        |_d: i128, _a: i128, _s1: &i128, _s2: &i128| -> Option<Diag> { None },
        |d: i128, a: i128, _s1: &i128, _s2: &i128| -> Result<Row, Diag> { Ok((d, a)) },
    );
    assert_eq!(r.total_points, 12);
    assert_eq!(arrival_calls.get(), 9);
    assert_eq!(r.skipped_ephemeris, 3 + 3);
    assert_eq!(r.solutions.len(), 6);
    assert_eq!(r.diagnostics[0], SweepDiagnostic::EphemerisError(("arr", 0, 12)));
    assert_eq!(r.diagnostics[1], SweepDiagnostic::EphemerisError(("dep", 1, 0)));
    assert!(accounted(&r));
}

#[test]
fn same_grid_counts_the_same_for_any_pipeline() {
    let dep = axis(0, 30, 3);
    let arr = axis(10, 50, 4);
    let a = synthetic("a", dep, arr);
    let b: Res = run_sweep(
        "b".to_string(),
        dep,
        arr,
        |d: i128| -> Result<i128, Diag> { Ok(d) },
        |a: i128| -> Result<i128, Diag> { Ok(a) },
        |_d: i128, _a: i128, _s1: &i128, _s2: &i128| -> Option<Diag> { None },
        |d: i128, a: i128, _s1: &i128, _s2: &i128| -> Result<Row, Diag> { Err(("never", d, a)) },
    );
    assert_eq!(a.total_points, b.total_points);
    assert_eq!(a.skipped_tof, b.skipped_tof);
    assert_eq!(b.solutions.len(), 0);
    assert_eq!(b.skipped_solver, b.total_points - b.skipped_tof);
}

#[test]
fn record_counts_each_outcome() {
    let mut r: SweepResult<u8, u8, u8, u8> = SweepResult::new("r".to_string());
    r.record(PointOutcome::NonPositiveTof);
    r.record(PointOutcome::EphemerisFailure(1));
    r.record(PointOutcome::NearSingularity(2));
    r.record(PointOutcome::SolverFailure(3));
    r.record(PointOutcome::Solution(9));
    r.record(PointOutcome::Solution(8));
    assert_eq!(r.total_points, 6);
    assert_eq!(r.skipped_tof, 1);
    assert_eq!(r.skipped_ephemeris, 1);
    assert_eq!(r.skipped_singularity, 1);
    assert_eq!(r.skipped_solver, 1);
    assert_eq!(
        r.diagnostics,
        vec![
            SweepDiagnostic::EphemerisError(1),
            SweepDiagnostic::NearSingularity(2),
            SweepDiagnostic::SolverFailure(3)
        ]
    );
    assert_eq!(r.solutions, vec![9, 8]);
    assert!(accounted(&r));
}

#[test]
fn first_min_index_prefers_the_earliest() {
    assert_eq!(first_min_index(&vec![]), None);
    assert_eq!(first_min_index(&vec![5]), Some(0));
    assert_eq!(first_min_index(&vec![5, 3, 7, 3, 4]), Some(1));
    assert_eq!(first_min_index(&vec![-1, -9, i64::MIN, i64::MIN]), Some(2));
    assert_eq!(first_min_index(&vec![2, 2, 2]), Some(0));
}

#[test]
fn best_solution_by_keys() {
    let mut r: SweepResult<&str, u8, u8, u8> = SweepResult::new("best".to_string());
    assert_eq!(r.best_solution(&vec![]), None);
    r.record(PointOutcome::Solution("a"));
    r.record(PointOutcome::NonPositiveTof);
    r.record(PointOutcome::Solution("b"));
    r.record(PointOutcome::Solution("c"));
    assert_eq!(r.best_solution(&vec![4, 1, 1]), Some(&"b"));
    assert_eq!(r.best_solution(&vec![0, 1, 1]), Some(&"a"));
}

fn window(dep_start: &str, dep_end: &str, arr_start: &str, arr_end: &str) -> Result<[i128; 4], LambertoError> {
    prepare_sweep(&BodySpec::Id(3), &BodySpec::Id(4), dep_start, dep_end, arr_start, arr_end)
        .map(|s| [s.departure_start_ns, s.departure_end_ns, s.arrival_start_ns, s.arrival_end_ns])
}

fn parse_error(text: &str) -> String {
    text.parse::<Epoch>().unwrap_err().to_string()
}

#[test]
fn epochs_parse_to_tdb_nanoseconds() {
    let w = window(
        "2000-01-01 12:00:00 TDB",
        "2000-01-02 12:00:00 TDB",
        "2026-01-01 00:00:00 TDB",
        "2026-12-31 00:00:00 TDB",
    )
    .unwrap();
    assert_eq!(w[0], 0);
    assert_eq!(w[1], DAY_NS);
    assert_eq!(w[3] - w[2], 364 * DAY_NS);
    let w = window(
        "2000-01-01 11:59:59 TDB",
        "1999-12-31 12:00:00 TDB",
        "2000-01-01 12:00:01 TDB",
        "2000-01-01 12:00:00 TDB",
    )
    .unwrap();
    assert_eq!(w, [-1_000_000_000, -DAY_NS, 1_000_000_000, 0]);
}

#[test]
fn unparsable_epochs_are_config_errors() {
    let good = "2026-01-01 00:00:00 TDB";
    for bad in ["not an epoch", "", "2026-13-45 00:00:00 TDB"] {
        match window(bad, good, good, good) {
            Err(LambertoError::Config(m)) => assert_eq!(m, parse_error(bad)),
            _ => panic!("{bad:?} should not parse"),
        }
    }
}

#[test]
fn prepare_sweep_resolves_and_parses() {
    let setup = prepare_sweep(
        &BodySpec::Name("Earth".to_string()),
        &BodySpec::Id(4),
        "2026-01-01 00:00:00 TDB",
        "2026-12-31 00:00:00 TDB",
        "2026-06-01 00:00:00 TDB",
        "2027-12-31 00:00:00 TDB",
    )
    .unwrap();
    assert_eq!(setup.departure_frame, EARTH_MOON_BARYCENTER_J2000);
    assert_eq!(setup.arrival_frame, MARS_BARYCENTER_J2000);
    assert_eq!(setup.departure_end_ns - setup.departure_start_ns, 364 * DAY_NS);
    assert_eq!(setup.arrival_start_ns - setup.departure_start_ns, 151 * DAY_NS);
    assert_eq!(setup.arrival_end_ns - setup.departure_start_ns, 729 * DAY_NS);
}

#[test]
fn prepare_sweep_reports_the_first_problem() {
    let good = "2026-01-01 00:00:00 TDB";
    let bad = "garbage";
    let r = prepare_sweep(&BodySpec::Id(42), &BodySpec::Id(43), bad, bad, bad, bad);
    match r {
        Err(LambertoError::Ephemeris(m)) => assert_eq!(m, "Unknown NAIF barycenter ID: 42"),
        _ => panic!("expected the departure body error"),
    }
    let r = prepare_sweep(&BodySpec::Id(3), &BodySpec::Name("Vulcan".to_string()), bad, bad, bad, bad);
    match r {
        Err(LambertoError::Ephemeris(m)) => assert_eq!(m, "Unknown body name: Vulcan"),
        _ => panic!("expected the arrival body error"),
    }
    let expected = parse_error(bad);
    let r = prepare_sweep(&BodySpec::Id(3), &BodySpec::Id(4), good, good, good, bad);
    match r {
        Err(LambertoError::Config(m)) => assert_eq!(m, expected),
        _ => panic!("expected the arrival end parse error"),
    }
    let r = prepare_sweep(&BodySpec::Id(3), &BodySpec::Id(4), good, "also bad", good, bad);
    match r {
        Err(LambertoError::Config(m)) => {
            assert_eq!(m, parse_error("also bad"))
        }
        _ => panic!("expected the departure end parse error"),
    }
}

#[test]
fn error_messages_name_their_kind() {
    assert_eq!(LambertoError::Config("x".to_string()).to_string(), "config error: x");
    assert_eq!(LambertoError::Ephemeris("y".to_string()).to_string(), "ephemeris error: y");
    assert_eq!(LambertoError::Solver("z".to_string()).to_string(), "solver error: z");
    assert_eq!(LambertoError::Output("w".to_string()).to_string(), "output error: w");
}

#[test]
fn sweep_diagnostics_come_in_point_order_with_their_kind() {
    let r = synthetic("kinds", axis(0, 0, 1), axis(1, 10, 1));
    let expected: Vec<SweepDiagnostic<Diag, Diag, Diag>> = vec![
        SweepDiagnostic::NearSingularity(("singular", 0, 3)),
        SweepDiagnostic::SolverFailure(("solver", 0, 5)),
        SweepDiagnostic::NearSingularity(("singular", 0, 6)),
        SweepDiagnostic::NearSingularity(("singular", 0, 9)),
        SweepDiagnostic::SolverFailure(("solver", 0, 10)),
    ];
    assert_eq!(r.diagnostics, expected);
    assert_eq!(r.solutions, vec![(0, 1), (0, 2), (0, 4), (0, 7), (0, 8)]);
    assert_eq!((r.skipped_singularity, r.skipped_solver), (3, 2));
    assert!(accounted(&r));
}

const UNSUPPORTED: &str = "Unsupported epoch (a number that may not be finite, a fraction of a second beyond nine digits, or the year 2147483647): ";

#[test]
fn unsafe_numeric_epochs_are_refused() {
    let good = "2026-01-01 00:00:00 TDB";
    for bad in [
        "SEC inf TDB",
        "SEC NaN TDB",
        "SEC 1e400 TDB",
        "SEC 12345e305 TDB",
        "  JD infinity TDB ",
        "MJD -INF TAI",
        "\u{a0}SEC inf TDB",
        "2026-01-01T00:00:00.1234567890 TDB",
        "2026-01-01T00:00:00.0000000001 TDB",
        "2147483647-12-31T23:59:00 TDB",
    ] {
        assert!(!epoch_text_is_safe(bad));
        match window(good, good, bad, good) {
            Err(LambertoError::Config(m)) => assert_eq!(m, format!("{UNSUPPORTED}{bad}")),
            _ => panic!("{bad:?} should be refused"),
        }
    }
}

#[test]
fn numeric_epochs_parse() {
    assert!(epoch_text_is_safe("SEC 0.5 TDB"));
    assert!(epoch_text_is_safe("JD 2451545.0 TDB"));
    assert!(epoch_text_is_safe("2026-01-01 00:00:00 TDB"));
    assert!(epoch_text_is_safe("not an epoch"));
    assert!(epoch_text_is_safe("\u{e9}t\u{e9} 2026"));
    assert!(epoch_text_is_safe("\u{e9} SEC 1 TDB"));
    assert!(epoch_text_is_safe("SEC 1e30 TDB"));
    assert!(epoch_text_is_safe("SEC 1e-400 TDB"));
    assert!(epoch_text_is_safe("SEC 1e307 GPS"));
    assert!(epoch_text_is_safe("2026-01-01T00:00:00.123456789 TDB"));
    assert!(!epoch_text_is_safe("SEC 1e309 TDB"));
    let e = window("JD 2.46e6 TDB", "JD 2460000.0 TDB", "SEC 1e3 TDB", "SEC 1000 TDB").unwrap();
    assert_eq!(e[0], e[1]);
    assert_eq!(e[2], e[3]);
    let w = window("SEC 0.5 TDB", "SEC -2 TDB", "SEC 86400 TDB", "SEC 10000000000000 TDB").unwrap();
    assert_eq!(w[0], 500_000_000);
    assert_eq!(w[1], -2_000_000_000);
    assert_eq!(w[2], DAY_NS);
    assert_eq!(w[3], 10_000_000_000_000 * 1_000_000_000);
    let j = window("JD 2451545.0 TDB", "JD 2451546.0 TDB", "MJD 51544.5 TAI", "SEC 0.5 TAI").unwrap();
    assert!((j[1] - j[0] - DAY_NS).abs() < 1_000_000);
}

#[test]
fn checked_axes() {
    assert_eq!(GridAxis::checked(0, 10, 5), Some(axis(0, 10, 5)));
    assert_eq!(GridAxis::checked(10, 0, 5), Some(axis(10, 0, 5)));
    assert_eq!(GridAxis::checked(0, 10, 0), None);
    assert_eq!(GridAxis::checked(0, 10, -1), None);
    assert_eq!(GridAxis::checked(0, 10, 1 << 100), Some(axis(0, 10, 1 << 100)));
    assert_eq!(GridAxis::checked(0, 10, (1 << 100) + 1), None);
    assert_eq!(GridAxis::checked(-(1 << 100) - 1, 10, 1), None);
    assert_eq!(GridAxis::checked(0, (1 << 100) + 1, 1), None);
}

#[test]
fn windows_in_one_time_scale_stay_in_it() {
    let setup = prepare_sweep(
        &BodySpec::Id(3),
        &BodySpec::Id(4),
        "2026-01-01 00:00:00 UTC",
        "2026-01-02 00:00:00 UTC",
        "2026-06-01 00:00:00 UTC",
        "2026-06-01 00:00:00 UTC",
    )
    .unwrap();
    assert_eq!(setup.time_scale, Some(TimeScale::UTC));
    assert_eq!(setup.departure_end_ns - setup.departure_start_ns, DAY_NS);
    assert_eq!(setup.arrival_start_ns, setup.arrival_end_ns);
    let utc: Epoch = "2026-01-01 00:00:00 UTC".parse().unwrap();
    assert_eq!(setup.departure_start_ns, utc.duration.total_nanoseconds());

    let tdb = prepare_sweep(
        &BodySpec::Id(3),
        &BodySpec::Id(4),
        "2026-01-01 00:00:00 TDB",
        "2026-01-02 00:00:00 TDB",
        "2026-06-01 00:00:00 TDB",
        "2026-06-01 00:00:00 TDB",
    )
    .unwrap();
    assert_eq!(tdb.time_scale, Some(TimeScale::TDB));
}

#[test]
fn windows_in_mixed_time_scales_go_to_tdb() {
    let setup = prepare_sweep(
        &BodySpec::Id(3),
        &BodySpec::Id(4),
        "2026-01-01 00:00:00 UTC",
        "2026-01-02 00:00:00 TDB",
        "2026-06-01 00:00:00 TAI",
        "2026-06-01 00:00:00 TDB",
    )
    .unwrap();
    assert_eq!(setup.time_scale, None);
    let utc: Epoch = "2026-01-01 00:00:00 UTC".parse().unwrap();
    assert_eq!(setup.departure_start_ns, utc.to_tdb_duration().total_nanoseconds());
    let tdb: Epoch = "2026-01-02 00:00:00 TDB".parse().unwrap();
    assert_eq!(setup.departure_end_ns, tdb.to_tdb_duration().total_nanoseconds());
}
