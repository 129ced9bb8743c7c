//! Interplanetary trajectory scanning: the verified core.
//!
//! The library resolves the bodies of a sweep, lays out the departure and
//! arrival date grids in nanoseconds in the windows' time scale, runs the
//! per-point pipeline over the grid (time-of-flight check, ephemeris queries, singularity check, Lambert
//! solve) and keeps the sweep's bookkeeping. The floating-point geometry and
//! the solver itself are supplied by the caller as closures.
pub mod grid;
pub mod scan;
pub mod text;
pub mod transfer;
pub mod bodies;
pub mod epoch;
pub mod error;

pub use error::LambertoError;
