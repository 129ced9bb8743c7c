//! The library's error type.
use vstd::prelude::*;

verus! {

/// Errors that can occur during configuration, ephemeris loading, solving, or output.
#[derive(Debug)]
pub enum LambertoError {
    /// Invalid or missing configuration.
    Config(String),
    /// Ephemeris query or body resolution failure.
    Ephemeris(String),
    /// Lambert solver failure.
    Solver(String),
    /// File or I/O error during output writing.
    Output(String),
}

/// The message of an error as it is shown to the user: a prefix naming the
/// kind of error, then the error's own text.
pub open spec fn error_message(e: LambertoError) -> Seq<char> {
    match e {
        LambertoError::Config(msg) => "config error: "@ + msg@,
        LambertoError::Ephemeris(msg) => "ephemeris error: "@ + msg@,
        LambertoError::Solver(msg) => "solver error: "@ + msg@,
        LambertoError::Output(msg) => "output error: "@ + msg@,
    }
}

impl LambertoError {
    /// The user-facing message of this error.
    pub fn to_string(&self) -> (s: String)
        ensures
            s@ == error_message(*self),
    {
        let (prefix, msg) = match self {
            LambertoError::Config(msg) => ("config error: ", msg),
            LambertoError::Ephemeris(msg) => ("ephemeris error: ", msg),
            LambertoError::Solver(msg) => ("solver error: ", msg),
            LambertoError::Output(msg) => ("output error: ", msg),
        };
        let mut s = String::from_str(prefix);
        s.append(msg.as_str());
        s
    }
}

} // verus!
