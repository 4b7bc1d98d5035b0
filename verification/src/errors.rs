//! Failure conditions reported on the diagnostic channel. Each is scoped
//! to one statement, place, or instance; none aborts the analysis.

use vstd::prelude::*;

verus! {

/// Coarse classification of a reported failure.
#[derive(Clone, Copy, Debug, PartialEq, Eq, Structural)]
pub enum AnalysisErrorKind {
    /// a legitimate but unmodeled program shape
    Unimplemented,
    /// an entity outside the analysis' scope (no body available)
    OutOfScope,
}

/// The failure conditions this analysis reports.
#[derive(Clone, Copy, Debug, PartialEq, Eq, Structural)]
pub enum SimpleAndersonError {
    /// the constraint set was produced but not checked against a solver
    ConstraintCheck,
    /// the instance's body is unavailable (external or foreign entity)
    BodyNotFound,
    /// a place projection other than dereference
    UnsupportedProjection,
    /// a right-hand-side shape the analysis does not model
    UnsupportedRvalue,
    /// a statement kind the analysis does not model
    UnsupportedStatement,
    /// a constant or non-pointer source assigned into a pointer destination
    UnsupportedConstantPointer,
    /// a pointer-producing cast the analysis does not model
    UnsupportedPointerCast,
}

impl SimpleAndersonError {
    /// The kind a given error reports under.
    pub open spec fn kind_spec(self) -> AnalysisErrorKind {
        match self {
            SimpleAndersonError::BodyNotFound => AnalysisErrorKind::OutOfScope,
            _ => AnalysisErrorKind::Unimplemented,
        }
    }

    pub fn kind(&self) -> (r: AnalysisErrorKind)
        ensures
            r == self.kind_spec(),
    {
        match self {
            SimpleAndersonError::ConstraintCheck => AnalysisErrorKind::Unimplemented,
            SimpleAndersonError::BodyNotFound => AnalysisErrorKind::OutOfScope,
            SimpleAndersonError::UnsupportedProjection => AnalysisErrorKind::Unimplemented,
            SimpleAndersonError::UnsupportedRvalue => AnalysisErrorKind::Unimplemented,
            SimpleAndersonError::UnsupportedStatement => AnalysisErrorKind::Unimplemented,
            SimpleAndersonError::UnsupportedConstantPointer => AnalysisErrorKind::Unimplemented,
            SimpleAndersonError::UnsupportedPointerCast => AnalysisErrorKind::Unimplemented,
        }
    }
}

} // verus!
