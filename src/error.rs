use vstd::prelude::*;

verus! {

/// What can go wrong in a bisection step.
#[derive(Debug, Clone, Copy, PartialEq, Eq, Structural)]
pub enum BisectError {
    /// A tag name is not in the catalog.
    NotFound,
    /// No release in the catalog falls on the date that was looked for.
    NoMatchingRelease,
    /// The catalog holds no release at all.
    EmptyCatalog,
    /// Positions or state do not allow the operation (a good release newer than a bad
    /// one, a verdict with no active release).
    PreconditionViolation,
    /// Every midpoint tried inside the window was skipped.
    PathologicalSkip,
    /// A date computation left the range that the calendar can represent.
    DateOutOfRange,
    /// A commit did not have exactly one parent.
    UnexpectedParents,
}

} // verus!
