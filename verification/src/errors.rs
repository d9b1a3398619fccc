use vstd::prelude::*;

verus! {

/// Failures surfaced by the index core.
///
/// Absence of data (no genesis yet, no chunk in a window, no children under a
/// path) is reported as `Option::None` by the lookup functions, never as an
/// error.
#[derive(Clone, Copy, Debug, PartialEq, Eq, Structural)]
pub enum IndexError {
    /// A chunk broke a creation rule: it starts in the future, its width is
    /// not the configured interval, or it is not aligned to the genesis epoch;
    /// or an author has exhausted their link budget on a chunk.
    Validation,
    /// A query window narrower than one chunk interval can never be satisfied.
    Range,
    /// A traversal step found no children below a path node.
    NotFound,
}

impl IndexError {
    /// A short human-readable description of the failure.
    pub fn describe(&self) -> (r: &'static str)
        ensures
            r@ =~= match self {
                IndexError::Validation => "validation rule violated"@,
                IndexError::Range => "time frame is smaller than the chunk interval"@,
                IndexError::NotFound => "no entries found below path"@,
            },
    {
        match self {
            IndexError::Validation => "validation rule violated",
            IndexError::Range => "time frame is smaller than the chunk interval",
            IndexError::NotFound => "no entries found below path",
        }
    }
}

} // verus!
