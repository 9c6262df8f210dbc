use vstd::prelude::*;

verus! {

/// The closed set of scheduling classes, ordered `High > Medium > Low`.
#[derive(Clone, Copy, Debug, PartialEq, Eq, Structural)]
pub enum PriorityLevel {
    High,
    Medium,
    Low,
}

/// Numeric rank of a priority class: a class of higher rank is served first.
pub open spec fn rank(p: PriorityLevel) -> int {
    match p {
        PriorityLevel::High => 2,
        PriorityLevel::Medium => 1,
        PriorityLevel::Low => 0,
    }
}

impl PriorityLevel {
    /// Executable rank, agreeing with the specification-level `rank`.
    pub fn rank_value(&self) -> (r: u8)
        ensures
            r as int == rank(*self),
    {
        match self {
            PriorityLevel::High => 2,
            PriorityLevel::Medium => 1,
            PriorityLevel::Low => 0,
        }
    }
}

} // verus!
