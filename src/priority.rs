//! Priorities as the command line names them: 1 is the most urgent.
use vstd::prelude::*;

use crate::rest::Priority as RestPriority;

verus! {

/// Maps priority from arguments to API priorities.
#[derive(Debug, Clone, Copy, PartialEq, Eq, Structural)]
pub enum Priority {
    /// `1` on the command line.
    Urgent,
    /// `2` on the command line.
    VeryHigh,
    /// `3` on the command line.
    High,
    /// `4` on the command line.
    Normal,
}

/// Why a number does not name a priority.
#[derive(Debug, Clone, Copy, PartialEq, Eq, Structural)]
pub enum PriorityError {
    /// Only 1 to 4 name priorities.
    OutOfRange,
}

impl Priority {
    /// The number that names this priority on the command line.
    pub open spec fn spec_number(self) -> usize {
        match self {
            Priority::Urgent => 1,
            Priority::VeryHigh => 2,
            Priority::High => 3,
            Priority::Normal => 4,
        }
    }

    /// The priority that the command line names with `value`: 1 is the most
    /// urgent, 4 the least.
    pub fn try_from(value: usize) -> (r: Result<Priority, PriorityError>)
        ensures
            r is Ok <==> 1 <= value <= 4,
            r matches Ok(p) ==> p.spec_number() == value,
            r is Err ==> r == Err::<Priority, PriorityError>(PriorityError::OutOfRange),
    {
        match value {
            1 => Ok(Priority::Urgent),
            2 => Ok(Priority::VeryHigh),
            3 => Ok(Priority::High),
            4 => Ok(Priority::Normal),
            _ => Err(PriorityError::OutOfRange),
        }
    }
}

/// The API priority of a command-line priority: the API counts the other way,
/// with 4 for Urgent.
pub open spec fn spec_to_rest(p: Priority) -> RestPriority {
    match p {
        Priority::Normal => RestPriority::Normal,
        Priority::High => RestPriority::High,
        Priority::VeryHigh => RestPriority::VeryHigh,
        Priority::Urgent => RestPriority::Urgent,
    }
}

impl From<Priority> for RestPriority {
    fn from(p: Priority) -> (r: RestPriority)
        ensures
            r == spec_to_rest(p),
    {
        match p {
            Priority::Normal => RestPriority::Normal,
            Priority::High => RestPriority::High,
            Priority::VeryHigh => RestPriority::VeryHigh,
            Priority::Urgent => RestPriority::Urgent,
        }
    }
}

impl vstd::std_specs::convert::FromSpecImpl<Priority> for RestPriority {
    open spec fn obeys_from_spec() -> bool {
        true
    }

    open spec fn from_spec(p: Priority) -> RestPriority {
        spec_to_rest(p)
    }
}

/// The two numberings add up to five: command-line 1 is API 4, and so on.
pub proof fn lemma_numbers_mirror(p: Priority)
    ensures
        p.spec_number() + spec_to_rest(p).spec_value() == 5,
{
}

} // verus!
