use vstd::prelude::*;

verus! {

/// Everything that can go wrong in the time model, the capacity graph and
/// the scheduler.
#[derive(Clone, Copy, Debug, PartialEq, Eq, Hash, Structural)]
pub enum ErrorKind {
    /// A timespan was requested whose start is not before its end.
    InvalidSpan,
    /// Arithmetic on time quantities left the representable range.
    DurationOverflow,
    /// The buckets handed to the graph are unsorted, overlapping or of
    /// inconsistent width.
    MalformedGraph,
    /// A planning run was started although no task was ever added.
    NoTasksToSchedule,
    /// Consuming the amount would take a bucket below the capacity floor.
    InsufficientCapacity,
    /// No bucket can take the task.
    NoFeasibleSlot,
}

impl ErrorKind {
    /// A short description for messages and logs.
    pub fn message(&self) -> (text: &'static str)
        ensures
            text@ == self.message_text(),
    {
        match self {
            ErrorKind::InvalidSpan => "timespan start must be before its end",
            ErrorKind::DurationOverflow => "time arithmetic overflowed",
            ErrorKind::MalformedGraph => "capacity graph is malformed",
            ErrorKind::NoTasksToSchedule => "No tasks to schedule",
            ErrorKind::InsufficientCapacity => "insufficient capacity",
            ErrorKind::NoFeasibleSlot => "no feasible slot",
        }
    }

    /// The text that [`ErrorKind::message`] returns.
    pub open spec fn message_text(&self) -> Seq<char> {
        match self {
            ErrorKind::InvalidSpan => "timespan start must be before its end"@,
            ErrorKind::DurationOverflow => "time arithmetic overflowed"@,
            ErrorKind::MalformedGraph => "capacity graph is malformed"@,
            ErrorKind::NoTasksToSchedule => "No tasks to schedule"@,
            ErrorKind::InsufficientCapacity => "insufficient capacity"@,
            ErrorKind::NoFeasibleSlot => "no feasible slot"@,
        }
    }
}

} // verus!
