use vstd::prelude::*;
use crate::data_model::time::TimeUnit;

verus! {

/// A committed start time for one run of a task on its device.
///
/// Events are made by the scheduler only and never change. A later plan for
/// the same task is a new event with a higher `version_nr`.
#[derive(Clone, Copy, Debug, PartialEq, Eq, Hash, Structural)]
pub struct Event {
    pub id: i64,
    pub device_id: i64,
    pub version_nr: i64,
    pub start_time: TimeUnit,
}

} // verus!
