use vstd::prelude::*;
use crate::data_model::device::Device;
use crate::data_model::time::{Milliseconds, Timespan};

verus! {

/// A piece of work that a device is to run once, for `duration`, at some
/// time within `timespan`.
///
/// `effect` is the power draw of the device, copied when the task is made,
/// so that a later change of the device does not reach the task.
#[derive(Clone, Copy, Debug, PartialEq, Eq, Hash, Structural)]
pub struct Task {
    pub id: i64,
    pub device_id: i64,
    pub timespan: Timespan,
    pub duration: Milliseconds,
    pub effect: u32,
}

impl Task {
    /// Whether the task can be run at all: its window is a valid span and
    /// its duration is a proper duration that fits into the window.
    pub open spec fn valid(&self) -> bool {
        &&& self.timespan.valid()
        &&& self.duration.is_duration()
        &&& self.duration@ <= self.timespan.length()
    }

    /// Tests [`Task::valid`].
    pub fn is_valid(&self) -> (r: bool)
        ensures
            r == self.valid(),
    {
        self.timespan.is_valid() && self.duration.is_non_negative() && self.timespan.at_least(
            self.duration,
        )
    }

    /// The task `id` for `device`, with the device's effect copied in, or
    /// `None` when such a task would not be valid.
    pub fn for_device(id: i64, device: &Device, timespan: Timespan, duration: Milliseconds) -> (r:
        Option<Task>)
        ensures
            r == Task::for_device_spec(id, *device, timespan, duration),
    {
        let task = Task { id, device_id: device.id, timespan, duration, effect: device.effect };
        if task.is_valid() {
            Some(task)
        } else {
            None
        }
    }

    /// What [`Task::for_device`] returns.
    pub open spec fn for_device_spec(
        id: i64,
        device: Device,
        timespan: Timespan,
        duration: Milliseconds,
    ) -> Option<Task> {
        let task = Task { id, device_id: device.id, timespan, duration, effect: device.effect };
        if task.valid() {
            Some(task)
        } else {
            None
        }
    }
}

} // verus!
