use vstd::prelude::*;
use crate::data_model::device::Device;
use crate::data_model::task::Task;
use crate::data_model::time::{Milliseconds, Timespan};

verus! {

/// What a client sends to have a task planned for one of its devices.
#[derive(Clone, Copy, Debug, PartialEq, Eq, Structural)]
pub struct CreateTaskRequest {
    pub timespan: Timespan,
    pub duration: Milliseconds,
    pub device_id: i64,
}

impl CreateTaskRequest {
    /// The task that the request asks for, once it has been given the id
    /// `id`, with the effect of `device` copied in. `None` when `device`
    /// is not the device that the request names, or when the task would not
    /// be valid.
    pub fn into_task(self, id: i64, device: &Device) -> (r: Option<Task>)
        ensures
            r == if device.id == self.device_id {
                Task::for_device_spec(id, *device, self.timespan, self.duration)
            } else {
                None
            },
    {
        if device.id == self.device_id {
            Task::for_device(id, device, self.timespan, self.duration)
        } else {
            None
        }
    }
}

} // verus!
