use vstd::prelude::*;
use crate::data_model::device::Device;

verus! {

/// What a client sends to register a device: its effect.
#[derive(Clone, Copy, Debug, PartialEq, Eq, Structural)]
pub struct CreateDeviceRequest {
    pub effect: u32,
}

impl CreateDeviceRequest {
    /// The device of account `account_id` that the request asks for, once
    /// it has been given the id `id`.
    pub fn into_device(self, id: i64, account_id: i64) -> (device: Device)
        ensures
            device == (Device { id, effect: self.effect, account_id }),
    {
        Device { id, effect: self.effect, account_id }
    }
}

} // verus!
