use vstd::prelude::*;

verus! {

/// A device that an account owns.
///
/// `effect` is the device's power draw while it runs, in the unit in which
/// the capacity graph counts capacity.
#[derive(Clone, Copy, Debug, PartialEq, Eq, Hash, Structural)]
pub struct Device {
    pub id: i64,
    pub effect: u32,
    pub account_id: i64,
}

} // verus!
