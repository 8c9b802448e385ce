//! Task-to-timeslot assignment for flexible, power-consuming device tasks.
//!
//! A capacity graph describes, bucket by bucket, how much device effect a
//! supply can still absorb. The scheduler places pending tasks into the
//! buckets with the most remaining capacity and records each placement as
//! an event. Around this core stand the plain records that a service
//! exchanges with its clients.

pub mod error;
pub mod data_model;
pub mod scheduling;
pub mod extractors;
pub mod protocol;
