pub mod time;
pub mod graph;
pub mod device;
pub mod task;
pub mod event;
