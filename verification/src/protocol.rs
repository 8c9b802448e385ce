pub mod accounts;
pub mod devices;
pub mod tasks;
