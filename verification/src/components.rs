//! The devices that this server ships with.

pub mod devices;
