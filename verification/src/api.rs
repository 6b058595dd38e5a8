//! The server's request-independent logic, by concern.

pub mod auth;
pub mod control_options;
pub mod device;
pub mod dynamic;
pub mod hub;
pub mod routes;
pub mod util;
