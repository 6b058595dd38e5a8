//! Device control logic of a small home-automation server: control
//! options and their validation, device and hub registries, the commands a
//! hub sends for a control request, cookie and authorization-header parsing,
//! and password hashing.

pub mod string_map;
pub mod text;
pub mod api;
pub mod components;
