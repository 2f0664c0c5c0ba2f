//! Work assigned by the controller, and when to do it.

pub mod plan;
