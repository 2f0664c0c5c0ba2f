//! Wire protocols spoken by the probe data plane.
//!
//! [`mqp`] is the native format. [`twamp`] is RFC 5357 unauthenticated mode,
//! for interop with carrier responders and test sets.

pub mod laws;
pub mod mqp;
pub mod twamp;
