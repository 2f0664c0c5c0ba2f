//! Network discovery: reducing the host router's local state to explanations.
//!
//! An operator asking "why is this site slow" is not helped by an inventory.
//! Collectors read raw RouterOS state; [`findings`] turns it into a short,
//! ranked list of things that are actually wrong.

pub mod capture;
pub mod capture_laws;
pub mod collect;
pub mod findings;
pub mod group;
pub mod laws;
pub mod path_laws;
pub mod reading_laws;
pub mod session;
pub mod session_laws;
pub mod tools;
