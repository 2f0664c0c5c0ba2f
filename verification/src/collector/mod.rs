//! From per-packet samples to the figures that are reported.

pub mod mos;
pub mod stats;
