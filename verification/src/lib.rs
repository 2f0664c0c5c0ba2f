//! Network quality measurement for MikroTik RouterOS: wire formats, path
//! statistics, store-and-forward, task scheduling and network findings.
//!
//! Everything here is plain computation over plain values and carries a
//! contract. Sockets, HTTP and files live in the application around it.

pub mod agent;
pub mod bytes;
pub mod cli;
pub mod collector;
pub mod config;
pub mod controller;
pub mod discovery;
pub mod duration;
pub mod json;
pub mod net;
pub mod net_laws;
pub mod order;
pub mod probe;
pub mod proto;
pub mod round;
pub mod routeros;
pub mod spool;
pub mod spool_laws;
pub mod tasks;
pub mod text;
pub mod text_laws;
