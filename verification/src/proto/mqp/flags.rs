//! Flag bits of an MQP header.

use vstd::prelude::*;

verus! {

pub const ECHO_PAYLOAD: u16 = 1;

pub const LAST_PACKET: u16 = 2;

pub const NO_REFLECT: u16 = 4;

pub const REQUEST_DSCP_ECHO: u16 = 8;

/// Bits we understand. Anything else set means the peer is speaking a dialect
/// we don't, and we say so rather than guessing.
pub const KNOWN: u16 = 15;

} // verus!
