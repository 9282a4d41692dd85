//! Peer discovery and file transfer over a local network.
//!
//! Two subsystems make up the library. Discovery answers broadcast probes
//! with the local host's identity and parses the responses other hosts send
//! back. Transfer frames a file as a length-prefixed filename handshake
//! followed by the raw bytes, and decodes such a stream on the receiving
//! side. All socket and file I/O stays outside the library; callers hand in
//! the bytes they received and send out the bytes they get back.

use vstd::prelude::*;

pub mod device;
pub mod discovery;
pub mod transfer;

verus! {

/// UDP port on which the responder listens for discovery probes.
pub const DISCOVERY_PORT: u16 = 34254;

/// UDP port from which the prober broadcasts its probe.
pub const PROBE_PORT: u16 = 34255;

/// TCP port on which the transfer listener accepts connections.
pub const TRANSFER_PORT: u16 = 7878;

} // verus!
