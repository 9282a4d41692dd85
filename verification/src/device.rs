//! The record a discovery call returns for each peer that answered.

use vstd::prelude::*;

verus! {

/// A peer found on the local network: its address and the identity it
/// reported. Fields that a peer's response did not carry hold "Unknown".
#[derive(Clone, Debug)]
pub struct Device {
    /// The peer's IP address, as the text of the datagram's source address.
    pub ip: String,
    /// The hostname the peer reported on its `NAME:` line.
    pub hostname: String,
    /// The operating-system label the peer reported on its `OS:` line.
    pub os: String,
}

/// The mathematical value of a peer record: its three fields as character
/// sequences.
pub struct DeviceView {
    pub ip: Seq<char>,
    pub hostname: Seq<char>,
    pub os: Seq<char>,
}

impl View for Device {
    type V = DeviceView;

    open spec fn view(&self) -> DeviceView {
        DeviceView { ip: self.ip@, hostname: self.hostname@, os: self.os@ }
    }
}

} // verus!
