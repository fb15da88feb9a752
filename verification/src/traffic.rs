//! The parameters of a traffic description and the limits they must keep.

use vstd::prelude::*;

verus! {

/// The largest number of packets that a description may ask for.
pub const MAX_TOTAL_PACKETS: u64 = 600_000;

/// The smallest number of packets that a description may ask for.
pub const MIN_TOTAL_PACKETS: u64 = 2;

/// The largest initial window, in bytes.
pub const MAX_INIT_WIN_BYTES: u64 = 65_536;

/// The parameters of a traffic description.
#[derive(Clone, Copy, Debug, PartialEq, Eq, Structural)]
pub struct TrafficParams {
    pub psh: u64,
    pub flow_duration: u64,
    pub syn: u64,
    pub ack: u64,
    pub total_packets: u64,
    pub total_length_of_forwarded_packets: u64,
    pub init_win_bytes_forward: u64,
    pub active_min: u64,
    pub flow_iat_min: u64,
}

impl TrafficParams {
    /// At most one SYN and one PSH, an initial window of at most 65536
    /// bytes, and from 2 to 600000 packets.
    pub open spec fn valid(self) -> bool {
        &&& self.syn <= 1
        &&& self.psh <= 1
        &&& self.init_win_bytes_forward <= MAX_INIT_WIN_BYTES
        &&& MIN_TOTAL_PACKETS <= self.total_packets <= MAX_TOTAL_PACKETS
    }

    /// Whether the parameters keep their limits; see [`TrafficParams::valid`].
    pub fn is_valid(&self) -> (r: bool)
        ensures
            r == self.valid(),
    {
        !(self.syn > 1 || self.psh > 1 || self.init_win_bytes_forward > MAX_INIT_WIN_BYTES
            || self.total_packets > MAX_TOTAL_PACKETS || self.total_packets < MIN_TOTAL_PACKETS)
    }
}

} // verus!
