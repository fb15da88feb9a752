//! The packet model shared by the capture codec, the flow table and the
//! replay engine.

use vstd::prelude::*;
use crate::timestamp::Timestamp;

verus! {

/// A captured packet: when it was seen, the bytes that were kept, how many of
/// them count as captured, and how long the packet was on the wire.
#[derive(Clone, Debug)]
pub struct Packet {
    pub timestamp: Timestamp,
    pub data: Vec<u8>,
    pub captured_len: u32,
    pub original_len: u32,
}

/// The mathematical value of a [`Packet`].
pub struct PacketView {
    pub timestamp: Timestamp,
    pub data: Seq<u8>,
    pub captured_len: u32,
    pub original_len: u32,
}

impl PacketView {
    /// The timestamp is well formed and the captured length does not exceed
    /// the bytes that are held.
    pub open spec fn wf(self) -> bool {
        &&& self.timestamp.wf()
        &&& self.captured_len as int <= self.data.len()
    }

    /// The bytes that count as captured.
    pub open spec fn captured(self) -> Seq<u8> {
        self.data.take(self.captured_len as int)
    }
}

impl View for Packet {
    type V = PacketView;

    open spec fn view(&self) -> PacketView {
        PacketView {
            timestamp: self.timestamp,
            data: self.data@,
            captured_len: self.captured_len,
            original_len: self.original_len,
        }
    }
}

impl Packet {
    /// See [`PacketView::wf`].
    pub open spec fn wf(&self) -> bool {
        self@.wf()
    }

    /// Whether the packet is well formed; see [`PacketView::wf`].
    pub fn is_well_formed(&self) -> (r: bool)
        ensures
            r == self.wf(),
    {
        self.timestamp.is_well_formed() && self.captured_len as usize <= self.data.len()
    }

    /// Builds a packet whose captured length is the length of `data`.
    ///
    /// Returns `None` exactly when `data` is too long for a 32-bit length.
    pub fn new(timestamp: Timestamp, data: Vec<u8>, original_len: u32) -> (r: Option<Packet>)
        ensures
            r is Some <==> data@.len() <= u32::MAX,
            r matches Some(p) ==> {
                &&& p@.timestamp == timestamp
                &&& p@.data == data@
                &&& p@.captured_len as int == data@.len()
                &&& p@.original_len == original_len
            },
    {
        let n: usize = data.len();
        if n <= u32::MAX as usize {
            Some(Packet { timestamp, data, captured_len: n as u32, original_len })
        } else {
            None
        }
    }
}

} // verus!
