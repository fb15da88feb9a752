//! Link, network and transport layers of a captured Ethernet frame.
//!
//! Slicing a frame into its headers is the work of the `etherparse` crate.
//! This module keeps of its result what the rest of the library reads: which
//! network layer was found, with its two addresses, and which transport
//! layer, with the two TCP flags that end a conversation.

use vstd::prelude::*;
use etherparse::{InternetSlice, SlicedPacket, TransportSlice};

verus! {

/// The network layer found in a frame, with the source and the destination
/// address as the header holds them, first octet first.
#[allow(inconsistent_fields)]
#[derive(Clone, Copy, Debug, PartialEq, Eq)]
pub enum NetworkLayer {
    Ipv4 { source: [u8; 4], destination: [u8; 4] },
    Ipv6 { source: [u8; 16], destination: [u8; 16] },
    Unrecognized,
}

/// The transport layer found in a frame.
#[derive(Clone, Copy, Debug, PartialEq, Eq, Structural)]
pub enum TransportLayer {
    Tcp { fin: bool, rst: bool },
    Udp,
    Other,
}

/// What slicing a frame found.
#[derive(Clone, Copy, Debug, PartialEq, Eq)]
pub struct Layers {
    pub network: NetworkLayer,
    pub transport: TransportLayer,
}

/// What `etherparse` finds when it slices `frame` as an Ethernet II frame:
/// `None` where it reports an error, the layers it found otherwise.
pub uninterp spec fn sliced_ethernet(frame: Seq<u8>) -> Option<Layers>;

/// Calls `etherparse::SlicedPacket::from_ethernet` on `frame`.
///
/// Trusted: the result is the one that [`sliced_ethernet`] names, which says
/// no more than that slicing the same bytes always gives the same layers.
/// An error of the slicer becomes `None`; the network layer is taken from the
/// `ip` field and the transport layer from the `transport` field of the
/// sliced packet.
#[verifier::external_body]
fn slice_ethernet(frame: &[u8]) -> (r: Option<Layers>)
    ensures
        r == sliced_ethernet(frame@),
{
    let sliced = SlicedPacket::from_ethernet(frame).ok()?;
    let network = match sliced.ip {
        Some(InternetSlice::Ipv4(h, _)) => NetworkLayer::Ipv4 { source: h.source(), destination: h.destination() },
        Some(InternetSlice::Ipv6(h, _)) => NetworkLayer::Ipv6 { source: h.source(), destination: h.destination() },
        None => NetworkLayer::Unrecognized,
    };
    let transport = match sliced.transport {
        Some(TransportSlice::Tcp(t)) => TransportLayer::Tcp { fin: t.fin(), rst: t.rst() },
        Some(TransportSlice::Udp(_)) => TransportLayer::Udp,
        _ => TransportLayer::Other,
    };
    Some(Layers { network, transport })
}

/// The layers of a frame, with a frame that cannot be sliced counted as one
/// without a recognized network or transport layer.
pub open spec fn layers_of(sliced: Option<Layers>) -> Layers {
    match sliced {
        Some(layers) => layers,
        None => Layers { network: NetworkLayer::Unrecognized, transport: TransportLayer::Other },
    }
}

/// Slices `frame` as an Ethernet II frame; `None` where it cannot be sliced.
pub fn try_decode_frame(frame: &[u8]) -> (sliced: Option<Layers>)
    ensures
        sliced == sliced_ethernet(frame@),
{
    slice_ethernet(frame)
}

/// Slices `frame` as an Ethernet II frame and reports its layers.
pub fn decode_frame(frame: &[u8]) -> (layers: Layers)
    ensures
        layers == layers_of(sliced_ethernet(frame@)),
{
    match slice_ethernet(frame) {
        Some(layers) => layers,
        None => Layers { network: NetworkLayer::Unrecognized, transport: TransportLayer::Other },
    }
}

impl Layers {
    /// Whether the frame carries a TCP segment with the FIN or the RST flag.
    pub open spec fn spec_ends_conversation(self) -> bool {
        self.transport matches TransportLayer::Tcp { fin, rst } && (fin || rst)
    }

    /// Whether the frame carries a TCP segment with the FIN or the RST flag.
    #[verifier::when_used_as_spec(spec_ends_conversation)]
    pub fn ends_conversation(self) -> (r: bool)
        ensures
            r == self.spec_ends_conversation(),
    {
        match self.transport {
            TransportLayer::Tcp { fin, rst } => fin || rst,
            _ => false,
        }
    }
}

} // verus!
