//! Packet-capture tooling with machine-checked contracts.
//!
//! The library reads and writes capture files, splits a capture into one
//! capture per flow, and paces the replay of a capture so that packets leave
//! with the gaps with which they were captured.
//!
//! * [`timestamp`], [`packet`]: capture times, the durations between them,
//!   and the packet model.
//! * [`capture_format`], [`source`]: the capture file format as functions
//!   between values and bytes, and a packet source over the bytes of a file.
//! * [`decode`]: the layers of a frame, as `etherparse` slices it.
//! * [`flow`], [`flow_map`], [`naming`], [`segment`]: flow keys, the table of
//!   open flows, the names of flow files, and the split of a capture.
//! * [`replay`]: the replay clock, the replay window and the engine that
//!   says when to send.
//! * [`extract`]: cutting a time range and a set of destinations out of a
//!   capture.
//! * [`policy`], [`shutdown`], [`traffic`]: how conditions are handled, the
//!   steps of an interruptible capture, and the limits of a traffic
//!   description.
//!
//! Nothing here touches a file, a device or a clock: the owner of those
//! hands in bytes and clock readings and carries out what it is told.

pub mod capture_format;
pub mod decode;
pub mod extract;
pub mod flow;
pub mod flow_map;
pub mod naming;
pub mod packet;
pub mod policy;
pub mod replay;
pub mod segment;
pub mod shutdown;
pub mod source;
pub mod timestamp;
pub mod traffic;
