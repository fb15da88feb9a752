//! The capture file format: a 24-byte file header followed by records, each a
//! 16-byte record header and the captured bytes.
//!
//! The format is specified here as functions from values to byte sequences
//! and back. The executable encoders and decoders are proved against them, and
//! the round-trip laws at the end of the module are proved from the
//! specifications alone.

use vstd::prelude::*;
use crate::packet::{Packet, PacketView};
use crate::timestamp::Timestamp;

verus! {

/// Byte order of the multi-byte fields of a capture file.
#[derive(Clone, Copy, Debug, PartialEq, Eq, Structural)]
pub enum Endian {
    Little,
    Big,
}

/// Unit of the fractional part of a record's timestamp.
#[derive(Clone, Copy, Debug, PartialEq, Eq, Structural)]
pub enum Resolution {
    Micros,
    Nanos,
}

/// The file header of a capture file.
///
/// Byte order and timestamp resolution are carried by the magic number on
/// disk; the remaining fields are stored as they are.
#[derive(Clone, Copy, Debug, PartialEq, Eq, Structural)]
pub struct FileHeader {
    pub endian: Endian,
    pub resolution: Resolution,
    pub version_major: u16,
    pub version_minor: u16,
    pub zone_correction: u32,
    pub accuracy: u32,
    pub snap_len: u32,
    pub link_type: u32,
}

/// Why a capture file or a record could not be read or written.
#[derive(Clone, Copy, Debug, PartialEq, Eq, Structural)]
pub enum FormatError {
    /// Fewer than 24 bytes where a file header is expected.
    TruncatedHeader,
    /// The first four bytes are none of the four known magic numbers.
    BadMagic,
    /// The bytes end inside a record header or inside a record's data.
    TruncatedRecord,
    /// The fractional part of a record's timestamp is a second or more.
    BadTimestamp,
    /// The seconds of a timestamp do not fit the 32-bit field of a record.
    SecondsOutOfRange,
}

/// Length of the file header in bytes.
pub const FILE_HEADER_LEN: usize = 24;

/// Length of a record header in bytes.
pub const RECORD_HEADER_LEN: usize = 16;

/// Magic number of a file with microsecond timestamps.
pub const MAGIC_MICROS: u32 = 0xa1b2_c3d4;

/// Magic number of a file with nanosecond timestamps.
pub const MAGIC_NANOS: u32 = 0xa1b2_3c4d;

/// Link type of Ethernet frames.
pub const LINK_TYPE_ETHERNET: u32 = 1;

// ---------------------------------------------------------------------------
// Integers as bytes
// ---------------------------------------------------------------------------

/// The value of four bytes, least significant first.
pub open spec fn u32_of_parts(b0: u8, b1: u8, b2: u8, b3: u8) -> u32 {
    (b0 as int + 256 * (b1 as int) + 65536 * (b2 as int) + 16777216 * (b3 as int)) as u32
}

/// The value of two bytes, least significant first.
pub open spec fn u16_of_parts(b0: u8, b1: u8) -> u16 {
    (b0 as int + 256 * (b1 as int)) as u16
}

/// The four bytes of `v` in the given order.
#[verifier::opaque]
pub open spec fn u32_bytes(endian: Endian, v: u32) -> Seq<u8> {
    let b0 = (v % 256) as u8;
    let b1 = (v / 256 % 256) as u8;
    let b2 = (v / 65536 % 256) as u8;
    let b3 = (v / 16777216) as u8;
    match endian {
        Endian::Little => seq![b0, b1, b2, b3],
        Endian::Big => seq![b3, b2, b1, b0],
    }
}

/// The two bytes of `v` in the given order.
#[verifier::opaque]
pub open spec fn u16_bytes(endian: Endian, v: u16) -> Seq<u8> {
    let b0 = (v % 256) as u8;
    let b1 = (v / 256) as u8;
    match endian {
        Endian::Little => seq![b0, b1],
        Endian::Big => seq![b1, b0],
    }
}

/// The 32-bit value stored at `at` in the given order.
pub open spec fn u32_at(endian: Endian, bytes: Seq<u8>, at: int) -> u32
    recommends
        0 <= at,
        at + 4 <= bytes.len(),
{
    match endian {
        Endian::Little => u32_of_parts(bytes[at], bytes[at + 1], bytes[at + 2], bytes[at + 3]),
        Endian::Big => u32_of_parts(bytes[at + 3], bytes[at + 2], bytes[at + 1], bytes[at]),
    }
}

/// The 16-bit value stored at `at` in the given order.
pub open spec fn u16_at(endian: Endian, bytes: Seq<u8>, at: int) -> u16
    recommends
        0 <= at,
        at + 2 <= bytes.len(),
{
    match endian {
        Endian::Little => u16_of_parts(bytes[at], bytes[at + 1]),
        Endian::Big => u16_of_parts(bytes[at + 1], bytes[at]),
    }
}

/// A 32-bit value has four bytes and a 16-bit value two.
pub proof fn lemma_field_lengths(endian: Endian, wide: u32, narrow: u16)
    ensures
        u32_bytes(endian, wide).len() == 4,
        u16_bytes(endian, narrow).len() == 2,
{
    reveal(u32_bytes);
    reveal(u16_bytes);
}

/// Where four bytes of `bytes` are the bytes of `v`, reading them gives `v`.
pub proof fn lemma_u32_round_trip(endian: Endian, v: u32, bytes: Seq<u8>, at: int)
    requires
        0 <= at,
        at + 4 <= bytes.len(),
        bytes.subrange(at, at + 4) == u32_bytes(endian, v),
    ensures
        u32_at(endian, bytes, at) == v,
{
    reveal(u32_bytes);
    let part = bytes.subrange(at, at + 4);
    assert(bytes[at] == part[0]);
    assert(bytes[at + 1] == part[1]);
    assert(bytes[at + 2] == part[2]);
    assert(bytes[at + 3] == part[3]);
}

/// Where two bytes of `bytes` are the bytes of `v`, reading them gives `v`.
pub proof fn lemma_u16_round_trip(endian: Endian, v: u16, bytes: Seq<u8>, at: int)
    requires
        0 <= at,
        at + 2 <= bytes.len(),
        bytes.subrange(at, at + 2) == u16_bytes(endian, v),
    ensures
        u16_at(endian, bytes, at) == v,
{
    reveal(u16_bytes);
    let part = bytes.subrange(at, at + 2);
    assert(bytes[at] == part[0]);
    assert(bytes[at + 1] == part[1]);
}

/// Appends the four bytes of `v` to `out`.
fn push_u32(out: &mut Vec<u8>, endian: Endian, v: u32)
    ensures
        final(out)@ == old(out)@ + u32_bytes(endian, v),
{
    let b0: u8 = (v % 256) as u8;
    let b1: u8 = (v / 256 % 256) as u8;
    let b2: u8 = (v / 65536 % 256) as u8;
    let b3: u8 = (v / 16777216) as u8;
    match endian {
        Endian::Little => {
            out.push(b0);
            out.push(b1);
            out.push(b2);
            out.push(b3);
        },
        Endian::Big => {
            out.push(b3);
            out.push(b2);
            out.push(b1);
            out.push(b0);
        },
    }
    proof {
        reveal(u32_bytes);
    }
    assert(out@ =~= old(out)@ + u32_bytes(endian, v));
}

/// Appends the two bytes of `v` to `out`.
fn push_u16(out: &mut Vec<u8>, endian: Endian, v: u16)
    ensures
        final(out)@ == old(out)@ + u16_bytes(endian, v),
{
    let b0: u8 = (v % 256) as u8;
    let b1: u8 = (v / 256) as u8;
    match endian {
        Endian::Little => {
            out.push(b0);
            out.push(b1);
        },
        Endian::Big => {
            out.push(b1);
            out.push(b0);
        },
    }
    proof {
        reveal(u16_bytes);
    }
    assert(out@ =~= old(out)@ + u16_bytes(endian, v));
}

/// Reads the 32-bit value stored at `at`.
fn read_u32(bytes: &[u8], at: usize, endian: Endian) -> (v: u32)
    requires
        at + 4 <= bytes@.len(),
    ensures
        v == u32_at(endian, bytes@, at as int),
{
    let a: u32 = bytes[at] as u32;
    let b: u32 = bytes[at + 1] as u32;
    let c: u32 = bytes[at + 2] as u32;
    let d: u32 = bytes[at + 3] as u32;
    match endian {
        Endian::Little => a + 256 * b + 65536 * c + 16777216 * d,
        Endian::Big => d + 256 * c + 65536 * b + 16777216 * a,
    }
}

/// Reads the 16-bit value stored at `at`.
fn read_u16(bytes: &[u8], at: usize, endian: Endian) -> (v: u16)
    requires
        at + 2 <= bytes@.len(),
    ensures
        v == u16_at(endian, bytes@, at as int),
{
    let a: u16 = bytes[at] as u16;
    let b: u16 = bytes[at + 1] as u16;
    match endian {
        Endian::Little => a + 256 * b,
        Endian::Big => b + 256 * a,
    }
}

// ---------------------------------------------------------------------------
// The file header
// ---------------------------------------------------------------------------

/// The magic number that announces the given resolution.
pub open spec fn magic_of(resolution: Resolution) -> u32 {
    match resolution {
        Resolution::Micros => MAGIC_MICROS,
        Resolution::Nanos => MAGIC_NANOS,
    }
}

/// The 24 bytes of a file header.
pub open spec fn file_header_bytes(h: FileHeader) -> Seq<u8> {
    u32_bytes(h.endian, magic_of(h.resolution)) + u16_bytes(h.endian, h.version_major)
        + u16_bytes(h.endian, h.version_minor) + u32_bytes(h.endian, h.zone_correction)
        + u32_bytes(h.endian, h.accuracy) + u32_bytes(h.endian, h.snap_len) + u32_bytes(
        h.endian,
        h.link_type,
    )
}

/// Byte order and resolution announced by a magic number that was read least
/// significant byte first, if it is one of the four known ones.
pub open spec fn layout_of_magic(magic: u32) -> Option<(Endian, Resolution)> {
    if magic == 0xa1b2_c3d4u32 {
        Some((Endian::Little, Resolution::Micros))
    } else if magic == 0xa1b2_3c4du32 {
        Some((Endian::Little, Resolution::Nanos))
    } else if magic == 0xd4c3_b2a1u32 {
        Some((Endian::Big, Resolution::Micros))
    } else if magic == 0x4d3c_b2a1u32 {
        Some((Endian::Big, Resolution::Nanos))
    } else {
        None
    }
}

/// What reading a file header from the start of `bytes` gives.
pub open spec fn parse_file_header(bytes: Seq<u8>) -> Result<FileHeader, FormatError> {
    if bytes.len() < 24 {
        Err(FormatError::TruncatedHeader)
    } else {
        match layout_of_magic(u32_at(Endian::Little, bytes, 0)) {
            None => Err(FormatError::BadMagic),
            Some((endian, resolution)) => Ok(
                FileHeader {
                    endian,
                    resolution,
                    version_major: u16_at(endian, bytes, 4),
                    version_minor: u16_at(endian, bytes, 6),
                    zone_correction: u32_at(endian, bytes, 8),
                    accuracy: u32_at(endian, bytes, 12),
                    snap_len: u32_at(endian, bytes, 16),
                    link_type: u32_at(endian, bytes, 20),
                },
            ),
        }
    }
}

impl FileHeader {
    /// The header that capture tools conventionally write for Ethernet
    /// traffic: version 2.4, no zone correction, a snapshot length of 65535.
    pub fn ethernet(endian: Endian, resolution: Resolution) -> (h: FileHeader)
        ensures
            h == (FileHeader {
                endian,
                resolution,
                version_major: 2,
                version_minor: 4,
                zone_correction: 0,
                accuracy: 0,
                snap_len: 65535,
                link_type: LINK_TYPE_ETHERNET,
            }),
    {
        FileHeader {
            endian,
            resolution,
            version_major: 2,
            version_minor: 4,
            zone_correction: 0,
            accuracy: 0,
            snap_len: 65535,
            link_type: LINK_TYPE_ETHERNET,
        }
    }
}

/// Appends the 24 bytes of `header` to `out`.
pub fn encode_file_header(header: &FileHeader, out: &mut Vec<u8>)
    ensures
        final(out)@ == old(out)@ + file_header_bytes(*header),
{
    let magic: u32 = match header.resolution {
        Resolution::Micros => MAGIC_MICROS,
        Resolution::Nanos => MAGIC_NANOS,
    };
    push_u32(out, header.endian, magic);
    push_u16(out, header.endian, header.version_major);
    push_u16(out, header.endian, header.version_minor);
    push_u32(out, header.endian, header.zone_correction);
    push_u32(out, header.endian, header.accuracy);
    push_u32(out, header.endian, header.snap_len);
    push_u32(out, header.endian, header.link_type);
    assert(out@ =~= old(out)@ + file_header_bytes(*header));
}

/// Reads the file header at the start of `bytes`.
pub fn decode_file_header(bytes: &[u8]) -> (r: Result<FileHeader, FormatError>)
    ensures
        r == parse_file_header(bytes@),
{
    if bytes.len() < FILE_HEADER_LEN {
        return Err(FormatError::TruncatedHeader);
    }
    let magic: u32 = read_u32(bytes, 0, Endian::Little);
    let (endian, resolution) = if magic == 0xa1b2_c3d4u32 {
        (Endian::Little, Resolution::Micros)
    } else if magic == 0xa1b2_3c4du32 {
        (Endian::Little, Resolution::Nanos)
    } else if magic == 0xd4c3_b2a1u32 {
        (Endian::Big, Resolution::Micros)
    } else if magic == 0x4d3c_b2a1u32 {
        (Endian::Big, Resolution::Nanos)
    } else {
        return Err(FormatError::BadMagic);
    };
    Ok(
        FileHeader {
            endian,
            resolution,
            version_major: read_u16(bytes, 4, endian),
            version_minor: read_u16(bytes, 6, endian),
            zone_correction: read_u32(bytes, 8, endian),
            accuracy: read_u32(bytes, 12, endian),
            snap_len: read_u32(bytes, 16, endian),
            link_type: read_u32(bytes, 20, endian),
        },
    )
}

// ---------------------------------------------------------------------------
// Records
// ---------------------------------------------------------------------------

/// The first fraction that is no longer part of a second.
pub open spec fn fraction_limit(resolution: Resolution) -> u32 {
    match resolution {
        Resolution::Micros => 1_000_000u32,
        Resolution::Nanos => 1_000_000_000u32,
    }
}

/// The fraction stored for a microsecond part: the microseconds themselves,
/// or a thousand times as many nanoseconds.
pub open spec fn fraction_of(resolution: Resolution, micros: u32) -> u32 {
    match resolution {
        Resolution::Micros => micros,
        Resolution::Nanos => (micros * 1000) as u32,
    }
}

/// The microsecond part that a stored fraction stands for.
pub open spec fn micros_of(resolution: Resolution, fraction: u32) -> u32 {
    match resolution {
        Resolution::Micros => fraction,
        Resolution::Nanos => fraction / 1000,
    }
}

/// Whether a packet can be stored in a record: it is well formed and its
/// seconds fit the 32-bit field.
pub open spec fn storable(p: PacketView) -> bool {
    &&& p.wf()
    &&& p.timestamp.secs <= u32::MAX
}

/// The bytes of the record that stores `p`: seconds, fraction, captured
/// length, original length, then the captured bytes.
pub open spec fn record_bytes(endian: Endian, resolution: Resolution, p: PacketView) -> Seq<u8> {
    u32_bytes(endian, p.timestamp.secs as u32) + u32_bytes(
        endian,
        fraction_of(resolution, p.timestamp.micros),
    ) + u32_bytes(endian, p.captured_len) + u32_bytes(endian, p.original_len) + p.captured()
}

/// Whether a whole record, header and data, lies in `bytes` from `at` on.
pub open spec fn record_fits(endian: Endian, bytes: Seq<u8>, at: int) -> bool {
    &&& 0 <= at
    &&& at + 16 <= bytes.len()
    &&& at + 16 + u32_at(endian, bytes, at + 8) <= bytes.len()
}

/// Where the record that starts at `at` ends: behind its data when the whole
/// record lies in `bytes`, at the end of `bytes` otherwise.
pub open spec fn record_end(endian: Endian, bytes: Seq<u8>, at: int) -> int {
    if record_fits(endian, bytes, at) {
        at + 16 + u32_at(endian, bytes, at + 8)
    } else {
        bytes.len() as int
    }
}

/// What reading the record that starts at `at` gives.
pub open spec fn parse_record(endian: Endian, resolution: Resolution, bytes: Seq<u8>, at: int)
    -> Result<PacketView, FormatError> {
    if !record_fits(endian, bytes, at) {
        Err(FormatError::TruncatedRecord)
    } else if u32_at(endian, bytes, at + 4) >= fraction_limit(resolution) {
        Err(FormatError::BadTimestamp)
    } else {
        let captured_len = u32_at(endian, bytes, at + 8);
        Ok(
            PacketView {
                timestamp: Timestamp {
                    secs: u32_at(endian, bytes, at) as u64,
                    micros: micros_of(resolution, u32_at(endian, bytes, at + 4)),
                },
                data: bytes.subrange(at + 16, at + 16 + captured_len),
                captured_len,
                original_len: u32_at(endian, bytes, at + 12),
            },
        )
    }
}

/// Appends the bytes `src[..count]` to `out`.
fn push_prefix(out: &mut Vec<u8>, src: &Vec<u8>, count: usize)
    requires
        count <= src@.len(),
    ensures
        final(out)@ == old(out)@ + src@.take(count as int),
{
    let mut i: usize = 0;
    while i < count
        invariant
            i <= count <= src@.len(),
            out@ == old(out)@ + src@.take(i as int),
        decreases count - i,
    {
        out.push(src[i]);
        i += 1;
        assert(out@ =~= old(out)@ + src@.take(i as int));
    }
}

/// Appends the record that stores `packet` to `out`.
///
/// Fails, leaving `out` as it was, exactly when the seconds of the timestamp
/// do not fit 32 bits.
pub fn encode_record(endian: Endian, resolution: Resolution, packet: &Packet, out: &mut Vec<u8>)
    -> (r: Result<(), FormatError>)
    requires
        packet.wf(),
    ensures
        r is Ok <==> storable(packet@),
        r is Ok ==> final(out)@ == old(out)@ + record_bytes(endian, resolution, packet@),
        r is Err ==> r == Err::<(), FormatError>(FormatError::SecondsOutOfRange) && final(out)@
            == old(out)@,
{
    if packet.timestamp.secs > u32::MAX as u64 {
        return Err(FormatError::SecondsOutOfRange);
    }
    let secs: u32 = packet.timestamp.secs as u32;
    let fraction: u32 = match resolution {
        Resolution::Micros => packet.timestamp.micros,
        Resolution::Nanos => packet.timestamp.micros * 1000,
    };
    push_u32(out, endian, secs);
    push_u32(out, endian, fraction);
    push_u32(out, endian, packet.captured_len);
    push_u32(out, endian, packet.original_len);
    push_prefix(out, &packet.data, packet.captured_len as usize);
    assert(out@ =~= old(out)@ + record_bytes(endian, resolution, packet@));
    Ok(())
}

/// Where the record that starts at `at` ends; see [`record_end`].
pub fn end_of_record(endian: Endian, bytes: &[u8], at: usize) -> (end: usize)
    ensures
        end as int == record_end(endian, bytes@, at as int),
        end <= bytes@.len(),
        at <= bytes@.len() ==> at <= end,
        at < bytes@.len() ==> at < end,
{
    let n: usize = bytes.len();
    if at > n || n - at < RECORD_HEADER_LEN {
        return n;
    }
    let captured_len: u32 = read_u32(bytes, at + 8, endian);
    if n - at - RECORD_HEADER_LEN < captured_len as usize {
        return n;
    }
    at + RECORD_HEADER_LEN + captured_len as usize
}

/// Reads the record that starts at `at`.
pub fn decode_record(endian: Endian, resolution: Resolution, bytes: &[u8], at: usize) -> (r:
    Result<Packet, FormatError>)
    ensures
        match r {
            Ok(p) => parse_record(endian, resolution, bytes@, at as int) == Ok::<
                PacketView,
                FormatError,
            >(p@),
            Err(e) => parse_record(endian, resolution, bytes@, at as int) == Err::<
                PacketView,
                FormatError,
            >(e),
        },
{
    let n: usize = bytes.len();
    if at > n || n - at < RECORD_HEADER_LEN {
        return Err(FormatError::TruncatedRecord);
    }
    let secs: u32 = read_u32(bytes, at, endian);
    let fraction: u32 = read_u32(bytes, at + 4, endian);
    let captured_len: u32 = read_u32(bytes, at + 8, endian);
    let original_len: u32 = read_u32(bytes, at + 12, endian);
    if n - at - RECORD_HEADER_LEN < captured_len as usize {
        return Err(FormatError::TruncatedRecord);
    }
    let micros: u32 = match resolution {
        Resolution::Micros => {
            if fraction >= 1_000_000 {
                return Err(FormatError::BadTimestamp);
            }
            fraction
        },
        Resolution::Nanos => {
            if fraction >= 1_000_000_000 {
                return Err(FormatError::BadTimestamp);
            }
            fraction / 1000
        },
    };
    let start: usize = at + RECORD_HEADER_LEN;
    let mut data: Vec<u8> = Vec::new();
    let mut i: usize = 0;
    while i < captured_len as usize
        invariant
            i <= captured_len as usize,
            n == bytes@.len(),
            start + captured_len as usize <= n,
            data@ == bytes@.subrange(start as int, start + i),
        decreases captured_len as usize - i,
    {
        data.push(bytes[start + i]);
        i += 1;
        assert(data@ =~= bytes@.subrange(start as int, start + i));
    }
    Ok(Packet { timestamp: Timestamp { secs: secs as u64, micros }, data, captured_len, original_len })
}

// ---------------------------------------------------------------------------
// Whole captures
// ---------------------------------------------------------------------------

/// The records that store `packets`, one behind the other.
pub open spec fn records_bytes(endian: Endian, resolution: Resolution, packets: Seq<PacketView>)
    -> Seq<u8>
    decreases packets.len(),
{
    if packets.len() == 0 {
        Seq::empty()
    } else {
        records_bytes(endian, resolution, packets.drop_last()) + record_bytes(
            endian,
            resolution,
            packets.last(),
        )
    }
}

/// The bytes of the capture file that starts with `header` and stores
/// `packets`.
pub open spec fn capture_bytes(header: FileHeader, packets: Seq<PacketView>) -> Seq<u8> {
    file_header_bytes(header) + records_bytes(header.endian, header.resolution, packets)
}

/// The values of a list of packets.
pub open spec fn packet_views(packets: Seq<Packet>) -> Seq<PacketView> {
    Seq::new(packets.len(), |i: int| packets[i]@)
}

/// The bytes of the capture file that starts with `header` and stores
/// `packets`.
///
/// Fails exactly when one of the packets cannot be stored, because the
/// seconds of its timestamp do not fit 32 bits.
pub fn encode_capture(header: &FileHeader, packets: &Vec<Packet>) -> (r: Result<
    Vec<u8>,
    FormatError,
>)
    requires
        forall|i: int| 0 <= i < packets@.len() ==> (#[trigger] packets@[i]).wf(),
    ensures
        r is Ok <==> forall|i: int| 0 <= i < packets@.len() ==> storable((#[trigger] packets@[i])@),
        r matches Ok(bytes) ==> bytes@ == capture_bytes(*header, packet_views(packets@)),
        r matches Err(e) ==> e == FormatError::SecondsOutOfRange,
{
    let mut out: Vec<u8> = Vec::new();
    encode_file_header(header, &mut out);
    let mut i: usize = 0;
    assert(packet_views(packets@).take(0) =~= Seq::<PacketView>::empty());
    while i < packets.len()
        invariant
            i <= packets@.len(),
            forall|j: int| 0 <= j < packets@.len() ==> (#[trigger] packets@[j]).wf(),
            forall|j: int| 0 <= j < i ==> storable((#[trigger] packets@[j])@),
            out@ == capture_bytes(*header, packet_views(packets@).take(i as int)),
        decreases packets@.len() - i,
    {
        let ghost done = packet_views(packets@).take(i as int);
        match encode_record(header.endian, header.resolution, &packets[i], &mut out) {
            Ok(()) => {},
            Err(e) => {
                return Err(e);
            },
        }
        i += 1;
        proof {
            let now = packet_views(packets@).take(i as int);
            assert(now.drop_last() =~= done);
            assert(now.last() == packets@[i - 1]@);
            assert(out@ =~= capture_bytes(*header, now));
        }
    }
    assert(packet_views(packets@).take(i as int) =~= packet_views(packets@));
    Ok(out)
}

// ---------------------------------------------------------------------------
// Laws
// ---------------------------------------------------------------------------

/// The bytes of the two magic numbers, least significant first.
proof fn lemma_magic_bytes()
    ensures
        u32_bytes(Endian::Little, MAGIC_MICROS) == seq![0xd4u8, 0xc3u8, 0xb2u8, 0xa1u8],
        u32_bytes(Endian::Big, MAGIC_MICROS) == seq![0xa1u8, 0xb2u8, 0xc3u8, 0xd4u8],
        u32_bytes(Endian::Little, MAGIC_NANOS) == seq![0x4du8, 0x3cu8, 0xb2u8, 0xa1u8],
        u32_bytes(Endian::Big, MAGIC_NANOS) == seq![0xa1u8, 0xb2u8, 0x3cu8, 0x4du8],
{
    reveal(u32_bytes);
    assert(0xa1b2_c3d4u32 % 256 == 0xd4 && 0xa1b2_c3d4u32 / 256 % 256 == 0xc3 && 0xa1b2_c3d4u32
        / 65536 % 256 == 0xb2 && 0xa1b2_c3d4u32 / 16777216 == 0xa1);
    assert(0xa1b2_3c4du32 % 256 == 0x4d && 0xa1b2_3c4du32 / 256 % 256 == 0x3c && 0xa1b2_3c4du32
        / 65536 % 256 == 0xb2 && 0xa1b2_3c4du32 / 16777216 == 0xa1);
}

/// The magic number tells byte order and resolution apart.
proof fn lemma_magic_round_trip(endian: Endian, resolution: Resolution, bytes: Seq<u8>)
    requires
        4 <= bytes.len(),
        bytes.subrange(0, 4) == u32_bytes(endian, magic_of(resolution)),
    ensures
        layout_of_magic(u32_at(Endian::Little, bytes, 0)) == Some((endian, resolution)),
{
    lemma_magic_bytes();
    let part = bytes.subrange(0, 4);
    assert(bytes[0] == part[0]);
    assert(bytes[1] == part[1]);
    assert(bytes[2] == part[2]);
    assert(bytes[3] == part[3]);
    let m = u32_at(Endian::Little, bytes, 0);
    match (endian, resolution) {
        (Endian::Little, Resolution::Micros) => {
            assert(m == 0xa1b2_c3d4u32);
        },
        (Endian::Little, Resolution::Nanos) => {
            assert(m == 0xa1b2_3c4du32);
        },
        (Endian::Big, Resolution::Micros) => {
            assert(m == 0xd4c3_b2a1u32);
        },
        (Endian::Big, Resolution::Nanos) => {
            assert(m == 0x4d3c_b2a1u32);
        },
    }
}

/// A file header that was written is read back unchanged, whatever follows
/// it.
pub proof fn lemma_file_header_round_trip(h: FileHeader, rest: Seq<u8>)
    ensures
        file_header_bytes(h).len() == 24,
        parse_file_header(file_header_bytes(h) + rest) == Ok::<FileHeader, FormatError>(h),
{
    let e = h.endian;
    let s = file_header_bytes(h) + rest;
    lemma_field_lengths(e, magic_of(h.resolution), h.version_major);
    lemma_field_lengths(e, h.zone_correction, h.version_minor);
    lemma_field_lengths(e, h.accuracy, 0);
    lemma_field_lengths(e, h.snap_len, 0);
    lemma_field_lengths(e, h.link_type, 0);
    assert(s.subrange(0, 4) =~= u32_bytes(e, magic_of(h.resolution)));
    assert(s.subrange(4, 6) =~= u16_bytes(e, h.version_major));
    assert(s.subrange(6, 8) =~= u16_bytes(e, h.version_minor));
    assert(s.subrange(8, 12) =~= u32_bytes(e, h.zone_correction));
    assert(s.subrange(12, 16) =~= u32_bytes(e, h.accuracy));
    assert(s.subrange(16, 20) =~= u32_bytes(e, h.snap_len));
    assert(s.subrange(20, 24) =~= u32_bytes(e, h.link_type));
    lemma_magic_round_trip(e, h.resolution, s);
    lemma_u16_round_trip(e, h.version_major, s, 4);
    lemma_u16_round_trip(e, h.version_minor, s, 6);
    lemma_u32_round_trip(e, h.zone_correction, s, 8);
    lemma_u32_round_trip(e, h.accuracy, s, 12);
    lemma_u32_round_trip(e, h.snap_len, s, 16);
    lemma_u32_round_trip(e, h.link_type, s, 20);
}

/// The length of the record that stores a packet.
pub proof fn lemma_record_len(endian: Endian, resolution: Resolution, p: PacketView)
    requires
        p.wf(),
    ensures
        record_bytes(endian, resolution, p).len() == 16 + p.captured_len,
{
    lemma_field_lengths(endian, p.timestamp.secs as u32, 0);
    lemma_field_lengths(endian, fraction_of(resolution, p.timestamp.micros), 0);
    lemma_field_lengths(endian, p.captured_len, 0);
    lemma_field_lengths(endian, p.original_len, 0);
}

/// A record that was written is read back with the same seconds, the same
/// microseconds, the same captured bytes and the same two lengths, whatever
/// stands before and after it; and it ends where its bytes end.
pub proof fn lemma_record_round_trip(
    endian: Endian,
    resolution: Resolution,
    p: PacketView,
    before: Seq<u8>,
    after: Seq<u8>,
)
    requires
        storable(p),
    ensures
        parse_record(
            endian,
            resolution,
            before + record_bytes(endian, resolution, p) + after,
            before.len() as int,
        ) == Ok::<PacketView, FormatError>(
            PacketView {
                timestamp: p.timestamp,
                data: p.captured(),
                captured_len: p.captured_len,
                original_len: p.original_len,
            },
        ),
        record_end(
            endian,
            before + record_bytes(endian, resolution, p) + after,
            before.len() as int,
        ) == before.len() + 16 + p.captured_len,
{
    let s = before + record_bytes(endian, resolution, p) + after;
    let at = before.len() as int;
    let fraction = fraction_of(resolution, p.timestamp.micros);
    lemma_field_lengths(endian, p.timestamp.secs as u32, 0);
    lemma_field_lengths(endian, fraction, 0);
    lemma_field_lengths(endian, p.captured_len, 0);
    lemma_field_lengths(endian, p.original_len, 0);
    assert(s.subrange(at, at + 4) =~= u32_bytes(endian, p.timestamp.secs as u32));
    assert(s.subrange(at + 4, at + 8) =~= u32_bytes(endian, fraction));
    assert(s.subrange(at + 8, at + 12) =~= u32_bytes(endian, p.captured_len));
    assert(s.subrange(at + 12, at + 16) =~= u32_bytes(endian, p.original_len));
    assert(s.subrange(at + 16, at + 16 + p.captured_len) =~= p.captured());
    lemma_u32_round_trip(endian, p.timestamp.secs as u32, s, at);
    lemma_u32_round_trip(endian, fraction, s, at + 4);
    lemma_u32_round_trip(endian, p.captured_len, s, at + 8);
    lemma_u32_round_trip(endian, p.original_len, s, at + 12);
    assert(micros_of(resolution, fraction) == p.timestamp.micros);
}

} // verus!
