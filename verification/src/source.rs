//! A packet source backed by the bytes of a capture file.
//!
//! The source is finite and yields the records of the file in their order.
//! Opening it reads the file header; a malformed header fails the opening.
//! A malformed record is reported for the call that meets it, and the source
//! then goes on behind it, or ends where the record is cut short.

use vstd::prelude::*;
use crate::capture_format::{
    capture_bytes, decode_file_header, decode_record, end_of_record, file_header_bytes,
    lemma_file_header_round_trip, lemma_record_len, lemma_record_round_trip, parse_file_header,
    parse_record, record_bytes, record_end, records_bytes, storable, Endian, FileHeader,
    FormatError, Resolution, FILE_HEADER_LEN,
};
use crate::packet::{Packet, PacketView};

verus! {

/// What reading the records from `at` to the end of `bytes` gives, one
/// result for each record.
pub open spec fn record_results(
    endian: Endian,
    resolution: Resolution,
    bytes: Seq<u8>,
    at: int,
) -> Seq<Result<PacketView, FormatError>>
    decreases bytes.len() - at,
{
    if 0 <= at < bytes.len() {
        seq![parse_record(endian, resolution, bytes, at)] + record_results(
            endian,
            resolution,
            bytes,
            record_end(endian, bytes, at),
        )
    } else {
        Seq::empty()
    }
}

/// The value of what a read returned.
pub open spec fn result_view(r: Result<Packet, FormatError>) -> Result<PacketView, FormatError> {
    match r {
        Ok(p) => Ok(p@),
        Err(e) => Err(e),
    }
}

/// A record that was read is a well-formed packet whose captured bytes are
/// all the bytes it holds.
pub proof fn lemma_parsed_record_wf(
    endian: Endian,
    resolution: Resolution,
    bytes: Seq<u8>,
    at: int,
)
    ensures
        parse_record(endian, resolution, bytes, at) matches Ok(p) ==> p.wf() && p.captured_len
            == p.data.len() && p.timestamp.secs <= u32::MAX,
{
}

/// Reading never gives more results than there are bytes left, and every
/// packet among the results can be stored again.
pub proof fn lemma_record_results_sound(
    endian: Endian,
    resolution: Resolution,
    bytes: Seq<u8>,
    at: int,
)
    requires
        0 <= at <= bytes.len(),
    ensures
        record_results(endian, resolution, bytes, at).len() <= bytes.len() - at,
        forall|i: int|
            0 <= i < record_results(endian, resolution, bytes, at).len() ==> (
            #[trigger] record_results(endian, resolution, bytes, at)[i] matches Ok(p) ==> storable(
                p,
            )),
    decreases bytes.len() - at,
{
    if at < bytes.len() {
        let next = record_end(endian, bytes, at);
        lemma_parsed_record_wf(endian, resolution, bytes, at);
        lemma_record_results_sound(endian, resolution, bytes, next);
        let rest = record_results(endian, resolution, bytes, next);
        let all = record_results(endian, resolution, bytes, at);
        assert forall|i: int| 0 <= i < all.len() implies (#[trigger] all[i] matches Ok(p)
            ==> storable(p)) by {
            if i > 0 {
                assert(all[i] == rest[i - 1]);
            }
        }
    }
}

/// A reader over the bytes of a capture file.
#[derive(Debug)]
pub struct CaptureReader {
    bytes: Vec<u8>,
    header: FileHeader,
    position: usize,
}

/// The mathematical value of a [`CaptureReader`].
pub struct ReaderView {
    /// The bytes of the file.
    pub bytes: Seq<u8>,
    /// The file header that was read from them.
    pub header: FileHeader,
    /// Where the next record starts.
    pub position: int,
}

impl ReaderView {
    /// The header is the one that the bytes start with, and the position
    /// lies behind it and within the bytes.
    pub open spec fn wf(self) -> bool {
        &&& parse_file_header(self.bytes) == Ok::<FileHeader, FormatError>(self.header)
        &&& 24 <= self.position <= self.bytes.len()
    }

    /// What is left to read, one result for each record.
    pub open spec fn pending(self) -> Seq<Result<PacketView, FormatError>> {
        record_results(self.header.endian, self.header.resolution, self.bytes, self.position)
    }
}

impl View for CaptureReader {
    type V = ReaderView;

    closed spec fn view(&self) -> ReaderView {
        ReaderView { bytes: self.bytes@, header: self.header, position: self.position as int }
    }
}

impl CaptureReader {
    /// See [`ReaderView::wf`].
    pub open spec fn wf(&self) -> bool {
        self@.wf()
    }

    /// Opens a source over the bytes of a capture file.
    ///
    /// Fails exactly when the bytes do not start with a file header, with the
    /// error that reading the header gives.
    pub fn open(bytes: Vec<u8>) -> (r: Result<CaptureReader, FormatError>)
        ensures
            match r {
                Ok(reader) => {
                    &&& reader.wf()
                    &&& reader@.bytes == bytes@
                    &&& reader@.position == 24
                },
                Err(e) => parse_file_header(bytes@) == Err::<FileHeader, FormatError>(e),
            },
    {
        match decode_file_header(bytes.as_slice()) {
            Ok(header) => Ok(CaptureReader { bytes, header, position: FILE_HEADER_LEN }),
            Err(e) => Err(e),
        }
    }

    /// The file header.
    pub fn header(&self) -> (h: FileHeader)
        ensures
            h == self@.header,
    {
        self.header
    }

    /// Whether every record has been read.
    pub fn is_exhausted(&self) -> (r: bool)
        requires
            self.wf(),
        ensures
            r == (self@.position == self@.bytes.len()),
            r == (self@.pending().len() == 0),
    {
        self.position == self.bytes.len()
    }

    /// Reads the next record.
    ///
    /// Returns `None` exactly at the end of the bytes. Otherwise the result
    /// is what reading the record at the current position gives, and the
    /// source moves to the end of that record: behind its data, or to the end
    /// of the bytes where the record is cut short.
    pub fn next_packet(&mut self) -> (r: Option<Result<Packet, FormatError>>)
        requires
            old(self).wf(),
        ensures
            final(self).wf(),
            final(self)@.bytes == old(self)@.bytes,
            final(self)@.header == old(self)@.header,
            match r {
                None => old(self)@.pending().len() == 0 && final(self)@ == old(self)@,
                Some(x) => {
                    &&& result_view(x) == parse_record(
                        old(self)@.header.endian,
                        old(self)@.header.resolution,
                        old(self)@.bytes,
                        old(self)@.position,
                    )
                    &&& final(self)@.position == record_end(
                        old(self)@.header.endian,
                        old(self)@.bytes,
                        old(self)@.position,
                    )
                    &&& old(self)@.pending() == seq![result_view(x)] + final(self)@.pending()
                    &&& old(self)@.position < final(self)@.position
                    &&& x matches Ok(p) ==> p.wf() && p@.captured_len == p@.data.len()
                        && p@.timestamp.secs <= u32::MAX
                },
            },
    {
        if self.position == self.bytes.len() {
            return None;
        }
        let at: usize = self.position;
        let r = decode_record(self.header.endian, self.header.resolution, self.bytes.as_slice(), at);
        self.position = end_of_record(self.header.endian, self.bytes.as_slice(), at);
        proof {
            lemma_parsed_record_wf(
                self.header.endian,
                self.header.resolution,
                self.bytes@,
                at as int,
            );
        }
        Some(r)
    }
}

// ---------------------------------------------------------------------------
// Laws
// ---------------------------------------------------------------------------

/// A packet as it is read back: the bytes that count as captured are all the
/// bytes that it holds.
pub open spec fn as_read(p: PacketView) -> PacketView {
    PacketView {
        timestamp: p.timestamp,
        data: p.captured(),
        captured_len: p.captured_len,
        original_len: p.original_len,
    }
}

/// What reading a list of stored packets gives.
pub open spec fn all_read(packets: Seq<PacketView>) -> Seq<Result<PacketView, FormatError>> {
    Seq::new(packets.len(), |i: int| Ok::<PacketView, FormatError>(as_read(packets[i])))
}

/// The records of a list of packets are the record of the first packet
/// followed by the records of the others.
pub proof fn lemma_records_bytes_front(
    endian: Endian,
    resolution: Resolution,
    packets: Seq<PacketView>,
)
    requires
        packets.len() > 0,
    ensures
        records_bytes(endian, resolution, packets) == record_bytes(endian, resolution, packets[0])
            + records_bytes(endian, resolution, packets.skip(1)),
    decreases packets.len(),
{
    if packets.len() == 1 {
        assert(packets.drop_last() =~= Seq::<PacketView>::empty());
        assert(packets.skip(1) =~= Seq::<PacketView>::empty());
        assert(records_bytes(endian, resolution, packets) =~= record_bytes(
            endian,
            resolution,
            packets[0],
        ) + records_bytes(endian, resolution, packets.skip(1)));
    } else {
        lemma_records_bytes_front(endian, resolution, packets.drop_last());
        assert(packets.drop_last().skip(1) =~= packets.skip(1).drop_last());
        assert(packets.skip(1).last() == packets.last());
        assert(records_bytes(endian, resolution, packets) =~= record_bytes(
            endian,
            resolution,
            packets[0],
        ) + records_bytes(endian, resolution, packets.skip(1)));
    }
}

/// Records that were written one behind the other are read back in their
/// order, whatever stands before them.
pub proof fn lemma_records_round_trip(
    endian: Endian,
    resolution: Resolution,
    before: Seq<u8>,
    packets: Seq<PacketView>,
)
    requires
        forall|i: int| 0 <= i < packets.len() ==> storable(#[trigger] packets[i]),
    ensures
        record_results(
            endian,
            resolution,
            before + records_bytes(endian, resolution, packets),
            before.len() as int,
        ) == all_read(packets),
    decreases packets.len(),
{
    let bytes = before + records_bytes(endian, resolution, packets);
    if packets.len() == 0 {
        assert(bytes =~= before);
        assert(all_read(packets) =~= Seq::<Result<PacketView, FormatError>>::empty());
    } else {
        let first = record_bytes(endian, resolution, packets[0]);
        let rest = records_bytes(endian, resolution, packets.skip(1));
        lemma_records_bytes_front(endian, resolution, packets);
        lemma_record_len(endian, resolution, packets[0]);
        lemma_record_round_trip(endian, resolution, packets[0], before, rest);
        assert(bytes =~= before + first + rest);
        assert forall|i: int| 0 <= i < packets.skip(1).len() implies storable(
            #[trigger] packets.skip(1)[i],
        ) by {
            assert(packets.skip(1)[i] == packets[i + 1]);
        }
        lemma_records_round_trip(endian, resolution, before + first, packets.skip(1));
        assert(all_read(packets) =~= seq![Ok::<PacketView, FormatError>(as_read(packets[0]))]
            + all_read(packets.skip(1)));
    }
}

/// A capture that was written is read back as it was written: the file
/// header unchanged, and each packet with its seconds, its microseconds, its
/// captured bytes and its two lengths, in the order of writing.
pub proof fn lemma_capture_round_trip(header: FileHeader, packets: Seq<PacketView>)
    requires
        forall|i: int| 0 <= i < packets.len() ==> storable(#[trigger] packets[i]),
    ensures
        parse_file_header(capture_bytes(header, packets)) == Ok::<FileHeader, FormatError>(
            header,
        ),
        record_results(header.endian, header.resolution, capture_bytes(header, packets), 24)
            == all_read(packets),
{
    lemma_file_header_round_trip(
        header,
        records_bytes(header.endian, header.resolution, packets),
    );
    lemma_records_round_trip(
        header.endian,
        header.resolution,
        file_header_bytes(header),
        packets,
    );
}

} // verus!
