//! Cutting a part out of a capture: the packets of a range of capture time
//! that go to one of a set of IPv4 destinations.
//!
//! Time is counted in whole seconds from the first packet of the capture.
//! The first packet only fixes that origin and is never copied. Reading
//! stops at the first packet behind the range and at the first malformed
//! record. A frame inside the range that cannot be sliced fails the run.

use vstd::prelude::*;
use vstd::slice::slice_subrange;
use crate::capture_format::{
    capture_bytes, encode_file_header, encode_record, file_header_bytes, parse_file_header,
    record_bytes, records_bytes, FileHeader, FormatError,
};
use crate::decode::{sliced_ethernet, try_decode_frame, Layers, NetworkLayer};
use crate::flow::{address_from_octets, address_of};
use crate::packet::PacketView;
use crate::source::{lemma_records_bytes_front, record_results, CaptureReader};

verus! {

/// Which packets to copy: those captured from `from_secs` to `to_secs`
/// seconds after the first packet, both bounds included, whose IPv4
/// destination is one of `destinations`.
#[derive(Clone, Debug)]
pub struct Selection {
    pub from_secs: u64,
    pub to_secs: u64,
    pub destinations: Vec<u32>,
}

/// The mathematical value of a [`Selection`].
pub struct SelectionView {
    pub from_secs: u64,
    pub to_secs: u64,
    pub destinations: Seq<u32>,
}

impl View for Selection {
    type V = SelectionView;

    open spec fn view(&self) -> SelectionView {
        SelectionView {
            from_secs: self.from_secs,
            to_secs: self.to_secs,
            destinations: self.destinations@,
        }
    }
}

/// Why a part could not be cut out of a capture.
#[derive(Clone, Copy, Debug, PartialEq, Eq, Structural)]
pub enum ExtractError {
    /// The file header of the capture cannot be read.
    Header(FormatError),
    /// The capture holds no first packet to count time from.
    NoFirstPacket,
    /// A frame inside the range cannot be sliced.
    Frame,
}

/// Whether a frame with these layers goes to one of `destinations`.
pub open spec fn goes_to(layers: Layers, destinations: Seq<u32>) -> bool {
    layers.network matches NetworkLayer::Ipv4 { source, destination } && destinations.contains(
        address_of(destination),
    )
}

/// The output after the records `results`, where it holds `out` before
/// them and time is counted from `origin_secs`.
pub open spec fn extracted(
    results: Seq<Result<PacketView, FormatError>>,
    origin_secs: u64,
    selection: SelectionView,
    output: FileHeader,
    out: Seq<u8>,
) -> Result<Seq<u8>, ExtractError>
    decreases results.len(),
{
    if results.len() == 0 {
        Ok(out)
    } else {
        match results[0] {
            Err(_) => Ok(out),
            Ok(p) => {
                let elapsed = p.timestamp.secs - origin_secs;
                if elapsed < selection.from_secs {
                    extracted(results.skip(1), origin_secs, selection, output, out)
                } else if elapsed > selection.to_secs {
                    Ok(out)
                } else {
                    match sliced_ethernet(p.captured()) {
                        None => Err(ExtractError::Frame),
                        Some(layers) => extracted(
                            results.skip(1),
                            origin_secs,
                            selection,
                            output,
                            if goes_to(layers, selection.destinations) {
                                out + record_bytes(output.endian, output.resolution, p)
                            } else {
                                out
                            },
                        ),
                    }
                }
            },
        }
    }
}

/// The capture that cutting the selection out of `input` gives.
pub open spec fn extract_result(input: Seq<u8>, selection: SelectionView, output: FileHeader)
    -> Result<Seq<u8>, ExtractError> {
    match parse_file_header(input) {
        Err(e) => Err(ExtractError::Header(e)),
        Ok(h) => {
            let results = record_results(h.endian, h.resolution, input, 24);
            if results.len() > 0 && results[0] is Ok {
                extracted(
                    results.skip(1),
                    results[0]->Ok_0.timestamp.secs,
                    selection,
                    output,
                    file_header_bytes(output),
                )
            } else {
                Err(ExtractError::NoFirstPacket)
            }
        },
    }
}

/// Whether `address` is one of `list`.
fn is_listed(list: &Vec<u32>, address: u32) -> (r: bool)
    ensures
        r == list@.contains(address),
{
    let mut i: usize = 0;
    while i < list.len()
        invariant
            i <= list@.len(),
            forall|j: int| 0 <= j < i ==> list@[j] != address,
        decreases list@.len() - i,
    {
        if list[i] == address {
            return true;
        }
        i += 1;
    }
    false
}

/// Whether a frame with these layers goes to one of `destinations`; see
/// [`goes_to`].
pub fn is_selected(layers: &Layers, destinations: &Vec<u32>) -> (r: bool)
    ensures
        r == goes_to(*layers, destinations@),
{
    match layers.network {
        NetworkLayer::Ipv4 { source, destination } => is_listed(
            destinations,
            address_from_octets(&destination),
        ),
        _ => false,
    }
}

/// Cuts the selection out of the capture `input` and returns the bytes of a
/// capture that starts with the file header `output`; see
/// [`extract_result`].
pub fn extract_capture(input: Vec<u8>, selection: &Selection, output: FileHeader) -> (r: Result<
    Vec<u8>,
    ExtractError,
>)
    ensures
        match r {
            Ok(bytes) => extract_result(input@, selection@, output) == Ok::<
                Seq<u8>,
                ExtractError,
            >(bytes@),
            Err(e) => extract_result(input@, selection@, output) == Err::<
                Seq<u8>,
                ExtractError,
            >(e),
        },
{
    let mut reader = match CaptureReader::open(input) {
        Ok(reader) => reader,
        Err(e) => {
            return Err(ExtractError::Header(e));
        },
    };
    let ghost all = reader@.pending();
    let origin_secs: u64 = match reader.next_packet() {
        Some(Ok(first)) => first.timestamp.secs,
        _ => {
            return Err(ExtractError::NoFirstPacket);
        },
    };
    assert(all.skip(1) =~= reader@.pending());
    let mut out: Vec<u8> = Vec::new();
    encode_file_header(&output, &mut out);
    let ghost target = extract_result(input@, selection@, output);
    loop
        invariant_except_break
            extracted(reader@.pending(), origin_secs, selection@, output, out@) == target,
        invariant
            reader.wf(),
            target == extract_result(input@, selection@, output),
        ensures
            target == Ok::<Seq<u8>, ExtractError>(out@),
        decreases reader@.bytes.len() - reader@.position,
    {
        let ghost pending = reader@.pending();
        let packet = match reader.next_packet() {
            Some(Ok(packet)) => packet,
            Some(Err(e)) => {
                assert(pending[0] == Err::<PacketView, FormatError>(e));
                break ;
            },
            None => {
                break ;
            },
        };
        proof {
            assert(pending[0] == Ok::<PacketView, FormatError>(packet@));
            assert(pending.skip(1) =~= reader@.pending());
        }
        if packet.timestamp.secs < origin_secs || packet.timestamp.secs - origin_secs
            < selection.from_secs {
            continue ;
        }
        if packet.timestamp.secs - origin_secs > selection.to_secs {
            break ;
        }
        let frame = slice_subrange(packet.data.as_slice(), 0, packet.captured_len as usize);
        assert(frame@ =~= packet@.captured());
        match try_decode_frame(frame) {
            None => {
                return Err(ExtractError::Frame);
            },
            Some(layers) => {
                if is_selected(&layers, &selection.destinations) {
                    let _ = encode_record(output.endian, output.resolution, &packet, &mut out);
                }
            },
        }
    }
    Ok(out)
}

// ---------------------------------------------------------------------------
// Laws
// ---------------------------------------------------------------------------

/// Whether a packet is one to copy: it lies in the range of the selection,
/// counted from `origin_secs`, its frame can be sliced, and it goes to one
/// of the destinations.
pub open spec fn wanted(p: PacketView, origin_secs: u64, selection: SelectionView) -> bool {
    &&& selection.from_secs <= p.timestamp.secs - origin_secs <= selection.to_secs
    &&& sliced_ethernet(p.captured()) matches Some(layers) && goes_to(
        layers,
        selection.destinations,
    )
}

/// The packets among `results` that are copied, in their order, where no
/// frame fails the run: the wanted ones up to the first packet behind the
/// range or the first malformed record.
pub open spec fn copies(
    results: Seq<Result<PacketView, FormatError>>,
    origin_secs: u64,
    selection: SelectionView,
) -> Seq<PacketView>
    decreases results.len(),
{
    if results.len() == 0 {
        Seq::empty()
    } else {
        match results[0] {
            Err(_) => Seq::empty(),
            Ok(p) => if p.timestamp.secs - origin_secs > selection.to_secs
                && p.timestamp.secs - origin_secs >= selection.from_secs {
                Seq::empty()
            } else if wanted(p, origin_secs, selection) {
                seq![p] + copies(results.skip(1), origin_secs, selection)
            } else {
                copies(results.skip(1), origin_secs, selection)
            },
        }
    }
}

/// Every packet that is copied is a wanted one.
pub proof fn lemma_copies_are_wanted(
    results: Seq<Result<PacketView, FormatError>>,
    origin_secs: u64,
    selection: SelectionView,
)
    ensures
        forall|i: int|
            0 <= i < copies(results, origin_secs, selection).len() ==> wanted(
                #[trigger] copies(results, origin_secs, selection)[i],
                origin_secs,
                selection,
            ),
    decreases results.len(),
{
    if results.len() > 0 {
        let rest = copies(results.skip(1), origin_secs, selection);
        lemma_copies_are_wanted(results.skip(1), origin_secs, selection);
        let all = copies(results, origin_secs, selection);
        assert forall|i: int| 0 <= i < all.len() implies wanted(
            #[trigger] all[i],
            origin_secs,
            selection,
        ) by {
            if all.len() == rest.len() + 1 {
                if i > 0 {
                    assert(all[i] == rest[i - 1]);
                }
            } else if all.len() == rest.len() {
                if all.len() > 0 {
                    assert(all =~= rest);
                }
            }
        }
    }
}

/// A run that succeeds appends the records of the copied packets, in their
/// order, and nothing else.
pub proof fn lemma_extracted_appends_copies(
    results: Seq<Result<PacketView, FormatError>>,
    origin_secs: u64,
    selection: SelectionView,
    output: FileHeader,
    out: Seq<u8>,
)
    ensures
        extracted(results, origin_secs, selection, output, out) matches Ok(bytes) ==> bytes == out
            + records_bytes(
            output.endian,
            output.resolution,
            copies(results, origin_secs, selection),
        ),
    decreases results.len(),
{
    let none = Seq::<PacketView>::empty();
    assert(out + records_bytes(output.endian, output.resolution, none) =~= out);
    if results.len() > 0 {
        match results[0] {
            Err(_) => {},
            Ok(p) => {
                let elapsed = p.timestamp.secs - origin_secs;
                let rest = copies(results.skip(1), origin_secs, selection);
                if elapsed < selection.from_secs {
                    lemma_extracted_appends_copies(
                        results.skip(1),
                        origin_secs,
                        selection,
                        output,
                        out,
                    );
                } else if elapsed > selection.to_secs {
                } else {
                    match sliced_ethernet(p.captured()) {
                        None => {},
                        Some(layers) => {
                            if goes_to(layers, selection.destinations) {
                                let record = record_bytes(output.endian, output.resolution, p);
                                lemma_extracted_appends_copies(
                                    results.skip(1),
                                    origin_secs,
                                    selection,
                                    output,
                                    out + record,
                                );
                                let all = seq![p] + rest;
                                assert(all[0] == p);
                                assert(all.skip(1) =~= rest);
                                lemma_records_bytes_front(output.endian, output.resolution, all);
                                assert(out + record + records_bytes(
                                    output.endian,
                                    output.resolution,
                                    rest,
                                ) =~= out + records_bytes(
                                    output.endian,
                                    output.resolution,
                                    all,
                                ));
                            } else {
                                lemma_extracted_appends_copies(
                                    results.skip(1),
                                    origin_secs,
                                    selection,
                                    output,
                                    out,
                                );
                            }
                        },
                    }
                }
            },
        }
    }
}

/// What is cut out of a capture is a capture: where the run succeeds, its
/// result is the capture that starts with the output header and holds the
/// copied packets, each of them a wanted one.
pub proof fn lemma_extract_gives_capture(
    input: Seq<u8>,
    selection: SelectionView,
    output: FileHeader,
)
    ensures
        extract_result(input, selection, output) matches Ok(bytes) ==> {
            let h = parse_file_header(input)->Ok_0;
            let results = record_results(h.endian, h.resolution, input, 24);
            let origin_secs = results[0]->Ok_0.timestamp.secs;
            &&& bytes == capture_bytes(output, copies(results.skip(1), origin_secs, selection))
            &&& forall|i: int|
                0 <= i < copies(results.skip(1), origin_secs, selection).len() ==> wanted(
                    #[trigger] copies(results.skip(1), origin_secs, selection)[i],
                    origin_secs,
                    selection,
                )
        },
{
    match parse_file_header(input) {
        Ok(h) => {
            let results = record_results(h.endian, h.resolution, input, 24);
            if results.len() > 0 && results[0] is Ok {
                let origin_secs = results[0]->Ok_0.timestamp.secs;
                lemma_extracted_appends_copies(
                    results.skip(1),
                    origin_secs,
                    selection,
                    output,
                    file_header_bytes(output),
                );
                lemma_copies_are_wanted(results.skip(1), origin_secs, selection);
            }
        },
        Err(_) => {},
    }
}

} // verus!
