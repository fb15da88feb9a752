//! Splitting a capture into one capture per flow.
//!
//! The segmenter takes the packets of a capture in their order, finds the
//! flow of each and appends the packet to the file of that flow. It keeps the
//! files in memory, in the order in which their flows were opened: the file
//! of the flow that was opened as number `i` stands at index `i`.

use vstd::prelude::*;
use vstd::slice::slice_subrange;
use crate::capture_format::{
    capture_bytes, encode_file_header, encode_record, file_header_bytes, parse_file_header,
    record_bytes, records_bytes, storable, FileHeader, FormatError,
};
use crate::decode::{decode_frame, layers_of, sliced_ethernet};
use crate::flow::{classify, flow_of, Admission, FlowEvent, FlowState, FlowTable, TableView};
use crate::naming::{flow_file_name, flow_path};
use crate::packet::{Packet, PacketView};
use crate::source::{lemma_record_results_sound, record_results, result_view, CaptureReader};
use crate::timestamp::Span;

verus! {

/// The capture of one flow.
#[derive(Debug)]
pub struct FlowFile {
    /// The flow, as of its latest packet.
    pub flow: FlowState,
    /// Whether the flow ended: by a timeout, or by a packet that closed it.
    pub closed: bool,
    /// The bytes of the file: a file header and one record for each packet.
    pub bytes: Vec<u8>,
}

/// The mathematical value of a [`FlowFile`].
pub struct FlowFileView {
    pub flow: FlowState,
    pub closed: bool,
    pub bytes: Seq<u8>,
}

impl View for FlowFile {
    type V = FlowFileView;

    open spec fn view(&self) -> FlowFileView {
        FlowFileView { flow: self.flow, closed: self.closed, bytes: self.bytes@ }
    }
}

impl FlowFile {
    /// The path of the file in the directory `dir`.
    pub fn path(&self, dir: &str) -> (path: String)
        ensures
            path@ == flow_file_name(dir@, self.flow.key),
    {
        flow_path(dir, self.flow.key)
    }
}

/// The values of a list of files.
pub open spec fn file_views(files: Seq<FlowFile>) -> Seq<FlowFileView> {
    Seq::new(files.len(), |i: int| files[i]@)
}

/// What the flow table reads of a packet, if the packet belongs to a flow:
/// the flow of its captured bytes, its capture time, and whether it carries
/// a flag that ends the flow.
pub open spec fn event_of(p: PacketView) -> Option<FlowEvent> {
    let layers = layers_of(sliced_ethernet(p.captured()));
    match flow_of(layers) {
        Some(key) => Some(
            FlowEvent { key, timestamp: p.timestamp, ends: layers.ends_conversation() },
        ),
        None => None,
    }
}

/// Splits a sequence of packets into the captures of their flows.
pub struct Segmenter {
    table: FlowTable,
    header: FileHeader,
    files: Vec<FlowFile>,
    seen: u64,
}

/// The mathematical value of a [`Segmenter`].
pub struct SegmenterView {
    /// The table of open flows.
    pub table: TableView,
    /// The file header that every file starts with.
    pub header: FileHeader,
    /// The files, in the order in which their flows were opened.
    pub files: Seq<FlowFileView>,
    /// How many packets and malformed records have been seen.
    pub seen: u64,
}

impl SegmenterView {
    /// The table is well formed, there is one file for each flow that was
    /// opened, and the file of each open flow stands at the index that is
    /// the number of the flow, holds the state of the flow and is not closed.
    pub open spec fn wf(self) -> bool {
        &&& self.table.wf()
        &&& self.files.len() == self.table.opened
        &&& self.table.admitted <= self.seen
        &&& forall|k: u64| #[trigger]
            self.table.open.contains_key(k) ==> {
                &&& self.files[self.table.open[k].instance as int].flow == self.table.open[k]
                &&& !self.files[self.table.open[k].instance as int].closed
            }
    }

    /// A segmenter that has seen nothing.
    pub open spec fn start(timeout: Span, header: FileHeader) -> SegmenterView {
        SegmenterView {
            table: TableView { open: Map::empty(), timeout, opened: 0, admitted: 0 },
            header,
            files: Seq::empty(),
            seen: 0,
        }
    }

    /// The files after an admission whose packet is stored as `record`: the
    /// file of a flow that timed out is marked closed; a flow that was opened
    /// gets a new file, which holds the file header and the record; a flow
    /// that was joined gets the record appended to its file.
    pub open spec fn written(self, a: Admission, record: Seq<u8>) -> Seq<FlowFileView> {
        let files = match a.closed_before {
            Some(f) => self.files.update(
                f.instance as int,
                FlowFileView { closed: true, ..self.files[f.instance as int] },
            ),
            None => self.files,
        };
        if a.opened {
            files.push(
                FlowFileView {
                    flow: a.flow,
                    closed: a.closed_after,
                    bytes: file_header_bytes(self.header) + record,
                },
            )
        } else {
            files.update(
                a.flow.instance as int,
                FlowFileView {
                    flow: a.flow,
                    closed: a.closed_after,
                    bytes: files[a.flow.instance as int].bytes + record,
                },
            )
        }
    }

    /// The segmenter after a record that cannot be used: it is counted and
    /// nothing else changes.
    pub open spec fn skip(self) -> SegmenterView {
        SegmenterView { seen: (self.seen + 1) as u64, ..self }
    }

    /// The segmenter after the packet `p`. A packet that belongs to no flow
    /// is counted and dropped. Any other packet is admitted to the table and
    /// written to the file of its flow.
    pub open spec fn push(self, p: PacketView) -> SegmenterView {
        match event_of(p) {
            None => self.skip(),
            Some(e) => SegmenterView {
                table: self.table.admit_packet(e.key, e.timestamp, e.ends),
                header: self.header,
                files: self.written(
                    self.table.outcome(e.key, e.timestamp, e.ends),
                    record_bytes(self.header.endian, self.header.resolution, p),
                ),
                seen: (self.seen + 1) as u64,
            },
        }
    }

    /// The segmenter after a run of records, as a source reports them: a
    /// packet is pushed, a malformed record is skipped.
    pub open spec fn after(self, results: Seq<Result<PacketView, FormatError>>) -> SegmenterView
        decreases results.len(),
    {
        if results.len() == 0 {
            self
        } else {
            let next = match results[0] {
                Ok(p) => self.push(p),
                Err(_) => self.skip(),
            };
            next.after(results.skip(1))
        }
    }
}

/// The files that splitting the capture `input` gives: the error of the file
/// header where it cannot be read, and otherwise the files of a segmenter
/// that has seen every record of the capture.
pub open spec fn split_files(input: Seq<u8>, timeout: Span, output: FileHeader) -> Result<
    Seq<FlowFileView>,
    FormatError,
> {
    match parse_file_header(input) {
        Err(e) => Err(e),
        Ok(h) => Ok(
            SegmenterView::start(timeout, output).after(
                record_results(h.endian, h.resolution, input, 24),
            ).files,
        ),
    }
}

impl View for Segmenter {
    type V = SegmenterView;

    closed spec fn view(&self) -> SegmenterView {
        SegmenterView {
            table: self.table@,
            header: self.header,
            files: file_views(self.files@),
            seen: self.seen,
        }
    }
}

impl Segmenter {
    /// See [`SegmenterView::wf`].
    pub open spec fn wf(&self) -> bool {
        self@.wf()
    }

    /// A segmenter that has seen nothing. Flows end after `timeout` without
    /// a packet, and every file starts with the file header `header`.
    pub fn new(timeout: Span, header: FileHeader) -> (s: Segmenter)
        requires
            timeout.wf(),
        ensures
            s.wf(),
            s@ == SegmenterView::start(timeout, header),
    {
        let s = Segmenter { table: FlowTable::new(timeout), header, files: Vec::new(), seen: 0 };
        assert(s@.files =~= Seq::<FlowFileView>::empty());
        s
    }

    /// How many packets and malformed records have been seen.
    pub fn seen(&self) -> (r: u64)
        ensures
            r == self@.seen,
    {
        self.seen
    }

    /// How many of the packets that were seen belonged to no flow or came as
    /// malformed records.
    pub fn dropped(&self) -> (r: u64)
        requires
            self.wf(),
        ensures
            r == self@.seen - self@.table.admitted,
    {
        self.seen - self.table.admitted()
    }

    /// Counts a record that cannot be used.
    pub fn skip(&mut self)
        requires
            old(self).wf(),
            old(self)@.seen < u64::MAX,
        ensures
            final(self).wf(),
            final(self)@ == old(self)@.skip(),
    {
        self.seen = self.seen + 1;
    }

    /// Takes the next packet of the capture; see [`SegmenterView::push`].
    ///
    /// Fails, and changes nothing, exactly when the seconds of the packet's
    /// timestamp do not fit the 32-bit field of a record.
    pub fn push(&mut self, packet: &Packet) -> (r: Result<(), FormatError>)
        requires
            old(self).wf(),
            packet.wf(),
            old(self)@.seen < u64::MAX,
        ensures
            final(self).wf(),
            r is Ok <==> storable(packet@),
            r is Ok ==> final(self)@ == old(self)@.push(packet@),
            r is Err ==> r == Err::<(), FormatError>(FormatError::SecondsOutOfRange),
            r is Err ==> final(self)@ == old(self)@,
    {
        if packet.timestamp.secs > u32::MAX as u64 {
            return Err(FormatError::SecondsOutOfRange);
        }
        let frame = slice_subrange(packet.data.as_slice(), 0, packet.captured_len as usize);
        assert(frame@ =~= packet@.captured());
        let layers = decode_frame(frame);
        self.seen = self.seen + 1;
        match classify(&layers) {
            None => {},
            Some(key) => {
                let ghost before = self@;
                let ghost k = key.packed();
                let a = self.table.admit_packet(key, packet.timestamp, layers.ends_conversation());
                let ghost record = record_bytes(self.header.endian, self.header.resolution, packet@);
                proof {
                    if before.table.open.contains_key(k) {
                        let f = before.table.open[k];
                        assert(before.files[f.instance as int].flow == f);
                    }
                }
                match a.closed_before {
                    Some(f) => {
                        let count: usize = self.files.len();
                        assert(f.instance < count);
                        let at: usize = f.instance as usize;
                        self.files[at].closed = true;
                    },
                    None => {},
                }
                let ghost marked = file_views(self.files@);
                assert(marked =~= match a.closed_before {
                    Some(f) => before.files.update(
                        f.instance as int,
                        FlowFileView { closed: true, ..before.files[f.instance as int] },
                    ),
                    None => before.files,
                });
                if a.opened {
                    let mut bytes: Vec<u8> = Vec::new();
                    encode_file_header(&self.header, &mut bytes);
                    let _ = encode_record(
                        self.header.endian,
                        self.header.resolution,
                        packet,
                        &mut bytes,
                    );
                    assert(bytes@ =~= file_header_bytes(self.header) + record);
                    self.files.push(FlowFile { flow: a.flow, closed: a.closed_after, bytes });
                } else {
                    let count: usize = self.files.len();
                    assert(a.flow.instance < count);
                    let at: usize = a.flow.instance as usize;
                    let _ = encode_record(
                        self.header.endian,
                        self.header.resolution,
                        packet,
                        &mut self.files[at].bytes,
                    );
                    self.files[at].flow = a.flow;
                    self.files[at].closed = a.closed_after;
                }
                assert(self@.files =~= before.written(a, record));
                proof {
                    let now = self@;
                    assert forall|j: u64| #[trigger] now.table.open.contains_key(j) implies {
                        &&& now.files[now.table.open[j].instance as int].flow == now.table.open[j]
                        &&& !now.files[now.table.open[j].instance as int].closed
                    } by {
                        if j != k {
                            assert(before.table.open.contains_key(j));
                            let g = before.table.open[j];
                            assert(before.files[g.instance as int].flow == g);
                            if before.table.open.contains_key(k) {
                                let f = before.table.open[k];
                                assert(before.files[f.instance as int].flow == f);
                                assert(f.instance != g.instance);
                            }
                        }
                    }
                }
            },
        }
        Ok(())
    }

    /// Hands out the files, in the order in which their flows were opened.
    pub fn into_files(self) -> (files: Vec<FlowFile>)
        ensures
            file_views(files@) == self@.files,
    {
        self.files
    }
}

/// Splits the capture `input` into the captures of its flows; see
/// [`split_files`]. Flows end after `timeout` without a packet, and every
/// file that is written starts with the file header `output`.
pub fn split_capture(input: Vec<u8>, timeout: Span, output: FileHeader) -> (r: Result<
    Vec<FlowFile>,
    FormatError,
>)
    requires
        timeout.wf(),
    ensures
        match r {
            Ok(files) => split_files(input@, timeout, output) == Ok::<
                Seq<FlowFileView>,
                FormatError,
            >(file_views(files@)),
            Err(e) => split_files(input@, timeout, output) == Err::<
                Seq<FlowFileView>,
                FormatError,
            >(e),
        },
{
    let total: usize = input.len();
    let mut reader = match CaptureReader::open(input) {
        Ok(reader) => reader,
        Err(e) => {
            return Err(e);
        },
    };
    let mut segmenter = Segmenter::new(timeout, output);
    let ghost target = segmenter@.after(reader@.pending());
    loop
        invariant
            reader.wf(),
            reader@.bytes == input@,
            reader@.bytes.len() == total,
            segmenter.wf(),
            segmenter@.seen <= reader@.position - 24,
            segmenter@.after(reader@.pending()) == target,
        ensures
            segmenter@ == target,
        decreases reader@.bytes.len() - reader@.position,
    {
        let ghost pending = reader@.pending();
        let ghost state = segmenter@;
        match reader.next_packet() {
            None => {
                break ;
            },
            Some(x) => {
                proof {
                    assert(pending[0] == result_view(x));
                    assert(pending.skip(1) =~= reader@.pending());
                }
                match x {
                    Ok(packet) => {
                        let _ = segmenter.push(&packet);
                    },
                    Err(_) => {
                        segmenter.skip();
                    },
                }
            },
        }
    }
    Ok(segmenter.into_files())
}

// ---------------------------------------------------------------------------
// Laws
// ---------------------------------------------------------------------------

/// A capture that holds a file header and no record gives no files.
pub proof fn lemma_empty_capture_gives_no_files(input: Seq<u8>, timeout: Span, output: FileHeader)
    requires
        parse_file_header(input) is Ok,
        input.len() == 24,
    ensures
        split_files(input, timeout, output) == Ok::<Seq<FlowFileView>, FormatError>(
            Seq::<FlowFileView>::empty(),
        ),
{
}

/// Splitting is repeatable: two runs over the same capture, with the same
/// timeout and the same output header, give the same files, byte for byte.
pub proof fn lemma_split_is_repeatable(
    input: Seq<u8>,
    timeout: Span,
    output: FileHeader,
    first: Seq<FlowFileView>,
    second: Seq<FlowFileView>,
)
    requires
        split_files(input, timeout, output) == Ok::<Seq<FlowFileView>, FormatError>(first),
        split_files(input, timeout, output) == Ok::<Seq<FlowFileView>, FormatError>(second),
    ensures
        first == second,
{
}

/// A run of records keeps a segmenter well formed: it counts each record
/// once, keeps one file for each flow that its table has opened, and never
/// removes a file.
pub proof fn lemma_files_follow_flows(
    state: SegmenterView,
    results: Seq<Result<PacketView, FormatError>>,
)
    requires
        state.wf(),
        state.seen + results.len() <= u64::MAX,
        forall|i: int|
            0 <= i < results.len() ==> ((#[trigger] results[i]) matches Ok(p) ==> p.timestamp.wf()),
    ensures
        state.after(results).wf(),
        state.after(results).seen == state.seen + results.len(),
        state.after(results).files.len() == state.after(results).table.opened,
        state.files.len() <= state.after(results).files.len(),
    decreases results.len(),
{
    if results.len() > 0 {
        let next = match results[0] {
            Ok(p) => state.push(p),
            Err(_) => state.skip(),
        };
        assert(next.wf() && next.seen == state.seen + 1 && state.files.len() <= next.files.len())
            by {
            match results[0] {
                Ok(p) => {
                    match event_of(p) {
                        Some(e) => {
                            lemma_pushed_wf(state, p, e);
                        },
                        None => {},
                    }
                },
                Err(_) => {},
            }
        }
        assert forall|i: int| 0 <= i < results.skip(1).len() implies ((#[trigger] results.skip(
            1,
        )[i]) matches Ok(p) ==> p.timestamp.wf()) by {
            assert(results.skip(1)[i] == results[i + 1]);
        }
        lemma_files_follow_flows(next, results.skip(1));
    }
}

/// Pushing a packet that belongs to a flow keeps the segmenter well formed.
proof fn lemma_pushed_wf(state: SegmenterView, p: PacketView, e: FlowEvent)
    requires
        state.wf(),
        state.seen < u64::MAX,
        p.timestamp.wf(),
        event_of(p) == Some(e),
    ensures
        state.push(p).wf(),
        state.push(p).seen == state.seen + 1,
        state.files.len() <= state.push(p).files.len(),
{
    let k = e.key.packed();
    let next = state.push(p);
    crate::flow::lemma_packet_counted_once(state.table, e, e.key);
    if state.table.open.contains_key(k) {
        let f = state.table.open[k];
        assert(state.files[f.instance as int].flow == f);
    }
    assert forall|j: u64| #[trigger] next.table.open.contains_key(j) implies {
        &&& next.files[next.table.open[j].instance as int].flow == next.table.open[j]
        &&& !next.files[next.table.open[j].instance as int].closed
    } by {
        if j != k {
            assert(state.table.open.contains_key(j));
            let g = state.table.open[j];
            assert(state.files[g.instance as int].flow == g);
            if state.table.open.contains_key(k) {
                let f = state.table.open[k];
                assert(f.instance != g.instance);
            }
        }
    }
}

/// Whether `file` is the capture of `packets`: it holds the file header and
/// one record for each of them, in their order, and its flow has counted
/// each of them.
pub open spec fn holds_packets(header: FileHeader, file: FlowFileView, packets: Seq<PacketView>)
    -> bool {
    &&& packets.len() == file.flow.total_count
    &&& forall|i: int| 0 <= i < packets.len() ==> storable(#[trigger] packets[i])
    &&& file.bytes == capture_bytes(header, packets)
}

/// Whether `file` is the capture of as many packets as its flow has counted.
pub open spec fn is_flow_capture(header: FileHeader, file: FlowFileView) -> bool {
    exists|packets: Seq<PacketView>| holds_packets(header, file, packets)
}

/// Whether every file of `state` is the capture of as many packets as its
/// flow has counted.
pub open spec fn all_flow_captures(state: SegmenterView) -> bool {
    forall|i: int|
        0 <= i < state.files.len() ==> is_flow_capture(state.header, #[trigger] state.files[i])
}

/// Pushing a packet that belongs to a flow keeps every file a capture.
proof fn lemma_push_keeps_captures(state: SegmenterView, p: PacketView, e: FlowEvent)
    requires
        state.wf(),
        all_flow_captures(state),
        state.seen < u64::MAX,
        storable(p),
        event_of(p) == Some(e),
    ensures
        all_flow_captures(state.push(p)),
{
    let a = state.table.outcome(e.key, e.timestamp, e.ends);
    let next = state.push(p);
    let k = e.key.packed();
    let header = state.header;
    let record = record_bytes(header.endian, header.resolution, p);
    if state.table.open.contains_key(k) {
        let f = state.table.open[k];
        assert(state.files[f.instance as int].flow == f);
    }
    assert forall|i: int| 0 <= i < next.files.len() implies is_flow_capture(
        header,
        #[trigger] next.files[i],
    ) by {
        if a.opened && i == state.files.len() {
            let packets = seq![p];
            let none = Seq::<PacketView>::empty();
            assert(packets.drop_last() =~= none);
            assert(packets.last() == p);
            assert(records_bytes(header.endian, header.resolution, none) =~= Seq::<u8>::empty());
            assert(records_bytes(header.endian, header.resolution, packets) =~= record);
            assert(holds_packets(header, next.files[i], packets));
        } else if !a.opened && i == a.flow.instance {
            assert(is_flow_capture(header, state.files[i]));
            let before = choose|packets: Seq<PacketView>|
                holds_packets(header, state.files[i], packets);
            let packets = before.push(p);
            assert(packets.drop_last() =~= before);
            assert(capture_bytes(header, packets) =~= state.files[i].bytes + record);
            assert(holds_packets(header, next.files[i], packets));
        } else {
            assert(is_flow_capture(header, state.files[i]));
            let packets = choose|packets: Seq<PacketView>|
                holds_packets(header, state.files[i], packets);
            assert(holds_packets(header, next.files[i], packets));
        }
    }
}

/// Every file is a capture of its flow. After a run of records that can be
/// stored again, each file of a segmenter holds the file header and exactly
/// as many records as its flow has counted packets.
pub proof fn lemma_files_are_flow_captures(
    state: SegmenterView,
    results: Seq<Result<PacketView, FormatError>>,
)
    requires
        state.wf(),
        all_flow_captures(state),
        state.seen + results.len() <= u64::MAX,
        forall|i: int|
            0 <= i < results.len() ==> ((#[trigger] results[i]) matches Ok(p) ==> storable(p)),
    ensures
        state.after(results).wf(),
        state.after(results).header == state.header,
        all_flow_captures(state.after(results)),
    decreases results.len(),
{
    if results.len() > 0 {
        let next = match results[0] {
            Ok(p) => state.push(p),
            Err(_) => state.skip(),
        };
        assert(next.header == state.header);
        assert(next.wf() && next.seen == state.seen + 1 && all_flow_captures(next)) by {
            match results[0] {
                Ok(p) => {
                    match event_of(p) {
                        Some(e) => {
                            lemma_pushed_wf(state, p, e);
                            lemma_push_keeps_captures(state, p, e);
                        },
                        None => {},
                    }
                },
                Err(_) => {},
            }
        }
        assert forall|i: int| 0 <= i < results.skip(1).len() implies ((#[trigger] results.skip(
            1,
        )[i]) matches Ok(p) ==> storable(p)) by {
            assert(results.skip(1)[i] == results[i + 1]);
        }
        lemma_files_are_flow_captures(next, results.skip(1));
    }
}

/// The files that splitting a capture gives are captures themselves: each
/// holds the file header and exactly as many records as its flow has counted
/// packets.
pub proof fn lemma_split_gives_flow_captures(input: Seq<u8>, timeout: Span, output: FileHeader)
    requires
        timeout.wf(),
        input.len() <= u64::MAX,
    ensures
        split_files(input, timeout, output) matches Ok(files) ==> forall|i: int|
            0 <= i < files.len() ==> is_flow_capture(output, #[trigger] files[i]),
{
    match parse_file_header(input) {
        Ok(h) => {
            let start = SegmenterView::start(timeout, output);
            assert(start.table.open.dom() =~= Set::<u64>::empty());
            assert(start.wf());
            assert(all_flow_captures(start));
            lemma_record_results_sound(h.endian, h.resolution, input, 24);
            lemma_files_are_flow_captures(
                start,
                record_results(h.endian, h.resolution, input, 24),
            );
        },
        Err(_) => {},
    }
}

} // verus!
