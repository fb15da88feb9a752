//! Flows: conversations between an ordered pair of addresses.

use vstd::prelude::*;
use crate::decode::{Layers, NetworkLayer, TransportLayer};
use crate::flow_map::{count, discard, empty_map, entries, lookup, new_hasher, store, take_one, FlowMap};
use crate::timestamp::{Span, Timestamp};

verus! {

/// The identity of a flow: the source and the destination IPv4 address, in
/// that order. The two directions of a conversation are two flows.
#[derive(Clone, Copy, Debug, PartialEq, Eq, Hash, Structural)]
pub struct FlowKey {
    pub source: u32,
    pub destination: u32,
}

/// What the table knows of one flow: its key, the number under which it was
/// opened, how many packets it has received, and the capture times of its
/// first and of its latest packet.
#[derive(Clone, Copy, Debug, PartialEq, Eq, Structural)]
pub struct FlowState {
    pub key: FlowKey,
    pub instance: u64,
    pub total_count: u64,
    pub created: Timestamp,
    pub last_packet_timestamp: Timestamp,
}

impl FlowKey {
    /// The key as one number: the source in the upper, the destination in
    /// the lower 32 bits.
    pub open spec fn spec_packed(self) -> u64 {
        (self.source as int * 0x1_0000_0000 + self.destination as int) as u64
    }

    /// The key as one number; see [`FlowKey::spec_packed`].
    #[verifier::when_used_as_spec(spec_packed)]
    pub fn packed(self) -> (r: u64)
        ensures
            r == self.spec_packed(),
    {
        self.source as u64 * 0x1_0000_0000 + self.destination as u64
    }

    /// The key of the opposite direction.
    pub fn rev(&self) -> (r: FlowKey)
        ensures
            r.source == self.destination,
            r.destination == self.source,
    {
        FlowKey { source: self.destination, destination: self.source }
    }
}

/// Different keys are packed to different numbers.
pub proof fn lemma_packed_injective(a: FlowKey, b: FlowKey)
    requires
        a.packed() == b.packed(),
    ensures
        a == b,
{
}

/// The number that four octets stand for, the first octet most significant.
pub open spec fn address_of(octets: [u8; 4]) -> u32 {
    (octets[0] as int * 0x100_0000 + octets[1] as int * 0x1_0000 + octets[2] as int * 0x100
        + octets[3] as int) as u32
}

/// The number that four octets stand for; see [`address_of`].
pub fn address_from_octets(octets: &[u8; 4]) -> (r: u32)
    ensures
        r == address_of(*octets),
{
    octets[0] as u32 * 0x100_0000 + octets[1] as u32 * 0x1_0000 + octets[2] as u32 * 0x100
        + octets[3] as u32
}

/// The flow that a frame belongs to, if it belongs to one.
///
/// A frame belongs to a flow when it carries IPv4 with TCP or UDP on top. The
/// flow is the ordered pair of its addresses.
pub open spec fn flow_of(layers: Layers) -> Option<FlowKey> {
    match layers.network {
        NetworkLayer::Ipv4 { source, destination } => match layers.transport {
            TransportLayer::Other => None,
            _ => Some(
                FlowKey { source: address_of(source), destination: address_of(destination) },
            ),
        },
        _ => None,
    }
}

/// Maps the layers of a frame to its flow; see [`flow_of`].
pub fn classify(layers: &Layers) -> (r: Option<FlowKey>)
    ensures
        r == flow_of(*layers),
{
    match layers.network {
        NetworkLayer::Ipv4 { source, destination } => match layers.transport {
            TransportLayer::Other => None,
            _ => Some(
                FlowKey {
                    source: address_from_octets(&source),
                    destination: address_from_octets(&destination),
                },
            ),
        },
        _ => None,
    }
}

// ---------------------------------------------------------------------------
// The table of open flows
// ---------------------------------------------------------------------------

/// What admitting one packet did, and what the owner of the sinks has to do
/// for it, in this order: close the sink of `closed_before`, if there is one;
/// open a sink for `flow` if `opened` is set; write the packet to the sink of
/// `flow`; close that sink if `closed_after` is set.
#[derive(Clone, Copy, Debug, PartialEq, Eq, Structural)]
pub struct Admission {
    /// The flow that the packet found timed out, as it was when it closed.
    pub closed_before: Option<FlowState>,
    /// The flow that received the packet, with the packet counted.
    pub flow: FlowState,
    /// Whether `flow` was opened for this packet.
    pub opened: bool,
    /// Whether the packet ended `flow`.
    pub closed_after: bool,
}

/// The table of open flows: at most one per key.
pub struct FlowTable {
    flows: FlowMap,
    timeout: Span,
    opened: u64,
    admitted: u64,
}

/// The mathematical value of a [`FlowTable`].
pub struct TableView {
    /// The open flows, by packed key.
    pub open: Map<u64, FlowState>,
    /// The time without a packet after which a flow counts as ended.
    pub timeout: Span,
    /// How many flows have been opened so far.
    pub opened: u64,
    /// How many packets have been admitted so far.
    pub admitted: u64,
}

/// The state of a flow that `timestamp` opens as the flow number `instance`.
pub open spec fn fresh_flow(key: FlowKey, instance: u64, timestamp: Timestamp) -> FlowState {
    FlowState {
        key,
        instance,
        total_count: 1,
        created: timestamp,
        last_packet_timestamp: timestamp,
    }
}

/// Whether a packet seen at `timestamp` finds `flow` timed out: the capture
/// time since the latest packet of the flow is the timeout or more.
pub open spec fn timed_out(flow: FlowState, timeout: Span, timestamp: Timestamp) -> bool {
    timestamp.as_micros() - flow.last_packet_timestamp.as_micros() >= timeout.as_micros()
}

impl FlowState {
    /// Both timestamps are well formed and at least one packet was counted.
    pub open spec fn wf(self) -> bool {
        &&& self.created.wf()
        &&& self.last_packet_timestamp.wf()
        &&& self.total_count >= 1
    }

    /// The number of packets that the flow has received.
    pub fn len(&self) -> (r: u64)
        ensures
            r == self.total_count,
    {
        self.total_count
    }
}

impl TableView {
    /// Every open flow is stored under its own key, was opened and counted
    /// within the table's counters, and finitely many flows are open.
    pub open spec fn wf(self) -> bool {
        &&& self.open.dom().finite()
        &&& self.timeout.wf()
        &&& self.opened <= self.admitted
        &&& forall|k: u64| #[trigger]
            self.open.contains_key(k) ==> {
                &&& self.open[k].wf()
                &&& self.open[k].key.packed() == k
                &&& self.open[k].instance < self.opened
                &&& self.open[k].total_count <= self.admitted
            }
    }

    /// What admitting a packet of flow `key`, seen at `timestamp`, reports.
    /// `ends` says whether the packet carries a flag that ends the flow.
    ///
    /// A packet that finds no open flow, or a timed-out one, opens a flow. A
    /// packet that finds a live flow joins it and, with `ends`, closes it.
    pub open spec fn outcome(self, key: FlowKey, timestamp: Timestamp, ends: bool) -> Admission {
        let k = key.packed();
        if self.open.contains_key(k) && !timed_out(self.open[k], self.timeout, timestamp) {
            Admission {
                closed_before: None,
                flow: FlowState {
                    key: self.open[k].key,
                    instance: self.open[k].instance,
                    total_count: (self.open[k].total_count + 1) as u64,
                    created: self.open[k].created,
                    last_packet_timestamp: timestamp,
                },
                opened: false,
                closed_after: ends,
            }
        } else {
            Admission {
                closed_before: if self.open.contains_key(k) {
                    Some(self.open[k])
                } else {
                    None
                },
                flow: fresh_flow(key, self.opened, timestamp),
                opened: true,
                closed_after: false,
            }
        }
    }

    /// The table after admitting a packet; see [`TableView::outcome`].
    pub open spec fn admit_packet(self, key: FlowKey, timestamp: Timestamp, ends: bool) -> TableView {
        let a = self.outcome(key, timestamp, ends);
        TableView {
            open: if a.closed_after {
                self.open.remove(key.packed())
            } else {
                self.open.insert(key.packed(), a.flow)
            },
            timeout: self.timeout,
            opened: if a.opened {
                (self.opened + 1) as u64
            } else {
                self.opened
            },
            admitted: (self.admitted + 1) as u64,
        }
    }
}

impl View for FlowTable {
    type V = TableView;

    closed spec fn view(&self) -> TableView {
        TableView {
            open: entries(self.flows),
            timeout: self.timeout,
            opened: self.opened,
            admitted: self.admitted,
        }
    }
}

impl FlowTable {
    /// See [`TableView::wf`].
    pub open spec fn wf(&self) -> bool {
        self@.wf()
    }

    /// A table without flows for the given inactivity timeout.
    pub fn new(timeout: Span) -> (table: FlowTable)
        requires
            timeout.wf(),
        ensures
            table.wf(),
            table@ == (TableView { open: Map::empty(), timeout, opened: 0, admitted: 0 }),
    {
        FlowTable { flows: empty_map(new_hasher()), timeout, opened: 0, admitted: 0 }
    }

    /// The open flow of `key`, if there is one.
    pub fn flow(&self, key: FlowKey) -> (r: Option<FlowState>)
        ensures
            r == if self@.open.contains_key(key.packed()) {
                Some(self@.open[key.packed()])
            } else {
                None::<FlowState>
            },
    {
        lookup(&self.flows, key.packed())
    }

    /// The number of open flows.
    pub fn open_flows(&self) -> (r: usize)
        ensures
            r == self@.open.dom().len(),
    {
        count(&self.flows)
    }

    /// The number of flows opened so far.
    pub fn opened(&self) -> (r: u64)
        ensures
            r == self@.opened,
    {
        self.opened
    }

    /// The number of packets admitted so far.
    pub fn admitted(&self) -> (r: u64)
        ensures
            r == self@.admitted,
    {
        self.admitted
    }

    /// Admits a packet of flow `key` that was captured at `timestamp`; `ends`
    /// says whether it carries the TCP flag FIN or RST.
    ///
    /// The table changes as [`TableView::admit_packet`] says, and the result tells
    /// the owner of the sinks what to do; see [`Admission`].
    pub fn admit_packet(&mut self, key: FlowKey, timestamp: Timestamp, ends: bool) -> (a: Admission)
        requires
            old(self).wf(),
            timestamp.wf(),
            old(self)@.admitted < u64::MAX,
        ensures
            final(self).wf(),
            final(self)@ == old(self)@.admit_packet(key, timestamp, ends),
            a == old(self)@.outcome(key, timestamp, ends),
    {
        let k: u64 = key.packed();
        let current = lookup(&self.flows, k);
        let live: bool = match current {
            Some(flow) => {
                let gap = timestamp.signed_delta(flow.last_packet_timestamp);
                gap.negative || !gap.magnitude.at_least(self.timeout)
            },
            None => false,
        };
        let a = match current {
            Some(flow) if live => Admission {
                closed_before: None,
                flow: FlowState {
                    key: flow.key,
                    instance: flow.instance,
                    total_count: flow.total_count + 1,
                    created: flow.created,
                    last_packet_timestamp: timestamp,
                },
                opened: false,
                closed_after: ends,
            },
            _ => Admission {
                closed_before: current,
                flow: FlowState {
                    key,
                    instance: self.opened,
                    total_count: 1,
                    created: timestamp,
                    last_packet_timestamp: timestamp,
                },
                opened: true,
                closed_after: false,
            },
        };
        if a.closed_after {
            discard(&mut self.flows, k);
        } else {
            store(&mut self.flows, k, a.flow);
        }
        if a.opened {
            self.opened = self.opened + 1;
        }
        self.admitted = self.admitted + 1;
        assert(self@.open =~= old(self)@.admit_packet(key, timestamp, ends).open);
        a
    }

    /// Closes every open flow and reports each of them once, so that its sink
    /// can be flushed and released. The counters stay as they are.
    pub fn close_all(&mut self) -> (closed: Vec<FlowState>)
        requires
            old(self).wf(),
        ensures
            final(self).wf(),
            final(self)@ == (TableView { open: Map::empty(), ..old(self)@ }),
            closed@.len() == old(self)@.open.dom().len(),
            forall|i: int|
                0 <= i < closed@.len() ==> {
                    &&& old(self)@.open.contains_key(#[trigger] closed@[i].key.packed())
                    &&& old(self)@.open[closed@[i].key.packed()] == closed@[i]
                },
            forall|k: u64| #[trigger]
                old(self)@.open.contains_key(k) ==> closed@.contains(old(self)@.open[k]),
    {
        let mut closed: Vec<FlowState> = Vec::new();
        loop
            invariant
                self.wf(),
                self@.timeout == old(self)@.timeout,
                self@.opened == old(self)@.opened,
                self@.admitted == old(self)@.admitted,
                closed@.len() + self@.open.dom().len() == old(self)@.open.dom().len(),
                forall|k: u64| #[trigger]
                    self@.open.contains_key(k) ==> old(self)@.open.contains_key(k) && self@.open[k]
                        == old(self)@.open[k],
                forall|i: int|
                    0 <= i < closed@.len() ==> {
                        &&& old(self)@.open.contains_key(#[trigger] closed@[i].key.packed())
                        &&& old(self)@.open[closed@[i].key.packed()] == closed@[i]
                    },
                forall|k: u64| #[trigger]
                    old(self)@.open.contains_key(k) ==> self@.open.contains_key(k)
                        || closed@.contains(old(self)@.open[k]),
            ensures
                self@.open.dom() =~= Set::<u64>::empty(),
            decreases self@.open.dom().len(),
        {
            let ghost before = self@;
            let ghost listed = closed@;
            match take_one(&mut self.flows) {
                None => {
                    break ;
                },
                Some((k, flow)) => {
                    closed.push(flow);
                    proof {
                        assert(closed@[listed.len() as int] == flow);
                        assert forall|j: u64| #[trigger]
                            old(self)@.open.contains_key(j) implies self@.open.contains_key(j)
                            || closed@.contains(old(self)@.open[j]) by {
                            if before.open.contains_key(j) {
                                if j == k {
                                    assert(closed@[listed.len() as int] == old(self)@.open[j]);
                                }
                            } else {
                                let i = choose|i: int|
                                    0 <= i < listed.len() && listed[i] == old(self)@.open[j];
                                assert(listed.contains(old(self)@.open[j]));
                                assert(closed@[i] == listed[i]);
                            }
                        }
                    }
                },
            }
        }
        assert(self@.open =~= Map::<u64, FlowState>::empty());
        closed
    }
}

// ---------------------------------------------------------------------------
// Runs of packets
// ---------------------------------------------------------------------------

/// What the table reads of one classified packet.
pub struct FlowEvent {
    pub key: FlowKey,
    pub timestamp: Timestamp,
    pub ends: bool,
}

/// The flows that an admission closed, in the order in which they closed.
pub open spec fn closures(a: Admission) -> Seq<FlowState> {
    let before = match a.closed_before {
        Some(flow) => seq![flow],
        None => Seq::<FlowState>::empty(),
    };
    if a.closed_after {
        before.push(a.flow)
    } else {
        before
    }
}

/// The packets that the flows of `key` among `flows` have received together.
pub open spec fn packets_in(flows: Seq<FlowState>, key: FlowKey) -> int
    decreases flows.len(),
{
    if flows.len() == 0 {
        0
    } else {
        packets_in(flows.drop_last(), key) + if flows.last().key == key {
            flows.last().total_count as int
        } else {
            0
        }
    }
}

/// The number of packets of flow `key` among `events`.
pub open spec fn packets_of(events: Seq<FlowEvent>, key: FlowKey) -> int
    decreases events.len(),
{
    if events.len() == 0 {
        0
    } else {
        packets_of(events.skip(1), key) + if events[0].key == key {
            1int
        } else {
            0
        }
    }
}

impl TableView {
    /// The table after admitting `events` one after the other.
    pub open spec fn after(self, events: Seq<FlowEvent>) -> TableView
        decreases events.len(),
    {
        if events.len() == 0 {
            self
        } else {
            let e = events[0];
            self.admit_packet(e.key, e.timestamp, e.ends).after(events.skip(1))
        }
    }

    /// The flows that closed while `events` were admitted, each as it was
    /// when it closed, in the order in which they closed.
    pub open spec fn closed_during(self, events: Seq<FlowEvent>) -> Seq<FlowState>
        decreases events.len(),
    {
        if events.len() == 0 {
            Seq::<FlowState>::empty()
        } else {
            let e = events[0];
            closures(self.outcome(e.key, e.timestamp, e.ends)) + self.admit_packet(
                e.key,
                e.timestamp,
                e.ends,
            ).closed_during(events.skip(1))
        }
    }

    /// The packets that the open flow of `key` has received, zero where no
    /// such flow is open.
    pub open spec fn packets_in_open(self, key: FlowKey) -> int {
        if self.open.contains_key(key.packed()) {
            self.open[key.packed()].total_count as int
        } else {
            0
        }
    }
}

/// The packets of two runs of flows add up.
pub proof fn lemma_packets_in_concat(a: Seq<FlowState>, b: Seq<FlowState>, key: FlowKey)
    ensures
        packets_in(a + b, key) == packets_in(a, key) + packets_in(b, key),
    decreases b.len(),
{
    if b.len() == 0 {
        assert(a + b =~= a);
    } else {
        assert((a + b).drop_last() =~= a + b.drop_last());
        assert((a + b).last() == b.last());
        lemma_packets_in_concat(a, b.drop_last(), key);
    }
}

/// Admitting one packet keeps the table well formed and counts the packet
/// once, for its own flow: what the open flow of a key and the flows of that
/// key closed by the admission have received together grows by one for the
/// key of the packet and stays as it is for every other key.
pub proof fn lemma_packet_counted_once(table: TableView, event: FlowEvent, key: FlowKey)
    requires
        table.wf(),
        event.timestamp.wf(),
        table.admitted < u64::MAX,
    ensures
        table.admit_packet(event.key, event.timestamp, event.ends).wf(),
        table.admit_packet(event.key, event.timestamp, event.ends).packets_in_open(key)
            + packets_in(closures(table.outcome(event.key, event.timestamp, event.ends)), key)
            == table.packets_in_open(key) + if event.key == key {
            1int
        } else {
            0
        },
{
    let a = table.outcome(event.key, event.timestamp, event.ends);
    let next = table.admit_packet(event.key, event.timestamp, event.ends);
    let k = event.key.packed();
    if event.key != key {
        if k == key.packed() {
            lemma_packed_injective(event.key, key);
        }
    }
    if table.open.contains_key(k) {
        lemma_packed_injective(table.open[k].key, event.key);
    }
    let none = Seq::<FlowState>::empty();
    assert(packets_in(none, key) == 0);
    assert forall|f: FlowState| #[trigger]
        packets_in(seq![f], key) == if f.key == key {
            f.total_count as int
        } else {
            0
        } by {
        assert(seq![f].drop_last() =~= none);
        assert(seq![f].last() == f);
    }
    if a.closed_after {
        assert(a.closed_before is None);
        assert(closures(a) =~= seq![a.flow]);
    } else {
        match a.closed_before {
            Some(f) => {
                assert(closures(a) =~= seq![f]);
            },
            None => {
                assert(closures(a) =~= none);
            },
        }
    }
    assert(next.wf());
}

/// Every packet is counted once. After admitting a run of packets, what the
/// open flow of a key and all flows of that key that closed on the way have
/// received together is what the open flow had received before plus the
/// number of packets of that key in the run. From an empty table that is the
/// number of packets of the key.
pub proof fn lemma_packets_counted_once(table: TableView, events: Seq<FlowEvent>, key: FlowKey)
    requires
        table.wf(),
        table.admitted + events.len() <= u64::MAX,
        forall|i: int| 0 <= i < events.len() ==> (#[trigger] events[i]).timestamp.wf(),
    ensures
        table.after(events).wf(),
        table.after(events).admitted == table.admitted + events.len(),
        table.after(events).packets_in_open(key) + packets_in(table.closed_during(events), key)
            == table.packets_in_open(key) + packets_of(events, key),
    decreases events.len(),
{
    if events.len() == 0 {
    } else {
        let e = events[0];
        let next = table.admit_packet(e.key, e.timestamp, e.ends);
        let rest = events.skip(1);
        lemma_packet_counted_once(table, e, key);
        assert forall|i: int| 0 <= i < rest.len() implies (#[trigger] rest[i]).timestamp.wf() by {
            assert(rest[i] == events[i + 1]);
        }
        lemma_packets_counted_once(next, rest, key);
        lemma_packets_in_concat(
            closures(table.outcome(e.key, e.timestamp, e.ends)),
            next.closed_during(rest),
            key,
        );
    }
}

} // verus!
