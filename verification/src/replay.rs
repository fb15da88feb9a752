//! Timed replay: sending the packets of a capture with the gaps between them
//! that the capture recorded.
//!
//! The engine does not send, sleep or read a clock. Its owner offers it each
//! packet together with a reading of a wall clock, in microseconds, and is
//! told what to do with the packet: drop it, send it after a wait, or stop.
//! After each send the owner reports the time at which the send finished.
//!
//! Pacing goes by the gap between successive packets alone: the time at which
//! a packet is due is the time of the previous send plus the capture time
//! that passed between the two packets. Capture time and wall-clock time are
//! never compared with each other.

use vstd::prelude::*;
use crate::timestamp::{Span, Timestamp};

verus! {

/// Wall-clock time between two reports of the sink's statistics, by default.
pub const DEFAULT_REPORT_INTERVAL_MICROS: u64 = 5_000_000;

/// What pacing remembers of the previous send.
#[derive(Clone, Copy, Debug, PartialEq, Eq, Structural)]
pub struct ReplayClock {
    /// Capture time of the packet that was sent last.
    pub prev_packet_timestamp: Timestamp,
    /// Wall-clock time, in microseconds, at which that send finished.
    pub last_sent_wall_time: u64,
}

impl ReplayClock {
    /// The remembered capture time is well formed.
    pub open spec fn wf(self) -> bool {
        self.prev_packet_timestamp.wf()
    }

    /// The capture time from the previous packet to `next`, in microseconds;
    /// zero where `next` is not later than the previous packet.
    pub open spec fn gap_micros(self, next: Timestamp) -> int {
        let delta = next.as_micros() - self.prev_packet_timestamp.as_micros();
        if delta > 0 {
            delta
        } else {
            0
        }
    }

    /// The wall-clock time at which `next` is due.
    pub open spec fn due_micros(self, next: Timestamp) -> int {
        self.last_sent_wall_time + self.gap_micros(next)
    }

    /// How long to wait at wall-clock time `now` before sending `next`: the
    /// time until `next` is due, zero where it is due already.
    pub open spec fn wait_micros(self, next: Timestamp, now: u64) -> int {
        let wait = self.due_micros(next) - now;
        if wait > 0 {
            wait
        } else {
            0
        }
    }

    /// The clock after sending the packet captured at `first` at wall-clock
    /// time `now`.
    pub fn start(first: Timestamp, now: u64) -> (clock: ReplayClock)
        ensures
            clock == (ReplayClock { prev_packet_timestamp: first, last_sent_wall_time: now }),
    {
        ReplayClock { prev_packet_timestamp: first, last_sent_wall_time: now }
    }

    /// How long to wait at wall-clock time `now` before sending `next`, in
    /// microseconds; see [`ReplayClock::wait_micros`].
    pub fn wait_before(&self, next: Timestamp, now: u64) -> (wait: u128)
        requires
            self.wf(),
            next.wf(),
        ensures
            wait as int == self.wait_micros(next, now),
    {
        let gap: u128 = next.elapsed_since(self.prev_packet_timestamp).total_micros();
        let due: u128 = self.last_sent_wall_time as u128 + gap;
        if due > now as u128 {
            due - now as u128
        } else {
            0
        }
    }

    /// Remembers that the packet captured at `sent` was sent and that the
    /// send finished at wall-clock time `now_after_send`.
    pub fn record_send(&mut self, sent: Timestamp, now_after_send: u64)
        ensures
            *final(self) == (ReplayClock {
                prev_packet_timestamp: sent,
                last_sent_wall_time: now_after_send,
            }),
    {
        self.prev_packet_timestamp = sent;
        self.last_sent_wall_time = now_after_send;
    }
}

/// Where a packet lies relative to a window.
#[derive(Clone, Copy, Debug, PartialEq, Eq, Structural)]
pub enum WindowPosition {
    Before,
    Inside,
    Past,
}

/// The part of a capture that is replayed, as offsets from the capture time
/// of its first packet: from `lower` on, and up to but without `upper`.
#[derive(Clone, Copy, Debug, PartialEq, Eq, Structural)]
pub struct Window {
    pub lower: Span,
    pub upper: Option<Span>,
}

impl Window {
    /// Both bounds are well formed.
    pub open spec fn wf(self) -> bool {
        &&& self.lower.wf()
        &&& self.upper matches Some(upper) ==> upper.wf()
    }

    /// Where a packet captured at `timestamp` lies, in a capture whose first
    /// packet was captured at `origin`. The upper bound is looked at first.
    pub open spec fn position(self, origin: Timestamp, timestamp: Timestamp) -> WindowPosition {
        let offset = timestamp.as_micros() - origin.as_micros();
        if self.upper matches Some(upper) && offset >= upper.as_micros() {
            WindowPosition::Past
        } else if offset < self.lower.as_micros() {
            WindowPosition::Before
        } else {
            WindowPosition::Inside
        }
    }

    /// The window that holds every packet from the first one on.
    pub fn unbounded() -> (w: Window)
        ensures
            w.wf(),
            w == (Window { lower: Span { secs: 0, micros: 0 }, upper: None }),
    {
        Window { lower: Span::zero(), upper: None }
    }

    /// Where a packet lies; see [`Window::position`].
    pub fn locate(&self, origin: Timestamp, timestamp: Timestamp) -> (r: WindowPosition)
        requires
            self.wf(),
            origin.wf(),
            timestamp.wf(),
        ensures
            r == self.position(origin, timestamp),
    {
        let offset = timestamp.signed_delta(origin);
        let past: bool = match self.upper {
            Some(upper) => !offset.negative && offset.magnitude.at_least(upper),
            None => false,
        };
        if past {
            WindowPosition::Past
        } else if offset.negative || !offset.magnitude.at_least(self.lower) {
            WindowPosition::Before
        } else {
            WindowPosition::Inside
        }
    }
}

/// What to do with a packet that was offered to the engine.
#[derive(Clone, Copy, Debug, PartialEq, Eq, Structural)]
pub enum Directive {
    /// Drop the packet: it lies before the window.
    Discard,
    /// Wait for `wait_micros` microseconds, then send the packet.
    Send { wait_micros: u128 },
    /// The run is over: send neither this packet nor any other.
    Stop,
}

/// The state of one replay run.
#[derive(Clone, Copy, Debug, PartialEq, Eq, Structural)]
pub struct ReplayEngine {
    /// The part of the capture to replay.
    pub window: Window,
    /// Capture time of the first packet that was offered.
    pub origin: Option<Timestamp>,
    /// Pacing state; `None` until the first packet has been sent.
    pub clock: Option<ReplayClock>,
    /// Whether the run is over.
    pub done: bool,
    /// The number of packets sent, counted modulo 2^64.
    pub sent: u64,
    /// Wall-clock time between two reports, in microseconds.
    pub report_interval: u64,
    /// Wall-clock time from which on the next report is due.
    pub next_report: u128,
}

impl ReplayEngine {
    /// Window, origin and clock are well formed.
    pub open spec fn wf(self) -> bool {
        &&& self.window.wf()
        &&& self.origin matches Some(origin) ==> origin.wf()
        &&& self.clock matches Some(clock) ==> clock.wf()
    }

    /// The capture time that offsets are counted from once a packet captured
    /// at `timestamp` has been offered.
    pub open spec fn origin_with(self, timestamp: Timestamp) -> Timestamp {
        match self.origin {
            Some(origin) => origin,
            None => timestamp,
        }
    }

    /// What the engine says of a packet captured at `timestamp` that is
    /// offered at wall-clock time `now`.
    ///
    /// Once the run is over, and for a packet at or past the upper bound, it
    /// says stop. Before the first send it drops what lies before the lower
    /// bound and sends the first packet inside the window at once. After the
    /// first send it sends every packet, with the wait that its clock gives.
    pub open spec fn directive(self, timestamp: Timestamp, now: u64) -> Directive {
        if self.done {
            Directive::Stop
        } else {
            match self.window.position(self.origin_with(timestamp), timestamp) {
                WindowPosition::Past => Directive::Stop,
                WindowPosition::Before => match self.clock {
                    Some(clock) => Directive::Send {
                        wait_micros: clock.wait_micros(timestamp, now) as u128,
                    },
                    None => Directive::Discard,
                },
                WindowPosition::Inside => match self.clock {
                    Some(clock) => Directive::Send {
                        wait_micros: clock.wait_micros(timestamp, now) as u128,
                    },
                    None => Directive::Send { wait_micros: 0 },
                },
            }
        }
    }

    /// An engine at the start of a run, created at wall-clock time `now`.
    /// The first report is due one interval later.
    pub fn new(window: Window, report_interval: u64, now: u64) -> (engine: ReplayEngine)
        requires
            window.wf(),
        ensures
            engine.wf(),
            engine == (ReplayEngine {
                window,
                origin: None,
                clock: None,
                done: false,
                sent: 0,
                report_interval,
                next_report: (now + report_interval) as u128,
            }),
    {
        ReplayEngine {
            window,
            origin: None,
            clock: None,
            done: false,
            sent: 0,
            report_interval,
            next_report: now as u128 + report_interval as u128,
        }
    }

    /// Offers the next packet of the source, captured at `timestamp`, at
    /// wall-clock time `now`, and says what to do with it; see
    /// [`ReplayEngine::directive`].
    ///
    /// The first packet that is offered sets the origin of the window. A
    /// stop ends the run for good.
    pub fn offer(&mut self, timestamp: Timestamp, now: u64) -> (d: Directive)
        requires
            old(self).wf(),
            timestamp.wf(),
        ensures
            final(self).wf(),
            d == old(self).directive(timestamp, now),
            *final(self) == (ReplayEngine {
                origin: Some(old(self).origin_with(timestamp)),
                done: old(self).done || d == Directive::Stop,
                ..*old(self)
            }),
    {
        let origin = match self.origin {
            Some(origin) => origin,
            None => timestamp,
        };
        self.origin = Some(origin);
        if self.done {
            return Directive::Stop;
        }
        match self.window.locate(origin, timestamp) {
            WindowPosition::Past => {
                self.done = true;
                Directive::Stop
            },
            WindowPosition::Before => match self.clock {
                Some(clock) => Directive::Send { wait_micros: clock.wait_before(timestamp, now) },
                None => Directive::Discard,
            },
            WindowPosition::Inside => match self.clock {
                Some(clock) => Directive::Send { wait_micros: clock.wait_before(timestamp, now) },
                None => Directive::Send { wait_micros: 0 },
            },
        }
    }

    /// Reports that the packet captured at `timestamp` was sent and that the
    /// send finished at wall-clock time `now_after_send`.
    ///
    /// The clock is set to this send. The result says whether a report of
    /// the sink's statistics is due, which it is from `next_report` on; the
    /// next one is then due one interval after this send.
    pub fn sent(&mut self, timestamp: Timestamp, now_after_send: u64) -> (report_due: bool)
        requires
            old(self).wf(),
            timestamp.wf(),
        ensures
            final(self).wf(),
            report_due == (now_after_send as int >= old(self).next_report),
            *final(self) == (ReplayEngine {
                clock: Some(
                    ReplayClock {
                        prev_packet_timestamp: timestamp,
                        last_sent_wall_time: now_after_send,
                    },
                ),
                sent: if old(self).sent == u64::MAX {
                    0
                } else {
                    (old(self).sent + 1) as u64
                },
                next_report: if report_due {
                    (now_after_send + old(self).report_interval) as u128
                } else {
                    old(self).next_report
                },
                ..*old(self)
            }),
    {
        self.clock = Some(ReplayClock::start(timestamp, now_after_send));
        self.sent = if self.sent == u64::MAX {
            0
        } else {
            self.sent + 1
        };
        let report_due: bool = now_after_send as u128 >= self.next_report;
        if report_due {
            self.next_report = now_after_send as u128 + self.report_interval as u128;
        }
        report_due
    }

    /// Ends the run: every packet offered from now on is answered with stop.
    pub fn cancel(&mut self)
        ensures
            *final(self) == (ReplayEngine { done: true, ..*old(self) }),
    {
        self.done = true;
    }

    /// Whether the run is over.
    pub fn is_done(&self) -> (r: bool)
        ensures
            r == self.done,
    {
        self.done
    }

    /// The number of packets sent, counted modulo 2^64.
    pub fn packets_sent(&self) -> (r: u64)
        ensures
            r == self.sent,
    {
        self.sent
    }
}

/// Pacing is never early. A packet that is sent no sooner than the wait that
/// was computed for it at `now` leaves at least as long after the previous
/// send as it was captured after the previous packet.
pub proof fn lemma_pacing_never_early(
    clock: ReplayClock,
    next: Timestamp,
    now: u64,
    send_time: int,
)
    requires
        next.as_micros() >= clock.prev_packet_timestamp.as_micros(),
        send_time >= now + clock.wait_micros(next, now),
    ensures
        send_time - clock.last_sent_wall_time >= next.as_micros()
            - clock.prev_packet_timestamp.as_micros(),
{
}

/// Pacing is exact where nothing delays it. A packet that is offered before
/// it is due and sent exactly after the wait that was computed for it leaves
/// exactly as long after the previous send as it was captured after the
/// previous packet.
pub proof fn lemma_pacing_exact_without_delay(clock: ReplayClock, next: Timestamp, now: u64)
    requires
        next.as_micros() >= clock.prev_packet_timestamp.as_micros(),
        now <= clock.due_micros(next),
    ensures
        now + clock.wait_micros(next, now) - clock.last_sent_wall_time == next.as_micros()
            - clock.prev_packet_timestamp.as_micros(),
{
}

/// A packet that is not later than the one before it is never waited for
/// longer than the previous send lies in the future: with a clock that does
/// not run backwards it is sent at once.
pub proof fn lemma_no_wait_without_gap(clock: ReplayClock, next: Timestamp, now: u64)
    requires
        next.as_micros() <= clock.prev_packet_timestamp.as_micros(),
        now >= clock.last_sent_wall_time,
    ensures
        clock.wait_micros(next, now) == 0,
{
}

} // verus!
