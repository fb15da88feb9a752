//! How the two paths through the library treat what can go wrong.
//!
//! The segmentation path reads a capture and splits it into flows; the
//! replay path reads a capture and sends it to a sink. Each condition is
//! either the normal end of a run, or absorbed without a word, or fatal.

use vstd::prelude::*;

verus! {

/// The path on which a condition arises.
#[derive(Clone, Copy, Debug, PartialEq, Eq, Structural)]
pub enum Path {
    Segmentation,
    Replay,
}

/// What can arise while a capture is processed.
#[derive(Clone, Copy, Debug, PartialEq, Eq, Structural)]
pub enum Condition {
    /// The source has no more records.
    SourceExhausted,
    /// A record of the capture is corrupt.
    MalformedRecord,
    /// A packet has no recognized network layer.
    UnclassifiablePacket,
    /// Writing to a flow file or to a device failed.
    SinkWriteFailure,
    /// The named device is missing or cannot be opened.
    DeviceNotFound,
    /// A packet is not later than the one before it.
    ClockSkew,
}

/// What to do about a condition.
#[derive(Clone, Copy, Debug, PartialEq, Eq, Structural)]
pub enum Handling {
    /// The run is complete; this is no error.
    Finish,
    /// Leave the record or packet out and go on with the next one.
    Skip,
    /// Go on with this packet as if nothing had happened, without a wait.
    Proceed,
    /// Give up the run and hand the error to the caller.
    Abort,
}

/// How `path` treats `condition`.
///
/// The end of the source finishes a run. A corrupt record is skipped when
/// splitting and aborts a replay. A packet without a network layer is left
/// out of every flow, while a replay, which never looks into a packet, sends
/// it like any other. A sink that cannot be written to and a device that
/// cannot be had are fatal. A packet out of order is sent at once.
pub open spec fn handling_of(path: Path, condition: Condition) -> Handling {
    match condition {
        Condition::SourceExhausted => Handling::Finish,
        Condition::MalformedRecord => match path {
            Path::Segmentation => Handling::Skip,
            Path::Replay => Handling::Abort,
        },
        Condition::UnclassifiablePacket => match path {
            Path::Segmentation => Handling::Skip,
            Path::Replay => Handling::Proceed,
        },
        Condition::SinkWriteFailure => Handling::Abort,
        Condition::DeviceNotFound => Handling::Abort,
        Condition::ClockSkew => Handling::Proceed,
    }
}

/// How `path` treats `condition`; see [`handling_of`].
pub fn handling(path: Path, condition: Condition) -> (h: Handling)
    ensures
        h == handling_of(path, condition),
{
    match condition {
        Condition::SourceExhausted => Handling::Finish,
        Condition::MalformedRecord => match path {
            Path::Segmentation => Handling::Skip,
            Path::Replay => Handling::Abort,
        },
        Condition::UnclassifiablePacket => match path {
            Path::Segmentation => Handling::Skip,
            Path::Replay => Handling::Proceed,
        },
        Condition::SinkWriteFailure => Handling::Abort,
        Condition::DeviceNotFound => Handling::Abort,
        Condition::ClockSkew => Handling::Proceed,
    }
}

/// Whether `path` gives up on `condition`, which ends the process with a
/// status other than zero.
pub fn is_fatal(path: Path, condition: Condition) -> (r: bool)
    ensures
        r == (handling_of(path, condition) == Handling::Abort),
{
    match handling(path, condition) {
        Handling::Abort => true,
        _ => false,
    }
}

/// When splitting, a corrupt record and a packet of no flow are skipped, and
/// only a failing sink or a missing device is fatal. A replay gives up on a
/// corrupt record as well.
pub proof fn lemma_fatal_conditions(condition: Condition)
    ensures
        handling_of(Path::Segmentation, Condition::MalformedRecord) == Handling::Skip,
        handling_of(Path::Segmentation, Condition::UnclassifiablePacket) == Handling::Skip,
        handling_of(Path::Segmentation, condition) == Handling::Abort <==> (condition
            == Condition::SinkWriteFailure || condition == Condition::DeviceNotFound),
        handling_of(Path::Replay, condition) == Handling::Abort <==> (condition
            == Condition::MalformedRecord || condition == Condition::SinkWriteFailure || condition
            == Condition::DeviceNotFound),
{
}

} // verus!
