use genpacket::policy::{handling, is_fatal, Condition, Handling, Path};
use genpacket::shutdown::{next_step, Step, Wait};
use genpacket::traffic::TrafficParams;

fn params() -> TrafficParams {
    TrafficParams {
        psh: 1,
        flow_duration: 10,
        syn: 1,
        ack: 5,
        total_packets: 2,
        total_length_of_forwarded_packets: 100,
        init_win_bytes_forward: 65_536,
        active_min: 0,
        flow_iat_min: 0,
    }
}

#[test]
fn shutdown_request_drains_reports_and_leaves() {
    assert_eq!(next_step(Wait::Requested), Step { drain: true, report: true, exit: Some(0) });
}

#[test]
fn lost_requester_leaves_with_failure() {
    assert_eq!(next_step(Wait::Disconnected), Step { drain: false, report: false, exit: Some(1) });
}

#[test]
fn quiet_wait_drains_and_goes_on() {
    assert_eq!(next_step(Wait::TimedOut), Step { drain: true, report: false, exit: None });
}

#[test]
fn traffic_params_at_their_limits_are_valid() {
    assert!(params().is_valid());
    assert!(TrafficParams { total_packets: 600_000, ..params() }.is_valid());
    assert!(TrafficParams { syn: 0, psh: 0, init_win_bytes_forward: 0, ..params() }.is_valid());
    assert!(TrafficParams { ack: u64::MAX, flow_duration: u64::MAX, ..params() }.is_valid());
}

#[test]
fn traffic_params_beyond_their_limits_are_not_valid() {
    assert!(!TrafficParams { syn: 2, ..params() }.is_valid());
    assert!(!TrafficParams { psh: 2, ..params() }.is_valid());
    assert!(!TrafficParams { init_win_bytes_forward: 65_537, ..params() }.is_valid());
    assert!(!TrafficParams { total_packets: 600_001, ..params() }.is_valid());
    assert!(!TrafficParams { total_packets: 1, ..params() }.is_valid());
    assert!(!TrafficParams { total_packets: 0, ..params() }.is_valid());
}

#[test]
fn handling_follows_the_path() {
    let table = [
        (Condition::SourceExhausted, Handling::Finish, Handling::Finish),
        (Condition::MalformedRecord, Handling::Skip, Handling::Abort),
        (Condition::UnclassifiablePacket, Handling::Skip, Handling::Proceed),
        (Condition::SinkWriteFailure, Handling::Abort, Handling::Abort),
        (Condition::DeviceNotFound, Handling::Abort, Handling::Abort),
        (Condition::ClockSkew, Handling::Proceed, Handling::Proceed),
    ];
    for (condition, splitting, replaying) in table {
        assert_eq!(handling(Path::Segmentation, condition), splitting);
        assert_eq!(handling(Path::Replay, condition), replaying);
        assert_eq!(is_fatal(Path::Segmentation, condition), splitting == Handling::Abort);
        assert_eq!(is_fatal(Path::Replay, condition), replaying == Handling::Abort);
    }
}
