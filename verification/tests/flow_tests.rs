use etherparse::PacketBuilder;
use genpacket::capture_format::{encode_capture, Endian, FileHeader, FormatError, Resolution};
use genpacket::decode::{decode_frame, try_decode_frame, Layers, NetworkLayer, TransportLayer};
use genpacket::flow::{address_from_octets, classify, Admission, FlowKey, FlowState, FlowTable};
use genpacket::naming::flow_path;
use genpacket::packet::Packet;
use genpacket::segment::{split_capture, Segmenter};
use genpacket::source::CaptureReader;
use genpacket::timestamp::{Span, Timestamp};

const A: [u8; 4] = [192, 168, 10, 50];
const B: [u8; 4] = [205, 174, 165, 68];

fn ts(secs: u64, micros: u32) -> Timestamp {
    Timestamp::new(secs, micros).unwrap()
}

fn key(source: [u8; 4], destination: [u8; 4]) -> FlowKey {
    FlowKey { source: u32::from_be_bytes(source), destination: u32::from_be_bytes(destination) }
}

fn tcp_frame(source: [u8; 4], destination: [u8; 4], fin: bool, rst: bool) -> Vec<u8> {
    let mut builder = PacketBuilder::ethernet2([1, 2, 3, 4, 5, 6], [7, 8, 9, 10, 11, 12])
        .ipv4(source, destination, 20)
        .tcp(40000, 80, 1, 1024);
    if fin {
        builder = builder.fin();
    }
    if rst {
        builder = builder.rst();
    }
    let mut frame = Vec::new();
    builder.write(&mut frame, &[1, 2, 3, 4]).unwrap();
    frame
}

fn udp_frame(source: [u8; 4], destination: [u8; 4]) -> Vec<u8> {
    let builder = PacketBuilder::ethernet2([1, 2, 3, 4, 5, 6], [7, 8, 9, 10, 11, 12])
        .ipv4(source, destination, 20)
        .udp(5353, 53);
    let mut frame = Vec::new();
    builder.write(&mut frame, &[9, 9]).unwrap();
    frame
}

fn icmp_frame(source: [u8; 4], destination: [u8; 4]) -> Vec<u8> {
    let builder = PacketBuilder::ethernet2([1, 2, 3, 4, 5, 6], [7, 8, 9, 10, 11, 12])
        .ipv4(source, destination, 20)
        .icmpv4_echo_request(1, 1);
    let mut frame = Vec::new();
    builder.write(&mut frame, &[0; 8]).unwrap();
    frame
}

fn ipv6_frame() -> Vec<u8> {
    let builder = PacketBuilder::ethernet2([1, 2, 3, 4, 5, 6], [7, 8, 9, 10, 11, 12])
        .ipv6([1; 16], [2; 16], 20)
        .tcp(40000, 80, 1, 1024);
    let mut frame = Vec::new();
    builder.write(&mut frame, &[1]).unwrap();
    frame
}

fn packet(secs: u64, micros: u32, frame: Vec<u8>) -> Packet {
    let n = frame.len() as u32;
    Packet::new(ts(secs, micros), frame, n).unwrap()
}

fn header() -> FileHeader {
    FileHeader::ethernet(Endian::Little, Resolution::Micros)
}

fn capture(packets: &Vec<Packet>) -> Vec<u8> {
    encode_capture(&header(), packets).unwrap()
}

fn read_all(bytes: &[u8]) -> Vec<Packet> {
    let mut reader = CaptureReader::open(bytes.to_vec()).unwrap();
    let mut packets = Vec::new();
    while let Some(p) = reader.next_packet() {
        packets.push(p.unwrap());
    }
    packets
}

#[test]
fn decode_reports_ipv4_addresses_and_tcp_flags() {
    let layers = decode_frame(&tcp_frame(A, B, true, false));
    assert_eq!(
        layers,
        Layers {
            network: NetworkLayer::Ipv4 { source: A, destination: B },
            transport: TransportLayer::Tcp { fin: true, rst: false },
        }
    );
    assert!(layers.ends_conversation());
    let reset = decode_frame(&tcp_frame(B, A, false, true));
    assert_eq!(reset.transport, TransportLayer::Tcp { fin: false, rst: true });
    assert!(reset.ends_conversation());
    let plain = decode_frame(&tcp_frame(A, B, false, false));
    assert_eq!(plain.transport, TransportLayer::Tcp { fin: false, rst: false });
    assert!(!plain.ends_conversation());
}

#[test]
fn decode_reports_udp_icmp_and_ipv6() {
    let udp = decode_frame(&udp_frame(A, B));
    assert_eq!(udp.network, NetworkLayer::Ipv4 { source: A, destination: B });
    assert_eq!(udp.transport, TransportLayer::Udp);
    assert!(!udp.ends_conversation());
    assert_eq!(decode_frame(&icmp_frame(A, B)).transport, TransportLayer::Other);
    let v6 = decode_frame(&ipv6_frame());
    assert_eq!(v6.network, NetworkLayer::Ipv6 { source: [1; 16], destination: [2; 16] });
    assert_eq!(v6.transport, TransportLayer::Tcp { fin: false, rst: false });
}

#[test]
fn decode_of_what_cannot_be_sliced_is_unrecognized() {
    assert_eq!(try_decode_frame(&[1, 2, 3]), None);
    assert_eq!(
        decode_frame(&[1, 2, 3]),
        Layers { network: NetworkLayer::Unrecognized, transport: TransportLayer::Other }
    );
    // An Ethernet header that announces ARP: sliced, but without a network layer.
    let mut arp = vec![0u8; 12];
    arp.extend_from_slice(&[0x08, 0x06]);
    arp.extend_from_slice(&[0u8; 28]);
    assert_eq!(
        try_decode_frame(&arp),
        Some(Layers { network: NetworkLayer::Unrecognized, transport: TransportLayer::Other })
    );
    // IPv4 is announced but the header is cut short.
    let cut = tcp_frame(A, B, false, false)[..20].to_vec();
    assert_eq!(try_decode_frame(&cut), None);
}

#[test]
fn classify_keys_on_the_ordered_address_pair() {
    assert_eq!(classify(&decode_frame(&tcp_frame(A, B, false, false))), Some(key(A, B)));
    assert_eq!(classify(&decode_frame(&tcp_frame(B, A, false, false))), Some(key(B, A)));
    assert_ne!(key(A, B), key(B, A));
    assert_eq!(classify(&decode_frame(&udp_frame(A, B))), Some(key(A, B)));
    assert_eq!(classify(&decode_frame(&icmp_frame(A, B))), None);
    assert_eq!(classify(&decode_frame(&ipv6_frame())), None);
    assert_eq!(classify(&decode_frame(&[0u8; 5])), None);
}

#[test]
fn flow_key_helpers() {
    assert_eq!(address_from_octets(&[192, 168, 10, 50]), 0xc0a80a32);
    assert_eq!(address_from_octets(&[255, 255, 255, 255]), u32::MAX);
    let k = key(A, B);
    assert_eq!(k.rev(), key(B, A));
    assert_eq!(k.rev().rev(), k);
    assert_eq!(k.packed(), 0xc0a80a32_cdaea544);
    assert_eq!(FlowKey { source: u32::MAX, destination: u32::MAX }.packed(), u64::MAX);
}

#[test]
fn flow_path_follows_the_naming_convention() {
    assert_eq!(flow_path("out", key(A, B)), "out/flow-192.168.10.50-205.174.165.68.pcap");
    assert_eq!(flow_path("/tmp/x", key([0, 0, 0, 0], [255, 9, 10, 100])), "/tmp/x/flow-0.0.0.0-255.9.10.100.pcap");
    assert_eq!(flow_path("", key([1, 20, 99, 101], [7, 8, 9, 0])), "/flow-1.20.99.101-7.8.9.0.pcap");
}

#[test]
fn first_packet_opens_a_flow_with_one_packet() {
    let mut table = FlowTable::new(Span::from_secs(60));
    assert_eq!(table.open_flows(), 0);
    assert_eq!(table.flow(key(A, B)), None);
    let a = table.admit_packet(key(A, B), ts(100, 5), false);
    let flow = FlowState {
        key: key(A, B),
        instance: 0,
        total_count: 1,
        created: ts(100, 5),
        last_packet_timestamp: ts(100, 5),
    };
    assert_eq!(a, Admission { closed_before: None, flow, opened: true, closed_after: false });
    assert_eq!(table.flow(key(A, B)), Some(flow));
    assert_eq!(flow.len(), 1);
    assert_eq!(table.open_flows(), 1);
    assert_eq!(table.opened(), 1);
    assert_eq!(table.admitted(), 1);
}

#[test]
fn later_packet_joins_the_flow() {
    let mut table = FlowTable::new(Span::from_secs(60));
    table.admit_packet(key(A, B), ts(100, 0), false);
    let a = table.admit_packet(key(A, B), ts(130, 7), false);
    let flow = FlowState {
        key: key(A, B),
        instance: 0,
        total_count: 2,
        created: ts(100, 0),
        last_packet_timestamp: ts(130, 7),
    };
    assert_eq!(a, Admission { closed_before: None, flow, opened: false, closed_after: false });
    assert_eq!(table.flow(key(A, B)), Some(flow));
    assert_eq!(table.open_flows(), 1);
    assert_eq!(table.opened(), 1);
    assert_eq!(table.admitted(), 2);
}

#[test]
fn directional_flows_in_the_table() {
    let mut table = FlowTable::new(Span::from_secs(60));
    assert!(table.admit_packet(key(A, B), ts(1, 0), false).opened);
    assert!(!table.admit_packet(key(A, B), ts(2, 0), false).opened);
    let third = table.admit_packet(key(B, A), ts(3, 0), false);
    assert!(third.opened);
    assert_eq!(third.flow.instance, 1);
    assert_eq!(table.open_flows(), 2);
    assert_eq!(table.flow(key(A, B)).unwrap().total_count, 2);
    assert_eq!(table.flow(key(B, A)).unwrap().total_count, 1);
}

#[test]
fn directional_flows_in_files() {
    let packets = vec![
        packet(1, 0, tcp_frame(A, B, false, false)),
        packet(2, 0, tcp_frame(A, B, false, false)),
        packet(3, 0, tcp_frame(B, A, false, false)),
    ];
    let files = split_capture(capture(&packets), Span::from_secs(60), header()).unwrap();
    assert_eq!(files.len(), 2);
    assert_eq!(files[0].flow.key, key(A, B));
    assert_eq!(files[0].flow.total_count, 2);
    assert_eq!(files[0].path("out"), "out/flow-192.168.10.50-205.174.165.68.pcap");
    assert_eq!(files[0].bytes, capture(&vec![packets[0].clone(), packets[1].clone()]));
    assert_eq!(files[1].flow.key, key(B, A));
    assert_eq!(files[1].flow.total_count, 1);
    assert_eq!(files[1].path("out"), "out/flow-205.174.165.68-192.168.10.50.pcap");
    assert_eq!(files[1].bytes, capture(&vec![packets[2].clone()]));
    assert!(!files[0].closed);
    assert!(!files[1].closed);
    assert_eq!(read_all(&files[0].bytes).len(), 2);
    assert_eq!(read_all(&files[1].bytes).len(), 1);
}

#[test]
fn timeout_split_in_the_table() {
    let mut table = FlowTable::new(Span::from_millis(1_500));
    let first = table.admit_packet(key(A, B), ts(10, 0), false).flow;
    let a = table.admit_packet(key(A, B), ts(12, 0), false);
    let second = FlowState {
        key: key(A, B),
        instance: 1,
        total_count: 1,
        created: ts(12, 0),
        last_packet_timestamp: ts(12, 0),
    };
    assert_eq!(
        a,
        Admission { closed_before: Some(first), flow: second, opened: true, closed_after: false }
    );
    assert_eq!(table.open_flows(), 1);
    assert_eq!(table.opened(), 2);
    assert_eq!(table.flow(key(A, B)), Some(second));
}

#[test]
fn timeout_split_in_files() {
    let packets = vec![
        packet(10, 0, tcp_frame(A, B, false, false)),
        packet(12, 0, tcp_frame(A, B, false, false)),
        packet(12, 500_000, tcp_frame(A, B, false, false)),
    ];
    let files = split_capture(capture(&packets), Span::from_millis(1_500), header()).unwrap();
    assert_eq!(files.len(), 2);
    assert_eq!(files[0].flow.key, key(A, B));
    assert_eq!(files[1].flow.key, key(A, B));
    assert!(files[0].closed);
    assert!(!files[1].closed);
    assert_eq!(files[0].flow.total_count, 1);
    assert_eq!(files[1].flow.total_count, 2);
    assert_eq!(files[0].bytes, capture(&vec![packets[0].clone()]));
    assert_eq!(files[1].bytes, capture(&vec![packets[1].clone(), packets[2].clone()]));
}

#[test]
fn gap_equal_to_the_timeout_splits_and_one_microsecond_less_does_not() {
    let mut table = FlowTable::new(Span::from_secs(2));
    table.admit_packet(key(A, B), ts(10, 500_000), false);
    assert!(!table.admit_packet(key(A, B), ts(12, 499_999), false).opened);
    let a = table.admit_packet(key(A, B), ts(14, 499_999), false);
    assert!(a.opened);
    assert_eq!(a.closed_before.unwrap().total_count, 2);
}

#[test]
fn packet_from_the_past_does_not_time_a_flow_out() {
    let mut table = FlowTable::new(Span::from_secs(2));
    table.admit_packet(key(A, B), ts(100, 0), false);
    let a = table.admit_packet(key(A, B), ts(1, 0), false);
    assert!(!a.opened);
    assert_eq!(a.flow.total_count, 2);
    assert_eq!(a.flow.last_packet_timestamp, ts(1, 0));
}

#[test]
fn fin_and_rst_close_the_flow_behind_the_packet() {
    let mut table = FlowTable::new(Span::from_secs(60));
    table.admit_packet(key(A, B), ts(1, 0), false);
    let a = table.admit_packet(key(A, B), ts(2, 0), true);
    assert!(a.closed_after);
    assert!(!a.opened);
    assert_eq!(a.flow.total_count, 2);
    assert_eq!(table.flow(key(A, B)), None);
    assert_eq!(table.open_flows(), 0);
    let fresh = table.admit_packet(key(A, B), ts(3, 0), false);
    assert!(fresh.opened);
    assert_eq!(fresh.flow.instance, 1);
    assert_eq!(fresh.flow.total_count, 1);
}

#[test]
fn ending_packet_that_opens_a_flow_leaves_it_open() {
    let mut table = FlowTable::new(Span::from_secs(60));
    let a = table.admit_packet(key(A, B), ts(1, 0), true);
    assert!(a.opened);
    assert!(!a.closed_after);
    assert_eq!(table.open_flows(), 1);
}

#[test]
fn fin_in_files_closes_and_the_next_packet_opens_a_new_file() {
    let packets = vec![
        packet(1, 0, tcp_frame(A, B, false, false)),
        packet(2, 0, tcp_frame(A, B, true, false)),
        packet(3, 0, tcp_frame(A, B, false, false)),
        packet(4, 0, tcp_frame(A, B, false, true)),
    ];
    let files = split_capture(capture(&packets), Span::from_secs(60), header()).unwrap();
    assert_eq!(files.len(), 2);
    assert!(files[0].closed);
    assert!(files[1].closed);
    assert_eq!(files[0].bytes, capture(&vec![packets[0].clone(), packets[1].clone()]));
    assert_eq!(files[1].bytes, capture(&vec![packets[2].clone(), packets[3].clone()]));
}

#[test]
fn every_packet_is_counted_once() {
    let mut table = FlowTable::new(Span::from_secs(5));
    let times = [0u64, 1, 2, 10, 11, 30, 31, 32, 33, 60];
    let ends = [false, false, true, false, false, false, false, true, false, false];
    let mut closed: Vec<FlowState> = Vec::new();
    for (t, e) in times.iter().zip(ends.iter()) {
        for (k, end) in [(key(A, B), *e), (key(B, A), false)] {
            let a = table.admit_packet(k, ts(*t, 0), end);
            if let Some(f) = a.closed_before {
                closed.push(f);
            }
            if a.closed_after {
                closed.push(a.flow);
            }
        }
    }
    for (k, instances) in [(key(A, B), 5), (key(B, A), 4)] {
        let open = table.flow(k).map(|f| f.total_count).unwrap_or(0);
        let of_key: Vec<&FlowState> = closed.iter().filter(|f| f.key == k).collect();
        let in_closed: u64 = of_key.iter().map(|f| f.total_count).sum();
        assert_eq!(open + in_closed, 10);
        assert_eq!(of_key.len() + table.flow(k).iter().count(), instances);
    }
    assert_eq!(table.admitted(), 20);
    assert_eq!(table.opened() as usize, closed.len() + table.open_flows());
}

#[test]
fn close_all_reports_each_open_flow_once() {
    let mut table = FlowTable::new(Span::from_secs(60));
    table.admit_packet(key(A, B), ts(1, 0), false);
    table.admit_packet(key(B, A), ts(2, 0), false);
    table.admit_packet(key(A, A), ts(3, 0), false);
    table.admit_packet(key(A, B), ts(4, 0), false);
    let mut closed = table.close_all();
    closed.sort_by_key(|f| f.instance);
    assert_eq!(closed.len(), 3);
    assert_eq!(closed[0].key, key(A, B));
    assert_eq!(closed[0].total_count, 2);
    assert_eq!(closed[1].key, key(B, A));
    assert_eq!(closed[2].key, key(A, A));
    assert_eq!(table.open_flows(), 0);
    assert_eq!(table.opened(), 3);
    assert_eq!(table.admitted(), 4);
    assert!(table.close_all().is_empty());
    assert!(table.admit_packet(key(A, B), ts(5, 0), false).opened);
}

#[test]
fn empty_capture_gives_no_files() {
    let files = split_capture(capture(&vec![]), Span::from_secs(1), header()).unwrap();
    assert!(files.is_empty());
    let mut table = FlowTable::new(Span::from_secs(1));
    assert!(table.close_all().is_empty());
    assert_eq!(table.open_flows(), 0);
}

#[test]
fn capture_without_a_file_header_is_refused() {
    assert_eq!(
        split_capture(vec![1, 2, 3], Span::from_secs(1), header()).unwrap_err(),
        FormatError::TruncatedHeader
    );
    assert_eq!(
        split_capture(vec![0; 24], Span::from_secs(1), header()).unwrap_err(),
        FormatError::BadMagic
    );
}

#[test]
fn packets_of_no_flow_are_dropped_from_the_files() {
    let packets = vec![
        packet(1, 0, icmp_frame(A, B)),
        packet(2, 0, tcp_frame(A, B, false, false)),
        packet(3, 0, ipv6_frame()),
        packet(4, 0, vec![1, 2, 3]),
        packet(5, 0, udp_frame(A, B)),
    ];
    let files = split_capture(capture(&packets), Span::from_secs(60), header()).unwrap();
    assert_eq!(files.len(), 1);
    assert_eq!(files[0].bytes, capture(&vec![packets[1].clone(), packets[4].clone()]));
    let mut segmenter = Segmenter::new(Span::from_secs(60), header());
    for p in &packets {
        segmenter.push(p).unwrap();
    }
    segmenter.skip();
    assert_eq!(segmenter.seen(), 6);
    assert_eq!(segmenter.dropped(), 4);
    assert_eq!(segmenter.into_files().len(), 1);
}

#[test]
fn malformed_record_is_skipped_by_the_split() {
    let packets = vec![
        packet(1, 0, tcp_frame(A, B, false, false)),
        packet(2, 0, tcp_frame(A, B, false, false)),
        packet(3, 0, tcp_frame(A, B, false, false)),
    ];
    let mut bytes = capture(&packets);
    let second = 24 + 16 + packets[0].data.len();
    bytes[second + 4..second + 8].copy_from_slice(&5_000_000u32.to_le_bytes());
    let files = split_capture(bytes, Span::from_secs(60), header()).unwrap();
    assert_eq!(files.len(), 1);
    assert_eq!(files[0].bytes, capture(&vec![packets[0].clone(), packets[2].clone()]));
}

#[test]
fn segmenter_refuses_seconds_beyond_32_bits_and_stays_as_it_was() {
    let mut segmenter = Segmenter::new(Span::from_secs(60), header());
    let late = packet(u32::MAX as u64 + 1, 0, tcp_frame(A, B, false, false));
    assert_eq!(segmenter.push(&late), Err(FormatError::SecondsOutOfRange));
    assert_eq!(segmenter.seen(), 0);
    assert!(segmenter.into_files().is_empty());
}

#[test]
fn splitting_twice_gives_the_same_files() {
    let packets = vec![
        packet(1, 0, tcp_frame(A, B, false, false)),
        packet(2, 0, udp_frame(B, A)),
        packet(9, 0, tcp_frame(A, B, true, false)),
        packet(9, 1, tcp_frame(A, B, false, false)),
    ];
    let input = capture(&packets);
    let first = split_capture(input.clone(), Span::from_secs(3), header()).unwrap();
    let second = split_capture(input, Span::from_secs(3), header()).unwrap();
    assert_eq!(first.len(), 3);
    assert_eq!(first.len(), second.len());
    for (x, y) in first.iter().zip(second.iter()) {
        assert_eq!(x.bytes, y.bytes);
        assert_eq!(x.flow, y.flow);
        assert_eq!(x.closed, y.closed);
        assert_eq!(x.path("d"), y.path("d"));
    }
}

#[test]
fn only_the_captured_bytes_are_classified_and_written() {
    let frame = tcp_frame(A, B, false, false);
    let n = frame.len() as u32;
    let mut data = frame.clone();
    data.extend_from_slice(&[0xff; 10]);
    let p = Packet { timestamp: ts(1, 0), data, captured_len: n, original_len: n + 10 };
    let mut segmenter = Segmenter::new(Span::from_secs(60), header());
    segmenter.push(&p).unwrap();
    let files = segmenter.into_files();
    assert_eq!(files.len(), 1);
    let back = read_all(&files[0].bytes);
    assert_eq!(back.len(), 1);
    assert_eq!(back[0].data, frame);
    assert_eq!(back[0].original_len, n + 10);
}
