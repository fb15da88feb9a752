use etherparse::PacketBuilder;
use genpacket::capture_format::{encode_capture, Endian, FileHeader, FormatError, Resolution};
use genpacket::decode::decode_frame;
use genpacket::extract::{extract_capture, is_selected, ExtractError, Selection};
use genpacket::packet::Packet;
use genpacket::timestamp::Timestamp;

const VICTIM: [u8; 4] = [205, 174, 165, 68];
const VICTIM_LOCAL: [u8; 4] = [192, 168, 10, 50];
const OTHER: [u8; 4] = [10, 0, 0, 1];

fn frame(source: [u8; 4], destination: [u8; 4]) -> Vec<u8> {
    let builder = PacketBuilder::ethernet2([1, 2, 3, 4, 5, 6], [7, 8, 9, 10, 11, 12])
        .ipv4(source, destination, 20)
        .tcp(40000, 21, 1, 1024);
    let mut out = Vec::new();
    builder.write(&mut out, &[1, 2, 3]).unwrap();
    out
}

fn packet(secs: u64, data: Vec<u8>) -> Packet {
    let n = data.len() as u32;
    Packet::new(Timestamp::new(secs, 0).unwrap(), data, n).unwrap()
}

fn header() -> FileHeader {
    FileHeader::ethernet(Endian::Little, Resolution::Micros)
}

fn capture(packets: &Vec<Packet>) -> Vec<u8> {
    encode_capture(&header(), packets).unwrap()
}

fn selection() -> Selection {
    Selection {
        from_secs: 1100,
        to_secs: 4900,
        destinations: vec![u32::from_be_bytes(VICTIM), u32::from_be_bytes(VICTIM_LOCAL)],
    }
}

#[test]
fn extract_copies_the_range_to_the_destinations() {
    let packets = vec![
        packet(1000, frame(OTHER, VICTIM)),
        packet(1000 + 1099, frame(OTHER, VICTIM)),
        packet(1000 + 1100, frame(OTHER, VICTIM)),
        packet(1000 + 2000, frame(VICTIM, OTHER)),
        packet(1000 + 3000, frame(OTHER, VICTIM_LOCAL)),
        packet(1000 + 4900, frame(OTHER, VICTIM)),
        packet(1000 + 4901, frame(OTHER, VICTIM)),
        packet(1000 + 4000, frame(OTHER, VICTIM)),
    ];
    let out = extract_capture(capture(&packets), &selection(), header()).unwrap();
    assert_eq!(
        out,
        capture(&vec![packets[2].clone(), packets[4].clone(), packets[5].clone()])
    );
}

#[test]
fn extract_never_copies_the_first_packet() {
    let packets = vec![packet(50, frame(OTHER, VICTIM)), packet(50, frame(OTHER, VICTIM))];
    let all = Selection { from_secs: 0, to_secs: u64::MAX, destinations: vec![u32::from_be_bytes(VICTIM)] };
    let out = extract_capture(capture(&packets), &all, header()).unwrap();
    assert_eq!(out, capture(&vec![packets[1].clone()]));
}

#[test]
fn extract_skips_packets_from_before_the_origin() {
    let packets = vec![
        packet(50, frame(OTHER, VICTIM)),
        packet(40, frame(OTHER, VICTIM)),
        packet(51, frame(OTHER, VICTIM)),
    ];
    let all = Selection { from_secs: 0, to_secs: 10, destinations: vec![u32::from_be_bytes(VICTIM)] };
    let out = extract_capture(capture(&packets), &all, header()).unwrap();
    assert_eq!(out, capture(&vec![packets[2].clone()]));
}

#[test]
fn extract_of_a_capture_with_one_packet_is_an_empty_capture() {
    let out = extract_capture(capture(&vec![packet(1, frame(OTHER, VICTIM))]), &selection(), header());
    assert_eq!(out, Ok(capture(&vec![])));
}

#[test]
fn extract_errors() {
    assert_eq!(
        extract_capture(vec![], &selection(), header()),
        Err(ExtractError::Header(FormatError::TruncatedHeader))
    );
    assert_eq!(
        extract_capture(vec![7; 30], &selection(), header()),
        Err(ExtractError::Header(FormatError::BadMagic))
    );
    assert_eq!(
        extract_capture(capture(&vec![]), &selection(), header()),
        Err(ExtractError::NoFirstPacket)
    );
    let mut cut = capture(&vec![packet(1, frame(OTHER, VICTIM))]);
    cut.truncate(30);
    assert_eq!(extract_capture(cut, &selection(), header()), Err(ExtractError::NoFirstPacket));
    let broken = vec![packet(0, frame(OTHER, VICTIM)), packet(2000, vec![1, 2, 3])];
    assert_eq!(
        extract_capture(capture(&broken), &selection(), header()),
        Err(ExtractError::Frame)
    );
    // Outside the range the same frame is never sliced.
    let early = vec![packet(0, frame(OTHER, VICTIM)), packet(5, vec![1, 2, 3])];
    assert_eq!(extract_capture(capture(&early), &selection(), header()), Ok(capture(&vec![])));
}

#[test]
fn extract_stops_at_a_malformed_record() {
    let packets = vec![
        packet(0, frame(OTHER, VICTIM)),
        packet(2000, frame(OTHER, VICTIM)),
        packet(2001, frame(OTHER, VICTIM)),
        packet(2002, frame(OTHER, VICTIM)),
    ];
    let mut bytes = capture(&packets);
    let third = 24 + 2 * (16 + packets[0].data.len());
    bytes[third + 4..third + 8].copy_from_slice(&9_999_999u32.to_le_bytes());
    let out = extract_capture(bytes, &selection(), header()).unwrap();
    assert_eq!(out, capture(&vec![packets[1].clone()]));
}

#[test]
fn is_selected_looks_at_the_ipv4_destination() {
    let list = vec![u32::from_be_bytes(VICTIM)];
    assert!(is_selected(&decode_frame(&frame(OTHER, VICTIM)), &list));
    assert!(!is_selected(&decode_frame(&frame(VICTIM, OTHER)), &list));
    assert!(!is_selected(&decode_frame(&frame(OTHER, VICTIM)), &vec![]));
    assert!(!is_selected(&decode_frame(&[0u8; 3]), &list));
}
