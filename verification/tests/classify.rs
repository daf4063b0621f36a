use ground_station::received_packet::ReceivedPacket;
use ground_station::xbee::XbeePacket;

fn rx_frame_with_payload(payload: &[u8]) -> Vec<u8> {
    // inbound data header: source address 0x0001, signal strength 5, options 0
    let mut data = vec![0x00, 0x01, 0x05, 0x00];
    data.extend_from_slice(payload);
    XbeePacket::assemble(0x81, data).serialise()
}

const GOOD_LINE: &[u8] =
    b"1047,12:34:56.78,42,Flight,Ascent,123.5,Deployed,NotDeployed,Raised,21.5,5.1,101.325,12:34:55,1723.5,37.2,-90.5,12,-4.5,3.0,CXON";

#[test]
fn valid_telemetry_frame_classifies_as_telemetry() {
    let raw = rx_frame_with_payload(GOOD_LINE);
    match ReceivedPacket::classify(&raw) {
        ReceivedPacket::Telemetry { packet, frame, telem } => {
            assert_eq!(packet.frame_type, 0x81);
            assert_eq!(frame.src_addr, 1);
            assert_eq!(frame.rssi, 5);
            assert_eq!(telem.team_id, 1047);
            assert_eq!(telem.packet_count, 42);
        }
        other => panic!("expected Telemetry, got {:?}", other),
    }
}

#[test]
fn invalid_utf8_payload_classifies_as_received() {
    let raw = rx_frame_with_payload(&[0xFF, 0xFE]);
    match ReceivedPacket::classify(&raw) {
        ReceivedPacket::Received { frame, .. } => {
            assert_eq!(frame.data, vec![0xFF, 0xFE]);
        }
        other => panic!("expected Received, got {:?}", other),
    }
}

#[test]
fn unparseable_telemetry_classifies_as_received() {
    // the same line with its last field dropped: decodes as text, fails the schema
    let short_line =
        b"1047,12:34:56.78,42,Flight,Ascent,123.5,Deployed,NotDeployed,Raised,21.5,5.1,101.325,12:34:55,1723.5,37.2,-90.5,12,-4.5,3.0";
    let raw = rx_frame_with_payload(short_line);
    assert!(matches!(
        ReceivedPacket::classify(&raw),
        ReceivedPacket::Received { .. }
    ));
}

#[test]
fn unknown_frame_type_classifies_as_unrecognised() {
    let raw = XbeePacket::assemble(0x00, vec![1, 2, 3, 4]).serialise();
    match ReceivedPacket::classify(&raw) {
        ReceivedPacket::Unrecognised(p) => assert_eq!(p.frame_type, 0x00),
        other => panic!("expected Unrecognised, got {:?}", other),
    }
}

#[test]
fn short_input_classifies_as_invalid() {
    assert!(matches!(ReceivedPacket::classify(&[]), ReceivedPacket::Invalid(_)));
    match ReceivedPacket::classify(&[0x81]) {
        ReceivedPacket::Invalid(raw) => assert_eq!(raw, vec![0x81]),
        other => panic!("expected Invalid, got {:?}", other),
    }
}

#[test]
fn corrupt_checksum_classifies_as_invalid() {
    let mut raw = rx_frame_with_payload(GOOD_LINE);
    let last = raw.len() - 1;
    raw[last] ^= 0x40;
    assert!(matches!(ReceivedPacket::classify(&raw), ReceivedPacket::Invalid(_)));
}

#[test]
fn short_data_frame_classifies_as_invalid_frame() {
    let raw = XbeePacket::assemble(0x81, vec![0, 1, 5]).serialise();
    assert!(matches!(
        ReceivedPacket::classify(&raw),
        ReceivedPacket::InvalidFrame(_)
    ));
}

#[test]
fn send_status_classifies_as_status() {
    let raw = XbeePacket::assemble(0x89, vec![7, 0]).serialise();
    match ReceivedPacket::classify(&raw) {
        ReceivedPacket::Status { tx_status, .. } => {
            assert_eq!(tx_status.frame_id, 7);
            assert_eq!(tx_status.status, 0);
        }
        other => panic!("expected Status, got {:?}", other),
    }
}

#[test]
fn malformed_status_classifies_as_invalid_frame() {
    let raw = XbeePacket::assemble(0x89, vec![7, 0, 9]).serialise();
    assert!(matches!(
        ReceivedPacket::classify(&raw),
        ReceivedPacket::InvalidFrame(_)
    ));
}
