use ground_station::xbee::{
    FrameError, RxPacket, StructuralError, TxRequest, TxStatus, XbeePacket,
};

#[test]
fn decode_rejects_short_input() {
    assert!(matches!(XbeePacket::decode(&[]), Err(FrameError::TooShort)));
    assert!(matches!(XbeePacket::decode(&[0x81]), Err(FrameError::TooShort)));
}

#[test]
fn decode_rejects_bad_checksum() {
    let p = XbeePacket::assemble(0x42, vec![1, 2, 3]);
    let mut bytes = p.serialise();
    let last = bytes.len() - 1;
    bytes[last] ^= 0x01;
    assert!(matches!(XbeePacket::decode(&bytes), Err(FrameError::ChecksumMismatch)));
}

#[test]
fn every_checksum_bit_flip_is_caught() {
    let p = XbeePacket::assemble(0x81, vec![9, 8, 7, 6]);
    let bytes = p.serialise();
    let last = bytes.len() - 1;
    for bit in 0..8 {
        let mut flipped = bytes.clone();
        flipped[last] ^= 1u8 << bit;
        assert!(matches!(XbeePacket::decode(&flipped), Err(FrameError::ChecksumMismatch)));
    }
}

#[test]
fn encode_decode_round_trip() {
    let p = XbeePacket::assemble(0x42, vec![1, 2, 3]);
    let bytes = p.serialise();
    // checksum = 0xFF - (0x42 + 1 + 2 + 3) mod 256
    assert_eq!(bytes, vec![0x42, 1, 2, 3, 183]);
    let q = XbeePacket::decode(&bytes).unwrap();
    assert_eq!(q.frame_type, 0x42);
    assert_eq!(q.data, vec![1, 2, 3]);
    assert_eq!(q.checksum, 183);
}

#[test]
fn decode_of_minimal_frame() {
    // frame type only: checksum over the single byte 0x05 is 0xFA
    let q = XbeePacket::decode(&[0x05, 0xFA]).unwrap();
    assert_eq!(q.frame_type, 0x05);
    assert_eq!(q.data, Vec::<u8>::new());
    assert_eq!(q.checksum, 0xFA);
}

#[test]
fn rx_packet_slices_header_and_payload() {
    let p = XbeePacket::assemble(0x81, vec![0x12, 0x34, 5, 1, 65, 66]);
    let rx = RxPacket::from_packet(&p).unwrap();
    assert_eq!(rx.src_addr, 0x1234);
    assert_eq!(rx.rssi, 5);
    assert_eq!(rx.options, 1);
    assert_eq!(rx.data, vec![65, 66]);
}

#[test]
fn rx_packet_rejects_short_data() {
    let p = XbeePacket::assemble(0x81, vec![0, 1, 5]);
    assert!(matches!(RxPacket::from_packet(&p), Err(StructuralError::TooShort)));
}

#[test]
fn tx_status_needs_exactly_two_bytes() {
    let p = XbeePacket::assemble(0x89, vec![7, 0]);
    let st = TxStatus::from_packet(&p).unwrap();
    assert_eq!(st, TxStatus { frame_id: 7, status: 0 });
    let p = XbeePacket::assemble(0x89, vec![7]);
    assert!(matches!(TxStatus::from_packet(&p), Err(StructuralError::WrongLength)));
    let p = XbeePacket::assemble(0x89, vec![7, 0, 1]);
    assert!(matches!(TxStatus::from_packet(&p), Err(StructuralError::WrongLength)));
}

#[test]
fn tx_request_builds_outbound_frame() {
    let req = TxRequest::new(1, 0xFFFF, vec![65, 66]);
    let bytes = req.to_packet().serialise();
    // 0x01, frame id, address high and low, payload, checksum
    assert_eq!(bytes, vec![1, 1, 255, 255, 65, 66, 124]);
    let back = XbeePacket::decode(&bytes).unwrap();
    assert_eq!(back.frame_type, 1);
    assert_eq!(back.data, vec![1, 255, 255, 65, 66]);
}
