use ground_station::panel::MainPanelView;
use ground_station::queue::{OutcomeQueue, RecvResult};
use ground_station::reader::TelemetryReader;
use ground_station::received_packet::ReceivedPacket;
use ground_station::xbee::XbeePacket;

fn unrecognised_outcome(tag: u8) -> ReceivedPacket {
    let raw = XbeePacket::assemble(tag, vec![]).serialise();
    ReceivedPacket::classify(&raw)
}

#[test]
fn drain_after_producer_disconnect_keeps_everything_in_order() {
    let mut q = OutcomeQueue::new();
    for tag in [0x10, 0x11, 0x12] {
        assert!(q.send(unrecognised_outcome(tag)));
    }
    q.close_producer();
    for tag in [0x10u8, 0x11, 0x12] {
        match q.try_recv() {
            RecvResult::Packet(ReceivedPacket::Unrecognised(p)) => {
                assert_eq!(p.frame_type, tag);
            }
            other => panic!("expected a packet, got {:?}", other),
        }
    }
    assert!(matches!(q.try_recv(), RecvResult::Disconnected));
    assert!(matches!(q.try_recv(), RecvResult::Disconnected));
}

#[test]
fn empty_is_distinct_from_disconnected() {
    let mut q = OutcomeQueue::new();
    assert!(matches!(q.try_recv(), RecvResult::Empty));
    q.close_producer();
    assert!(matches!(q.try_recv(), RecvResult::Disconnected));
}

#[test]
fn send_fails_once_the_consumer_is_gone() {
    let mut q = OutcomeQueue::new();
    q.close_consumer();
    assert!(!q.send(unrecognised_outcome(0x10)));
    q.close_producer();
    assert!(matches!(q.try_recv(), RecvResult::Disconnected));
}

#[test]
fn reader_enqueues_only_lines_that_parse() {
    let mut reader = TelemetryReader::new(OutcomeQueue::new());
    let good =
        b"1047,12:34:56.78,42,Flight,Ascent,123.5,Deployed,NotDeployed,Raised,21.5,5.1,101.325,12:34:55,1723.5,37.2,-90.5,12,-4.5,3.0,CXON";
    assert!(reader.process_line(good));
    assert!(!reader.process_line(b"not telemetry"));
    let mut q = reader.into_queue();
    match q.try_recv() {
        RecvResult::Packet(ReceivedPacket::Telemetry { telem, frame, .. }) => {
            assert_eq!(telem.team_id, 1047);
            assert_eq!(frame.src_addr, 0xFFFF);
        }
        other => panic!("expected the parsed line, got {:?}", other),
    }
    assert!(matches!(q.try_recv(), RecvResult::Empty));
    q.close_producer();
    assert!(matches!(q.try_recv(), RecvResult::Disconnected));
}

#[test]
fn panel_labels_and_default() {
    assert_eq!(MainPanelView::AllGraphs.as_str(), "All Graphs");
    assert_eq!(MainPanelView::OneGraph.as_str(), "One Graph");
    assert_eq!(MainPanelView::Table.as_str(), "Data Table");
    assert_eq!(MainPanelView::Statistics.as_str(), "Statistics");
    assert_eq!(MainPanelView::default(), MainPanelView::AllGraphs);
}
