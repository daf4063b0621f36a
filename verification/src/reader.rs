use vstd::prelude::*;

use crate::queue::{OutcomeQueue, QueueModel};
use crate::received_packet::{OutcomeModel, ReceivedPacket};
use crate::telemetry::{spec_parse_telem, Telemetry, TelemetryModel};
use crate::xbee::{FrameModel, RxModel, RxPacket, XbeePacket};

verus! {

/// The outcome a replayed line stands for: the parsed record wrapped as an
/// inbound telemetry outcome with a placeholder frame, since a replay source
/// has no radio frame around its lines.
pub open spec fn replay_outcome(t: TelemetryModel) -> OutcomeModel {
    OutcomeModel::Telemetry {
        packet: FrameModel { frame_type: 0x81, data: Seq::<u8>::empty(), checksum: 0 },
        frame: RxModel { src_addr: 0xFFFF, rssi: 0, options: 0, data: Seq::<u8>::empty() },
        telem: t,
    }
}

/// Feeds telemetry lines from a replay source into the outcome queue.
pub struct TelemetryReader {
    tx: OutcomeQueue,
}

impl View for TelemetryReader {
    type V = QueueModel;

    closed spec fn view(&self) -> QueueModel {
        self.tx@
    }
}

impl TelemetryReader {
    /// A reader that sends into the given queue.
    pub fn new(tx: OutcomeQueue) -> (r: TelemetryReader)
        ensures
            r@ == tx@,
    {
        TelemetryReader { tx }
    }

    /// Handles one line of the replay source: a line that parses as a
    /// telemetry record is enqueued as a telemetry outcome, any other line
    /// is dropped. Reports whether an outcome was enqueued.
    pub fn process_line(&mut self, line: &[u8]) -> (sent: bool)
        ensures
            match spec_parse_telem(line@) {
                Ok(t) => {
                    &&& sent == old(self)@.consumer_live
                    &&& sent ==> final(self)@ == (QueueModel {
                        items: old(self)@.items.push(replay_outcome(t)),
                        ..old(self)@
                    })
                    &&& !sent ==> final(self)@ == old(self)@
                },
                Err(_) => final(self)@ == old(self)@ && !sent,
            },
    {
        match Telemetry::parse(line) {
            Ok(telem) => {
                let packet = XbeePacket { frame_type: 0x81, data: Vec::new(), checksum: 0 };
                let frame = RxPacket { src_addr: 0xFFFF, rssi: 0, options: 0, data: Vec::new() };
                let outcome = ReceivedPacket::Telemetry { packet, frame, telem };
                assert(outcome@ =~= replay_outcome(spec_parse_telem(line@)->Ok_0));
                self.tx.send(outcome)
            },
            Err(_) => false,
        }
    }

    /// Hands the queue back, for the consumer side to drain.
    pub fn into_queue(self) -> (q: OutcomeQueue)
        ensures
            q@ == self@,
    {
        self.tx
    }
}

} // verus!
