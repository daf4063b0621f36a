use vstd::prelude::*;

use crate::telemetry::{spec_parse_telem, Telemetry, TelemetryModel};
use crate::xbee::{
    spec_decode, spec_rx_from, spec_status_from, FrameModel, RxModel, RxPacket, TxStatus,
    XbeePacket, RX_FRAME_TYPE, TX_STATUS_FRAME_TYPE,
};

verus! {

/// Whether the bytes are valid UTF-8, as `core::str::from_utf8` decides it.
pub uninterp spec fn utf8_ok(bytes: Seq<u8>) -> bool;

/// Relies on core::str::from_utf8: it returns Ok exactly when the bytes are
/// valid UTF-8, a function of the bytes alone.
#[verifier::external_body]
fn check_utf8(bytes: &[u8]) -> (r: bool)
    ensures
        r == utf8_ok(bytes@),
{
    core::str::from_utf8(bytes).is_ok()
}

/// The mathematical content of a classified outcome.
#[verifier::ext_equal]
pub enum OutcomeModel {
    Telemetry { packet: FrameModel, frame: RxModel, telem: TelemetryModel },
    Received { packet: FrameModel, frame: RxModel },
    Status { packet: FrameModel, tx_status: TxStatus },
    InvalidFrame(FrameModel),
    Unrecognised(FrameModel),
    Invalid(Seq<u8>),
}

/// Exactly one outcome for every raw inbound byte blob.
#[derive(Debug, Clone)]
pub enum ReceivedPacket {
    /// A structurally valid data frame whose payload parsed as telemetry.
    Telemetry { packet: XbeePacket, frame: RxPacket, telem: Telemetry },
    /// A structurally valid data frame whose payload did not decode or parse
    /// as telemetry.
    Received { packet: XbeePacket, frame: RxPacket },
    /// A send-status frame for a previously transmitted request.
    Status { packet: XbeePacket, tx_status: TxStatus },
    /// A correct outer frame whose sub-frame structure is bad.
    InvalidFrame(XbeePacket),
    /// A correct outer frame with an unknown frame type.
    Unrecognised(XbeePacket),
    /// Raw bytes that failed to decode as a frame at all.
    Invalid(Vec<u8>),
}

impl View for ReceivedPacket {
    type V = OutcomeModel;

    open spec fn view(&self) -> OutcomeModel {
        match self {
            ReceivedPacket::Telemetry { packet, frame, telem } => OutcomeModel::Telemetry {
                packet: packet@,
                frame: frame@,
                telem: telem@,
            },
            ReceivedPacket::Received { packet, frame } => OutcomeModel::Received {
                packet: packet@,
                frame: frame@,
            },
            ReceivedPacket::Status { packet, tx_status } => OutcomeModel::Status {
                packet: packet@,
                tx_status: *tx_status,
            },
            ReceivedPacket::InvalidFrame(p) => OutcomeModel::InvalidFrame(p@),
            ReceivedPacket::Unrecognised(p) => OutcomeModel::Unrecognised(p@),
            ReceivedPacket::Invalid(raw) => OutcomeModel::Invalid(raw@),
        }
    }
}

/// The one outcome of a raw byte blob: decode the outer frame, dispatch on
/// the frame type, convert the sub-frame, and for inbound data decode the
/// payload as UTF-8 and parse it as telemetry; every failure is captured as
/// its own outcome.
pub open spec fn spec_classify(raw: Seq<u8>) -> OutcomeModel {
    match spec_decode(raw) {
        Err(_) => OutcomeModel::Invalid(raw),
        Ok(f) => if f.frame_type == RX_FRAME_TYPE {
            match spec_rx_from(f) {
                Err(_) => OutcomeModel::InvalidFrame(f),
                Ok(rx) => if !utf8_ok(rx.data) {
                    OutcomeModel::Received { packet: f, frame: rx }
                } else {
                    match spec_parse_telem(rx.data) {
                        Err(_) => OutcomeModel::Received { packet: f, frame: rx },
                        Ok(t) => OutcomeModel::Telemetry { packet: f, frame: rx, telem: t },
                    }
                },
            }
        } else if f.frame_type == TX_STATUS_FRAME_TYPE {
            match spec_status_from(f) {
                Err(_) => OutcomeModel::InvalidFrame(f),
                Ok(st) => OutcomeModel::Status { packet: f, tx_status: st },
            }
        } else {
            OutcomeModel::Unrecognised(f)
        },
    }
}

impl ReceivedPacket {
    /// Classifies a raw byte blob into exactly one outcome. Total: every
    /// input maps to one variant, and nothing is dropped.
    pub fn classify(raw: &[u8]) -> (r: ReceivedPacket)
        ensures
            r@ == spec_classify(raw@),
    {
        let packet = match XbeePacket::decode(raw) {
            Ok(p) => p,
            Err(_) => {
                let bytes = crate::fields::copy_range(raw, 0, raw.len());
                assert(bytes@ =~= raw@);
                return ReceivedPacket::Invalid(bytes);
            },
        };
        if packet.frame_type == RX_FRAME_TYPE {
            let rx = match RxPacket::from_packet(&packet) {
                Ok(rx) => rx,
                Err(_) => {
                    return ReceivedPacket::InvalidFrame(packet);
                },
            };
            if !check_utf8(rx.data.as_slice()) {
                return ReceivedPacket::Received { packet, frame: rx };
            }
            match Telemetry::parse(rx.data.as_slice()) {
                Ok(telem) => ReceivedPacket::Telemetry { packet, frame: rx, telem },
                Err(_) => ReceivedPacket::Received { packet, frame: rx },
            }
        } else if packet.frame_type == TX_STATUS_FRAME_TYPE {
            match TxStatus::from_packet(&packet) {
                Ok(st) => ReceivedPacket::Status { packet, tx_status: st },
                Err(_) => ReceivedPacket::InvalidFrame(packet),
            }
        } else {
            ReceivedPacket::Unrecognised(packet)
        }
    }
}

} // verus!
