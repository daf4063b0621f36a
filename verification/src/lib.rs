//! Ground-station core for a packet-radio telemetry link: decoding and
//! encoding the radio's framed binary protocol with its checksum, parsing
//! and formatting the fixed-schema text telemetry record carried in inbound
//! data frames, classifying every raw byte blob into exactly one outcome,
//! and the ordered queue that carries outcomes to the consumer.

pub mod digits;
pub mod fields;
pub mod panel;
pub mod queue;
pub mod reader;
pub mod received_packet;
pub mod telemetry;
pub mod xbee;
