use vstd::prelude::*;

use crate::fields::copy_range;

verus! {

/// Why a raw buffer failed to decode as a frame.
#[derive(Clone, Copy, Debug, PartialEq, Eq, Structural)]
pub enum FrameError {
    /// Fewer than the two bytes a frame needs at minimum.
    TooShort,
    /// The trailing byte disagrees with the checksum of the rest.
    ChecksumMismatch,
}

/// Why a decoded frame failed to convert to a typed sub-frame.
#[derive(Clone, Copy, Debug, PartialEq, Eq, Structural)]
pub enum StructuralError {
    /// The frame's data is shorter than the sub-frame's header.
    TooShort,
    /// The frame's data does not have the sub-frame's exact length.
    WrongLength,
}

/// Sum of the bytes, as an unbounded number.
pub open spec fn sum_bytes(s: Seq<u8>) -> nat
    decreases s.len(),
{
    if s.len() == 0 {
        0
    } else {
        sum_bytes(s.drop_last()) + s.last() as nat
    }
}

/// The frame checksum: 0xFF minus the byte sum truncated to eight bits.
pub open spec fn checksum_of(s: Seq<u8>) -> u8 {
    (255 - sum_bytes(s) % 256) as u8
}

/// The mathematical content of a decoded frame.
#[verifier::ext_equal]
pub struct FrameModel {
    pub frame_type: u8,
    pub data: Seq<u8>,
    pub checksum: u8,
}

/// One decoded unit of the binary radio protocol.
#[derive(Debug, Clone)]
pub struct XbeePacket {
    pub frame_type: u8,
    pub data: Vec<u8>,
    pub checksum: u8,
}

impl View for XbeePacket {
    type V = FrameModel;

    open spec fn view(&self) -> FrameModel {
        FrameModel { frame_type: self.frame_type, data: self.data@, checksum: self.checksum }
    }
}

/// How a raw buffer decodes: too short, checksum failure, or a frame.
pub open spec fn spec_decode(raw: Seq<u8>) -> Result<FrameModel, FrameError> {
    if raw.len() < 2 {
        Err(FrameError::TooShort)
    } else if checksum_of(raw.subrange(0, raw.len() - 1)) != raw.last() {
        Err(FrameError::ChecksumMismatch)
    } else {
        Ok(
            FrameModel {
                frame_type: raw[0],
                data: raw.subrange(1, raw.len() - 1),
                checksum: raw.last(),
            },
        )
    }
}

/// The encoding of a frame type and data: type, data, then the checksum byte.
pub open spec fn spec_encode(frame_type: u8, data: Seq<u8>) -> Seq<u8> {
    seq![frame_type] + data + seq![checksum_of(seq![frame_type] + data)]
}

/// Computes the checksum of `s[..end]`.
fn compute_checksum(s: &[u8], end: usize) -> (c: u8)
    requires
        end <= s@.len(),
    ensures
        c == checksum_of(s@.subrange(0, end as int)),
{
    let mut sum: u8 = 0;
    let mut i: usize = 0;
    while i < end
        invariant
            0 <= i <= end <= s@.len(),
            sum == sum_bytes(s@.subrange(0, i as int)) % 256,
        decreases end - i,
    {
        let b = s[i];
        proof {
            let p = s@.subrange(0, i as int + 1);
            assert(p.drop_last() =~= s@.subrange(0, i as int));
            assert(p.last() == s@[i as int]);
            vstd::arithmetic::div_mod::lemma_add_mod_noop(
                sum_bytes(s@.subrange(0, i as int)) as int,
                b as int,
                256,
            );
        }
        sum = ((sum as u16 + b as u16) % 256) as u8;
        i = i + 1;
    }
    255 - sum
}

impl XbeePacket {
    /// Builds a frame over the given data, computing the checksum over the
    /// frame type and data bytes.
    pub fn assemble(frame_type: u8, data: Vec<u8>) -> (p: XbeePacket)
        ensures
            p@ == (FrameModel {
                frame_type,
                data: data@,
                checksum: checksum_of(seq![frame_type] + data@),
            }),
    {
        let mut bytes: Vec<u8> = Vec::new();
        bytes.push(frame_type);
        let mut i: usize = 0;
        while i < data.len()
            invariant
                0 <= i <= data@.len(),
                bytes@ =~= seq![frame_type] + data@.subrange(0, i as int),
            decreases data@.len() - i,
        {
            bytes.push(data[i]);
            assert(bytes@ =~= seq![frame_type] + data@.subrange(0, i as int + 1));
            i = i + 1;
        }
        assert(bytes@ =~= seq![frame_type] + data@);
        let checksum = compute_checksum(bytes.as_slice(), bytes.len());
        assert(bytes@.subrange(0, bytes@.len() as int) =~= seq![frame_type] + data@);
        XbeePacket { frame_type, data, checksum }
    }

    /// The wire bytes of this frame: type, data, then the stored checksum.
    pub fn serialise(&self) -> (r: Vec<u8>)
        ensures
            r@ == seq![self.frame_type] + self.data@ + seq![self.checksum],
    {
        let mut r: Vec<u8> = Vec::new();
        r.push(self.frame_type);
        let mut i: usize = 0;
        while i < self.data.len()
            invariant
                0 <= i <= self.data@.len(),
                r@ =~= seq![self.frame_type] + self.data@.subrange(0, i as int),
            decreases self.data@.len() - i,
        {
            r.push(self.data[i]);
            assert(r@ =~= seq![self.frame_type] + self.data@.subrange(0, i as int + 1));
            i = i + 1;
        }
        assert(r@ =~= seq![self.frame_type] + self.data@);
        r.push(self.checksum);
        assert(r@ =~= seq![self.frame_type] + self.data@ + seq![self.checksum]);
        r
    }

    /// Decodes a raw buffer: checks the minimum length, then that the
    /// trailing byte is the checksum of everything before it.
    pub fn decode(raw: &[u8]) -> (r: Result<XbeePacket, FrameError>)
        ensures
            match r {
                Ok(p) => spec_decode(raw@) == Ok::<FrameModel, FrameError>(p@),
                Err(e) => spec_decode(raw@) == Err::<FrameModel, FrameError>(e),
            },
    {
        if raw.len() < 2 {
            return Err(FrameError::TooShort);
        }
        let last = raw.len() - 1;
        let expected = compute_checksum(raw, last);
        let actual = raw[last];
        assert(raw@.last() == raw@[last as int]);
        if expected != actual {
            return Err(FrameError::ChecksumMismatch);
        }
        let data = copy_range(raw, 1, last);
        let p = XbeePacket { frame_type: raw[0], data, checksum: actual };
        assert(spec_decode(raw@) == Ok::<FrameModel, FrameError>(p@));
        Ok(p)
    }
}

/// Encoding a frame and decoding the result gives the frame back, with the
/// checksum computed over the frame type and data.
pub proof fn lemma_decode_encode(frame_type: u8, data: Seq<u8>)
    ensures
        spec_decode(spec_encode(frame_type, data)) == Ok::<FrameModel, FrameError>(
            FrameModel { frame_type, data, checksum: checksum_of(seq![frame_type] + data) },
        ),
{
    let body = seq![frame_type] + data;
    let c = checksum_of(body);
    let raw = spec_encode(frame_type, data);
    assert(raw.len() == data.len() + 2);
    assert(raw.subrange(0, raw.len() - 1) =~= body);
    assert(raw.last() == c);
    assert(raw[0] == frame_type);
    assert(raw.subrange(1, raw.len() - 1) =~= data);
    assert(spec_decode(raw) == Ok::<FrameModel, FrameError>(FrameModel { frame_type, data, checksum: c }));
}

/// The mathematical content of an inbound data frame.
#[verifier::ext_equal]
pub struct RxModel {
    pub src_addr: u16,
    pub rssi: u8,
    pub options: u8,
    pub data: Seq<u8>,
}

/// A frame carrying payload received over the air: source address,
/// signal strength, options, then the payload.
#[derive(Debug, Clone)]
pub struct RxPacket {
    pub src_addr: u16,
    pub rssi: u8,
    pub options: u8,
    pub data: Vec<u8>,
}

impl View for RxPacket {
    type V = RxModel;

    open spec fn view(&self) -> RxModel {
        RxModel {
            src_addr: self.src_addr,
            rssi: self.rssi,
            options: self.options,
            data: self.data@,
        }
    }
}

/// How a frame converts to an inbound data frame: the data must hold the
/// four header bytes; the excess is the payload.
pub open spec fn spec_rx_from(f: FrameModel) -> Result<RxModel, StructuralError> {
    if f.data.len() < 4 {
        Err(StructuralError::TooShort)
    } else {
        Ok(
            RxModel {
                src_addr: (f.data[0] as u16 * 256 + f.data[1] as u16) as u16,
                rssi: f.data[2],
                options: f.data[3],
                data: f.data.subrange(4, f.data.len() as int),
            },
        )
    }
}

impl RxPacket {
    /// Converts a decoded frame to an inbound data frame.
    pub fn from_packet(p: &XbeePacket) -> (r: Result<RxPacket, StructuralError>)
        ensures
            match r {
                Ok(rx) => spec_rx_from(p@) == Ok::<RxModel, StructuralError>(rx@),
                Err(e) => spec_rx_from(p@) == Err::<RxModel, StructuralError>(e),
            },
    {
        if p.data.len() < 4 {
            return Err(StructuralError::TooShort);
        }
        let hi = p.data[0];
        let lo = p.data[1];
        let src_addr = hi as u16 * 256 + lo as u16;
        let data = copy_range(p.data.as_slice(), 4, p.data.len());
        let rx = RxPacket { src_addr, rssi: p.data[2], options: p.data[3], data };
        assert(spec_rx_from(p@) == Ok::<RxModel, StructuralError>(rx@));
        Ok(rx)
    }
}

/// A frame reporting the outcome of a previously transmitted send request.
#[derive(Debug, Clone, Copy, PartialEq, Eq, Structural)]
pub struct TxStatus {
    pub frame_id: u8,
    pub status: u8,
}

/// How a frame converts to a send-status frame: the data must be exactly
/// the frame id and status bytes.
pub open spec fn spec_status_from(f: FrameModel) -> Result<TxStatus, StructuralError> {
    if f.data.len() != 2 {
        Err(StructuralError::WrongLength)
    } else {
        Ok(TxStatus { frame_id: f.data[0], status: f.data[1] })
    }
}

impl TxStatus {
    /// Converts a decoded frame to a send-status frame.
    pub fn from_packet(p: &XbeePacket) -> (r: Result<TxStatus, StructuralError>)
        ensures
            match r {
                Ok(st) => spec_status_from(p@) == Ok::<TxStatus, StructuralError>(st),
                Err(e) => spec_status_from(p@) == Err::<TxStatus, StructuralError>(e),
            },
    {
        if p.data.len() != 2 {
            return Err(StructuralError::WrongLength);
        }
        Ok(TxStatus { frame_id: p.data[0], status: p.data[1] })
    }
}

/// The frame type tagging an inbound data frame.
pub const RX_FRAME_TYPE: u8 = 0x81;

/// The frame type tagging a send-status frame.
pub const TX_STATUS_FRAME_TYPE: u8 = 0x89;

/// The frame type tagging an outbound send request.
pub const TX_REQUEST_FRAME_TYPE: u8 = 0x01;

/// An outbound send request: frame id, destination address, payload bytes.
#[derive(Debug, Clone)]
pub struct TxRequest {
    pub frame_id: u8,
    pub dest_addr: u16,
    pub payload: Vec<u8>,
}

/// The data bytes of a send request's frame: frame id, the destination
/// address high byte then low byte, then the payload.
pub open spec fn spec_tx_request_data(frame_id: u8, dest_addr: u16, payload: Seq<u8>) -> Seq<u8> {
    seq![frame_id, (dest_addr / 256) as u8, (dest_addr % 256) as u8] + payload
}

impl TxRequest {
    pub fn new(frame_id: u8, dest_addr: u16, payload: Vec<u8>) -> (r: TxRequest)
        ensures
            r.frame_id == frame_id,
            r.dest_addr == dest_addr,
            r.payload@ == payload@,
    {
        TxRequest { frame_id, dest_addr, payload }
    }

    /// Builds the outbound frame for this request; it always succeeds.
    pub fn to_packet(&self) -> (p: XbeePacket)
        ensures
            p@ == (FrameModel {
                frame_type: TX_REQUEST_FRAME_TYPE,
                data: spec_tx_request_data(self.frame_id, self.dest_addr, self.payload@),
                checksum: checksum_of(
                    seq![TX_REQUEST_FRAME_TYPE] + spec_tx_request_data(
                        self.frame_id,
                        self.dest_addr,
                        self.payload@,
                    ),
                ),
            }),
    {
        let mut data: Vec<u8> = Vec::new();
        data.push(self.frame_id);
        data.push((self.dest_addr / 256) as u8);
        data.push((self.dest_addr % 256) as u8);
        let mut i: usize = 0;
        while i < self.payload.len()
            invariant
                0 <= i <= self.payload@.len(),
                data@ =~= spec_tx_request_data(self.frame_id, self.dest_addr, self.payload@.subrange(0, i as int)),
            decreases self.payload@.len() - i,
        {
            data.push(self.payload[i]);
            assert(data@ =~= spec_tx_request_data(
                self.frame_id,
                self.dest_addr,
                self.payload@.subrange(0, i as int + 1),
            ));
            i = i + 1;
        }
        assert(data@ =~= spec_tx_request_data(self.frame_id, self.dest_addr, self.payload@));
        XbeePacket::assemble(TX_REQUEST_FRAME_TYPE, data)
    }
}

/// Replacing the checksum byte of an encoded frame with any other value makes
/// decoding fail with a checksum mismatch.
pub proof fn lemma_checksum_flip(frame_type: u8, data: Seq<u8>, wrong: u8)
    requires
        wrong != checksum_of(seq![frame_type] + data),
    ensures
        spec_decode(spec_encode(frame_type, data).update(spec_encode(frame_type, data).len() - 1, wrong))
            == Err::<FrameModel, FrameError>(FrameError::ChecksumMismatch),
{
    let raw = spec_encode(frame_type, data);
    let body = seq![frame_type] + data;
    let flipped = raw.update(raw.len() - 1, wrong);
    assert(flipped.len() == raw.len());
    assert(flipped.subrange(0, flipped.len() - 1) =~= body);
    assert(flipped.last() == wrong);
}

} // verus!
