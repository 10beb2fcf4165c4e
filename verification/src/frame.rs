//! Link-layer frame types and the codec collaborator interface.
//!
//! Building and parsing the over-the-air frame layout (header encoding,
//! address compression, checksum handling) is not this driver's business:
//! it is done by a frame codec that the application supplies through the
//! [`FrameCodec`] trait, the same way the bus is supplied through
//! [`crate::ll::Transport`]. The driver only carries the plain values below
//! across that boundary.

use vstd::prelude::*;

verus! {

/// A PAN-scoped link-layer address.
#[derive(Clone, Copy, Debug, PartialEq, Eq, Structural)]
pub enum Address {
    /// A 16-bit short address within a PAN: `(pan_id, short_address)`.
    Short(u16, u16),
    /// A 64-bit extended address within a PAN: `(pan_id, extended_address)`.
    Extended(u16, u64),
}

/// The version of the link-layer standard a frame declares.
#[derive(Clone, Copy, Debug, PartialEq, Eq, Structural)]
pub enum FrameVersion {
    /// The 2003 edition of the standard.
    Ieee802154_2003,
    /// The 2006 edition of the standard.
    Ieee802154_2006,
}

/// The class of a link-layer frame.
#[derive(Clone, Copy, Debug, PartialEq, Eq, Structural)]
pub enum FrameType {
    /// A beacon frame.
    Beacon,
    /// A data frame.
    Data,
    /// An acknowledgement frame.
    Acknowledgement,
    /// A MAC command frame.
    MacCommand,
}

/// The header fields of a link-layer frame that this driver reads or sets.
#[derive(Clone, Copy, Debug, PartialEq, Eq, Structural)]
pub struct FrameHeader {
    /// The frame's class.
    pub frame_type: FrameType,
    /// The standard edition the frame declares.
    pub version: FrameVersion,
    /// Whether the payload is secured. This driver always sends unsecured
    /// frames.
    pub security: bool,
    /// Whether the sender holds more data for the addressee.
    pub frame_pending: bool,
    /// Whether the sender asks for an acknowledgement.
    pub ack_request: bool,
    /// Whether the PAN id is elided from the source address on the air.
    pub pan_id_compress: bool,
    /// The destination address.
    pub destination: Address,
    /// The source address.
    pub source: Address,
    /// The sequence number.
    pub seq: u8,
}

/// A link-layer frame: header fields plus payload bytes.
#[derive(Debug, PartialEq, Eq)]
pub struct Frame {
    /// The header fields.
    pub header: FrameHeader,
    /// The payload bytes.
    pub payload: Vec<u8>,
}

/// The frame codec could not parse the received bytes as a frame.
#[derive(Clone, Copy, Debug, PartialEq, Eq, Structural)]
pub struct FrameDecodeError;

/// The ghost view of a frame: its header fields and its payload bytes.
pub struct FrameView {
    /// The frame's class.
    pub frame_type: FrameType,
    /// The standard edition the frame declares.
    pub version: FrameVersion,
    /// Whether the payload is secured.
    pub security: bool,
    /// Whether the sender holds more data for the addressee.
    pub frame_pending: bool,
    /// Whether the sender asks for an acknowledgement.
    pub ack_request: bool,
    /// Whether the PAN id is elided from the source address on the air.
    pub pan_id_compress: bool,
    /// The destination address.
    pub destination: Address,
    /// The source address.
    pub source: Address,
    /// The sequence number.
    pub seq: u8,
    /// The payload bytes.
    pub payload: Seq<u8>,
}

impl View for Frame {
    type V = FrameView;

    open spec fn view(&self) -> FrameView {
        FrameView {
            frame_type: self.header.frame_type,
            version: self.header.version,
            security: self.header.security,
            frame_pending: self.header.frame_pending,
            ack_request: self.header.ack_request,
            pan_id_compress: self.header.pan_id_compress,
            destination: self.header.destination,
            source: self.header.source,
            seq: self.header.seq,
            payload: self.payload@,
        }
    }
}

/// The frame codec collaborator: encodes a frame into the bytes that go to
/// the chip's transmit buffer, and parses received bytes back into a frame.
///
/// Implementations live outside this crate. The two ghost members name what
/// the codec computes, so that the driver's contracts can speak of the
/// frame that was encoded or decoded; implementations outside the verifier
/// keep the defaults and cannot exhibit these clauses, so every claim
/// proved through them rests on this trait's contract. The driver also
/// relies on one documented property: an encoded standard frame fits the
/// chip's transmit buffer together with the two checksum bytes the hardware
/// appends, so its length is at most 125 bytes (the driver itself caps what
/// it copies, so a codec that breaks this bound voids contracts but cannot
/// make the driver write out of bounds).
pub trait FrameCodec {
    /// What encoding a frame yields, as a function of the frame alone; see
    /// the trait documentation.
    open spec fn spec_encode(&self, frame: FrameView) -> Seq<u8> {
        Seq::empty()
    }

    /// What parsing a byte sequence yields, as a function of the bytes
    /// alone; see the trait documentation.
    open spec fn spec_decode(&self, bytes: Seq<u8>) -> Result<FrameView, FrameDecodeError> {
        Err(FrameDecodeError)
    }

    /// Encodes `frame` into its over-the-air bytes, without the trailing
    /// checksum, which the hardware computes and appends itself.
    fn encode_frame(&self, frame: &Frame) -> (r: Vec<u8>)
        ensures
            r@.len() <= 125,
            r@ == self.spec_encode(frame@),
    ;

    /// Parses received bytes, including the two trailing checksum bytes,
    /// into a frame.
    fn decode_frame(&self, bytes: &Vec<u8>) -> (r: Result<Frame, FrameDecodeError>)
        ensures
            (match r {
                Ok(frame) => self.spec_decode(bytes@) == Ok::<FrameView, FrameDecodeError>(
                    frame@,
                ),
                Err(e) => self.spec_decode(bytes@) == Err::<FrameView, FrameDecodeError>(e),
            }),
    ;
}

} // verus!
