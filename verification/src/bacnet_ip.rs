//! The BACnet/IP virtual link layer: the frame that carries a network-layer
//! packet in a UDP datagram.
//!
//! A frame starts with the protocol identifier, the function code that names
//! the kind of delivery, and the length of the whole frame in two octets, most
//! significant first. A forwarded frame then holds the address of the device
//! that first sent the packet, in six octets. The network-layer packet is the
//! rest.

use crate::bytes::{
    append_bytes, be16, copy_range, from_be16, lemma_be16_canonical, push_be16, read_be16,
};
use vstd::prelude::*;

verus! {

/// The protocol identifier of BACnet/IP.
pub const BVLL_TYPE: u8 = 0x81;

/// The function code of a forwarded packet.
pub const FUNCTION_FORWARDED_NPDU: u8 = 0x04;

/// The function code of a packet sent to one peer.
pub const FUNCTION_ORIGINAL_UNICAST_NPDU: u8 = 0x0a;

/// The function code of a packet sent to all peers.
pub const FUNCTION_ORIGINAL_BROADCAST_NPDU: u8 = 0x0b;

/// The number of octets before the payload of an original frame.
pub const HEADER_LEN: usize = 4;

/// The number of octets before the payload of a forwarded frame.
pub const FORWARDED_HEADER_LEN: usize = 10;

/// The greatest length that the length field can state.
pub const MAX_FRAME_LEN: usize = 0xffff;

/// The address of a BACnet/IP device: an IPv4 address, as the number that its
/// four octets make most significant first, and a UDP port.
#[derive(Debug, Clone, Copy, PartialEq, Eq, Structural)]
pub struct BipAddress {
    pub ip: u32,
    pub port: u16,
}

/// A frame of the virtual link layer, by kind of delivery, with the
/// network-layer packet that it carries.
#[derive(Debug, PartialEq, Eq)]
pub enum VLLFrame {
    /// A packet sent to one known peer.
    OriginalUnicastNPDU(Vec<u8>),
    /// A packet sent to all peers.
    OriginalBroadcastNPDU(Vec<u8>),
    /// A packet passed on by a broadcast management device, with the address of
    /// the device that first sent it.
    ForwardedNPDU(BipAddress, Vec<u8>),
}

/// What a [`VLLFrame`] stands for.
pub enum FrameModel {
    OriginalUnicastNPDU(Seq<u8>),
    OriginalBroadcastNPDU(Seq<u8>),
    ForwardedNPDU(BipAddress, Seq<u8>),
}

/// Why a datagram could not be read as a frame.
#[derive(Debug, Clone, Copy, PartialEq, Eq, Structural)]
pub enum FramingError {
    /// The datagram ends before the end of the frame's header.
    Truncated,
    /// The first octet, carried here, is not the protocol identifier.
    WrongProtocol(u8),
    /// The function code, carried here, is none that this codec knows.
    UnknownFunction(u8),
    /// The length field, carried here, is not the length of the datagram.
    LengthMismatch(u16),
}

impl View for VLLFrame {
    type V = FrameModel;

    open spec fn view(&self) -> FrameModel {
        match self {
            VLLFrame::OriginalUnicastNPDU(npdu) => FrameModel::OriginalUnicastNPDU(npdu@),
            VLLFrame::OriginalBroadcastNPDU(npdu) => FrameModel::OriginalBroadcastNPDU(npdu@),
            VLLFrame::ForwardedNPDU(origin, npdu) => FrameModel::ForwardedNPDU(*origin, npdu@),
        }
    }
}

/// The six octets of an address: the IPv4 address and the port, each most
/// significant octet first.
pub open spec fn address_octets(address: BipAddress) -> Seq<u8> {
    be16((address.ip / 0x1_0000) as u16) + be16((address.ip % 0x1_0000) as u16) + be16(
        address.port,
    )
}

/// The address that six octets stand for.
pub open spec fn address_from_bytes(b: Seq<u8>) -> BipAddress {
    BipAddress {
        ip: (from_be16(b[0], b[1]) * 0x1_0000 + from_be16(b[2], b[3])) as u32,
        port: from_be16(b[4], b[5]),
    }
}

impl FrameModel {
    /// The network-layer packet that the frame carries.
    pub open spec fn payload(self) -> Seq<u8> {
        match self {
            FrameModel::OriginalUnicastNPDU(npdu) => npdu,
            FrameModel::OriginalBroadcastNPDU(npdu) => npdu,
            FrameModel::ForwardedNPDU(_, npdu) => npdu,
        }
    }

    /// The function code that names the frame's kind.
    pub open spec fn function(self) -> u8 {
        match self {
            FrameModel::OriginalUnicastNPDU(_) => FUNCTION_ORIGINAL_UNICAST_NPDU,
            FrameModel::OriginalBroadcastNPDU(_) => FUNCTION_ORIGINAL_BROADCAST_NPDU,
            FrameModel::ForwardedNPDU(_, _) => FUNCTION_FORWARDED_NPDU,
        }
    }

    /// The octets between the length field and the payload.
    pub open spec fn origin_octets(self) -> Seq<u8> {
        match self {
            FrameModel::ForwardedNPDU(origin, _) => address_octets(origin),
            _ => Seq::empty(),
        }
    }

    /// The length of the whole frame on the wire.
    pub open spec fn wire_len(self) -> nat {
        HEADER_LEN as nat + self.origin_octets().len() + self.payload().len()
    }

    /// The length of the frame fits the length field.
    pub open spec fn wf(self) -> bool {
        self.wire_len() <= MAX_FRAME_LEN
    }

    /// The octets of the frame.
    pub open spec fn wire_octets(self) -> Seq<u8> {
        seq![BVLL_TYPE, self.function()] + be16(self.wire_len() as u16) + self.origin_octets()
            + self.payload()
    }
}

/// Whether a function code names a kind of frame that this codec knows.
pub open spec fn known_function(code: u8) -> bool {
    code == FUNCTION_ORIGINAL_UNICAST_NPDU || code == FUNCTION_ORIGINAL_BROADCAST_NPDU || code
        == FUNCTION_FORWARDED_NPDU
}

/// The frame that a datagram holds, or the reason why it holds none. The
/// protocol identifier is looked at first, then the function code, then the
/// length field, which must state the length of the whole datagram.
pub open spec fn parse_frame(bytes: Seq<u8>) -> Result<FrameModel, FramingError> {
    if bytes.len() < HEADER_LEN {
        Err(FramingError::Truncated)
    } else if bytes[0] != BVLL_TYPE {
        Err(FramingError::WrongProtocol(bytes[0]))
    } else if !known_function(bytes[1]) {
        Err(FramingError::UnknownFunction(bytes[1]))
    } else if from_be16(bytes[2], bytes[3]) != bytes.len() {
        Err(FramingError::LengthMismatch(from_be16(bytes[2], bytes[3])))
    } else if bytes[1] == FUNCTION_ORIGINAL_UNICAST_NPDU {
        Ok(FrameModel::OriginalUnicastNPDU(bytes.skip(HEADER_LEN as int)))
    } else if bytes[1] == FUNCTION_ORIGINAL_BROADCAST_NPDU {
        Ok(FrameModel::OriginalBroadcastNPDU(bytes.skip(HEADER_LEN as int)))
    } else if bytes.len() < FORWARDED_HEADER_LEN {
        Err(FramingError::Truncated)
    } else {
        Ok(
            FrameModel::ForwardedNPDU(
                address_from_bytes(bytes.subrange(HEADER_LEN as int, FORWARDED_HEADER_LEN as int)),
                bytes.skip(FORWARDED_HEADER_LEN as int),
            ),
        )
    }
}

impl VLLFrame {
    /// The network-layer packet that the frame carries.
    pub fn payload(&self) -> (npdu: &Vec<u8>)
        ensures
            npdu@ == self@.payload(),
    {
        match self {
            VLLFrame::OriginalUnicastNPDU(npdu) => npdu,
            VLLFrame::OriginalBroadcastNPDU(npdu) => npdu,
            VLLFrame::ForwardedNPDU(_, npdu) => npdu,
        }
    }

    /// Whether the frame is short enough for its length to be written.
    pub fn is_valid(&self) -> (b: bool)
        ensures
            b == self@.wf(),
    {
        match self {
            VLLFrame::ForwardedNPDU(_, npdu) => npdu.len() <= MAX_FRAME_LEN - FORWARDED_HEADER_LEN,
            _ => self.payload().len() <= MAX_FRAME_LEN - HEADER_LEN,
        }
    }
}

/// Appends the octets of `frame` to `buf`.
pub fn encode(frame: &VLLFrame, buf: &mut Vec<u8>)
    requires
        frame@.wf(),
    ensures
        final(buf)@ == old(buf)@ + frame@.wire_octets(),
{
    buf.push(BVLL_TYPE);
    match frame {
        VLLFrame::OriginalUnicastNPDU(npdu) => {
            buf.push(FUNCTION_ORIGINAL_UNICAST_NPDU);
            push_be16(buf, (npdu.len() + HEADER_LEN) as u16);
            append_bytes(buf, npdu.as_slice());
        },
        VLLFrame::OriginalBroadcastNPDU(npdu) => {
            buf.push(FUNCTION_ORIGINAL_BROADCAST_NPDU);
            push_be16(buf, (npdu.len() + HEADER_LEN) as u16);
            append_bytes(buf, npdu.as_slice());
        },
        VLLFrame::ForwardedNPDU(origin, npdu) => {
            buf.push(FUNCTION_FORWARDED_NPDU);
            push_be16(buf, (npdu.len() + FORWARDED_HEADER_LEN) as u16);
            push_be16(buf, (origin.ip / 0x1_0000) as u16);
            push_be16(buf, (origin.ip % 0x1_0000) as u16);
            push_be16(buf, origin.port);
            append_bytes(buf, npdu.as_slice());
        },
    }
    assert(buf@ =~= old(buf)@ + frame@.wire_octets());
}

/// Reads a datagram as a frame.
///
/// A datagram shorter than the header, one whose length field states another
/// length than its own, and one with a function code that is none of the
/// three kinds of delivery are each refused with the error that names the
/// fault.
pub fn decode(bytes: &[u8]) -> (r: Result<VLLFrame, FramingError>)
    ensures
        match r {
            Ok(frame) => parse_frame(bytes@) == Ok::<FrameModel, FramingError>(frame@),
            Err(e) => parse_frame(bytes@) == Err::<FrameModel, FramingError>(e),
        },
        bytes@.len() < HEADER_LEN ==> r == Err::<VLLFrame, FramingError>(FramingError::Truncated),
        bytes@.len() >= HEADER_LEN && bytes@[0] == BVLL_TYPE && !known_function(bytes@[1]) ==> r
            == Err::<VLLFrame, FramingError>(FramingError::UnknownFunction(bytes@[1])),
        bytes@.len() >= HEADER_LEN && bytes@[0] == BVLL_TYPE && known_function(bytes@[1])
            && from_be16(bytes@[2], bytes@[3]) != bytes@.len() ==> r == Err::<
            VLLFrame,
            FramingError,
        >(FramingError::LengthMismatch(from_be16(bytes@[2], bytes@[3]))),
        r matches Ok(frame) ==> frame@.wf() && frame@.wire_octets() == bytes@,
{
    proof {
        lemma_frame_canonical(bytes@);
    }
    let len = bytes.len();
    if len < HEADER_LEN {
        return Err(FramingError::Truncated);
    }
    if bytes[0] != BVLL_TYPE {
        return Err(FramingError::WrongProtocol(bytes[0]));
    }
    let function: u8 = bytes[1];
    if function != FUNCTION_ORIGINAL_UNICAST_NPDU && function != FUNCTION_ORIGINAL_BROADCAST_NPDU
        && function != FUNCTION_FORWARDED_NPDU {
        return Err(FramingError::UnknownFunction(function));
    }
    let declared: u16 = read_be16(bytes, 2);
    if declared as usize != len {
        return Err(FramingError::LengthMismatch(declared));
    }
    if function == FUNCTION_ORIGINAL_UNICAST_NPDU {
        Ok(VLLFrame::OriginalUnicastNPDU(copy_range(bytes, HEADER_LEN, len)))
    } else if function == FUNCTION_ORIGINAL_BROADCAST_NPDU {
        Ok(VLLFrame::OriginalBroadcastNPDU(copy_range(bytes, HEADER_LEN, len)))
    } else {
        if len < FORWARDED_HEADER_LEN {
            return Err(FramingError::Truncated);
        }
        let ip_hi: u16 = read_be16(bytes, 4);
        let ip_lo: u16 = read_be16(bytes, 6);
        let port: u16 = read_be16(bytes, 8);
        let origin = BipAddress { ip: ip_hi as u32 * 0x1_0000 + ip_lo as u32, port };
        Ok(VLLFrame::ForwardedNPDU(origin, copy_range(bytes, FORWARDED_HEADER_LEN, len)))
    }
}

/// Reading the octets of an address gives the address back.
pub proof fn lemma_address_round_trip(address: BipAddress)
    ensures
        address_octets(address).len() == 6,
        address_from_bytes(address_octets(address)) == address,
{
}

/// Reading what was written gives the frame back.
pub proof fn lemma_frame_round_trip(frame: FrameModel)
    requires
        frame.wf(),
    ensures
        parse_frame(frame.wire_octets()) == Ok::<FrameModel, FramingError>(frame),
{
    let bytes = frame.wire_octets();
    assert(bytes.len() == frame.wire_len());
    match frame {
        FrameModel::ForwardedNPDU(origin, npdu) => {
            lemma_address_round_trip(origin);
            assert(bytes.subrange(HEADER_LEN as int, FORWARDED_HEADER_LEN as int) =~= address_octets(
                origin,
            ));
            assert(bytes.skip(FORWARDED_HEADER_LEN as int) =~= npdu);
        },
        _ => {
            assert(bytes.skip(HEADER_LEN as int) =~= frame.payload());
        },
    }
}

/// Writing the address that six octets stand for gives the six octets.
pub proof fn lemma_address_canonical(b: Seq<u8>)
    requires
        b.len() == 6,
    ensures
        address_octets(address_from_bytes(b)) == b,
{
    let address = address_from_bytes(b);
    lemma_be16_canonical(b[0], b[1]);
    lemma_be16_canonical(b[2], b[3]);
    lemma_be16_canonical(b[4], b[5]);
    assert(address.ip / 0x1_0000 == from_be16(b[0], b[1]));
    assert(address.ip % 0x1_0000 == from_be16(b[2], b[3]));
    assert(address_octets(address) =~= b);
}

/// A datagram that reads as a frame is exactly what writing that frame gives:
/// no two datagrams stand for the same frame.
pub proof fn lemma_frame_canonical(bytes: Seq<u8>)
    ensures
        parse_frame(bytes) matches Ok(frame) ==> frame.wf() && frame.wire_octets() == bytes,
{
    if let Ok(frame) = parse_frame(bytes) {
        let head = seq![BVLL_TYPE, frame.function()] + be16(frame.wire_len() as u16);
        lemma_be16_canonical(bytes[2], bytes[3]);
        assert(head =~= bytes.subrange(0, HEADER_LEN as int));
        match frame {
            FrameModel::ForwardedNPDU(origin, npdu) => {
                let middle = bytes.subrange(HEADER_LEN as int, FORWARDED_HEADER_LEN as int);
                lemma_address_canonical(middle);
                assert(bytes =~= bytes.subrange(0, HEADER_LEN as int) + middle + npdu);
            },
            _ => {
                assert(bytes =~= bytes.subrange(0, HEADER_LEN as int) + Seq::<u8>::empty()
                    + frame.payload());
            },
        }
    }
}

} // verus!
