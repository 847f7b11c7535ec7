//! The layers put together: the data of a service after an APDU header, the
//! APDU in an NPDU, and the NPDU in a BACnet/IP frame, which is the datagram
//! that a socket sends.
//!
//! Reading goes the other way, layer by layer, and stops at the first layer
//! that refuses its input. It goes as far as the APDU header: the header names
//! the service, and the caller reads the service's data as a message of that
//! service.

use crate::apdu::{
    header_octets, lemma_header_round_trip, lemma_parsed_header_wf, parse_header,
    read_apdu_header, write_apdu_header, HeaderError,
};
use crate::ast::ApduHeader;
use crate::bacnet_ip::{
    lemma_frame_round_trip, parse_frame, BipAddress, FrameModel, FramingError, VLLFrame,
};
use crate::bytes::{append_bytes, copy_range, lemma_skip_concat};
use crate::network::{
    is_confirmed_request, lemma_npdu_round_trip, parse_npdu, NetworkError, NetworkRequest,
    NetworkRequestModel, Priority,
};
use crate::service::{
    decode_message, lemma_message_round_trip, message_octets, parse_message, ServiceError,
    ServiceMessage,
};
use crate::{bacnet_ip, network};
use vstd::prelude::*;

verus! {

/// How a frame is delivered.
#[derive(Debug, Clone, Copy, PartialEq, Eq, Structural)]
pub enum Delivery {
    /// To one known peer.
    Unicast,
    /// To all peers.
    Broadcast,
    /// Passed on by a broadcast management device for the device with this
    /// address.
    Forwarded(BipAddress),
}

/// Why a datagram could not be read as far as the APDU header. Each layer's
/// error is handed on as it is.
#[derive(Debug, Clone, Copy, PartialEq, Eq, Structural)]
pub enum DatagramError {
    Framing(FramingError),
    Network(NetworkError),
    Header(HeaderError),
}

/// Why an APDU could not be written as a datagram.
#[derive(Debug, Clone, Copy, PartialEq, Eq, Structural)]
pub enum EncodeError {
    /// A field of the header does not fit its bits.
    InvalidHeader,
    /// The frame would be longer than its length field can state.
    TooLong,
}

/// What was read from a datagram.
#[derive(Debug, PartialEq, Eq)]
pub struct Received {
    /// How the frame was delivered.
    pub delivery: Delivery,
    /// The NPDU, with the APDU as it stood in it.
    pub request: NetworkRequest,
    /// The header of the APDU.
    pub header: ApduHeader,
    /// The octets of the APDU after its header.
    pub service_data: Vec<u8>,
}

/// What a [`Received`] stands for.
pub struct ReceivedModel {
    pub delivery: Delivery,
    pub request: NetworkRequestModel,
    pub header: ApduHeader,
    pub service_data: Seq<u8>,
}

impl View for Received {
    type V = ReceivedModel;

    open spec fn view(&self) -> ReceivedModel {
        ReceivedModel {
            delivery: self.delivery,
            request: self.request@,
            header: self.header,
            service_data: self.service_data@,
        }
    }
}

/// How a frame says that it is delivered.
pub open spec fn delivery_of(frame: FrameModel) -> Delivery {
    match frame {
        FrameModel::OriginalUnicastNPDU(_) => Delivery::Unicast,
        FrameModel::OriginalBroadcastNPDU(_) => Delivery::Broadcast,
        FrameModel::ForwardedNPDU(origin, _) => Delivery::Forwarded(origin),
    }
}

/// The frame that delivers an NPDU in the given way.
pub open spec fn frame_of(delivery: Delivery, npdu: Seq<u8>) -> FrameModel {
    match delivery {
        Delivery::Unicast => FrameModel::OriginalUnicastNPDU(npdu),
        Delivery::Broadcast => FrameModel::OriginalBroadcastNPDU(npdu),
        Delivery::Forwarded(origin) => FrameModel::ForwardedNPDU(origin, npdu),
    }
}

/// The request that carries an APDU on the local network at normal priority,
/// and expects a reply if and only if the APDU is a confirmed request.
pub open spec fn local_request(apdu: Seq<u8>) -> NetworkRequestModel {
    NetworkRequestModel {
        destination: None,
        source: None,
        expecting_reply: is_confirmed_request(apdu),
        priority: Priority::Normal,
        apdu,
    }
}

/// The octets of an APDU: the header, then the service's data.
pub open spec fn apdu_octets(header: ApduHeader, service_data: Seq<u8>) -> Seq<u8> {
    header_octets(header) + service_data
}

/// The frame that delivers an APDU on the local network.
pub open spec fn apdu_frame(
    header: ApduHeader,
    service_data: Seq<u8>,
    delivery: Delivery,
) -> FrameModel {
    frame_of(delivery, local_request(apdu_octets(header, service_data)).wire_octets())
}

/// What a datagram holds as far as the APDU header, or the reason why a
/// layer refuses it.
pub open spec fn parse_datagram(bytes: Seq<u8>) -> Result<ReceivedModel, DatagramError> {
    match parse_frame(bytes) {
        Err(e) => Err(DatagramError::Framing(e)),
        Ok(frame) => match parse_npdu(frame.payload()) {
            Err(e) => Err(DatagramError::Network(e)),
            Ok(request) => match parse_header(request.apdu) {
                Err(e) => Err(DatagramError::Header(e)),
                Ok((header, n)) => Ok(
                    ReceivedModel {
                        delivery: delivery_of(frame),
                        request,
                        header,
                        service_data: request.apdu.skip(n as int),
                    },
                ),
            },
        },
    }
}

impl Delivery {
    /// The frame that delivers an NPDU in this way.
    pub fn frame(self, npdu: Vec<u8>) -> (frame: VLLFrame)
        ensures
            frame@ == frame_of(self, npdu@),
    {
        match self {
            Delivery::Unicast => VLLFrame::OriginalUnicastNPDU(npdu),
            Delivery::Broadcast => VLLFrame::OriginalBroadcastNPDU(npdu),
            Delivery::Forwarded(origin) => VLLFrame::ForwardedNPDU(origin, npdu),
        }
    }

    /// How a frame says that it is delivered.
    pub fn of(frame: &VLLFrame) -> (delivery: Delivery)
        ensures
            delivery == delivery_of(frame@),
    {
        match frame {
            VLLFrame::OriginalUnicastNPDU(_) => Delivery::Unicast,
            VLLFrame::OriginalBroadcastNPDU(_) => Delivery::Broadcast,
            VLLFrame::ForwardedNPDU(origin, _) => Delivery::Forwarded(*origin),
        }
    }
}

impl Received {
    /// Reads the service's data as a message of the service `M`.
    pub fn message<M: ServiceMessage>(&self) -> (r: Result<M, ServiceError>)
        ensures
            r == parse_message::<M>(self@.service_data),
    {
        decode_message::<M>(self.service_data.as_slice())
    }
}

/// Appends to `buf` the datagram of an APDU: the header and the service's
/// data, in an NPDU for the local network at normal priority, in a frame of
/// the given delivery. Where the APDU cannot be written, `buf` is left as it
/// was.
pub fn encode_datagram(
    header: &ApduHeader,
    service_data: &[u8],
    delivery: Delivery,
    buf: &mut Vec<u8>,
) -> (r: Result<(), EncodeError>)
    ensures
        match r {
            Ok(_) => final(buf)@ == old(buf)@ + apdu_frame(
                *header,
                service_data@,
                delivery,
            ).wire_octets(),
            Err(_) => final(buf)@ == old(buf)@,
        },
        r == (if !header.wf() {
            Err::<(), EncodeError>(EncodeError::InvalidHeader)
        } else if !apdu_frame(*header, service_data@, delivery).wf() {
            Err::<(), EncodeError>(EncodeError::TooLong)
        } else {
            Ok::<(), EncodeError>(())
        }),
{
    if !header.is_valid() {
        return Err(EncodeError::InvalidHeader);
    }
    let mut apdu: Vec<u8> = Vec::new();
    write_apdu_header(&mut apdu, header);
    append_bytes(&mut apdu, service_data);
    assert(apdu@ =~= apdu_octets(*header, service_data@));
    let request = NetworkRequest::expect_reply(apdu);
    let mut npdu: Vec<u8> = Vec::new();
    network::encode(&request, &mut npdu);
    assert(npdu@ =~= request@.wire_octets());
    let frame = delivery.frame(npdu);
    if !frame.is_valid() {
        return Err(EncodeError::TooLong);
    }
    bacnet_ip::encode(&frame, buf);
    Ok(())
}

/// Reads a datagram layer by layer as far as the APDU header.
pub fn decode_datagram(bytes: &[u8]) -> (r: Result<Received, DatagramError>)
    ensures
        match r {
            Ok(received) => parse_datagram(bytes@) == Ok::<ReceivedModel, DatagramError>(
                received@,
            ),
            Err(e) => parse_datagram(bytes@) == Err::<ReceivedModel, DatagramError>(e),
        },
{
    let frame = match bacnet_ip::decode(bytes) {
        Ok(frame) => frame,
        Err(e) => {
            return Err(DatagramError::Framing(e));
        },
    };
    let request = match network::decode(frame.payload().as_slice()) {
        Ok(request) => request,
        Err(e) => {
            return Err(DatagramError::Network(e));
        },
    };
    let (header, data_start) = match read_apdu_header(request.apdu.as_slice()) {
        Ok(found) => found,
        Err(e) => {
            return Err(DatagramError::Header(e));
        },
    };
    proof {
        lemma_parsed_header_wf(request.apdu@);
    }
    let service_data = copy_range(request.apdu.as_slice(), data_start, request.apdu.len());
    Ok(Received { delivery: Delivery::of(&frame), request, header, service_data })
}

/// Reading the datagram of an APDU gives back how it was delivered, its
/// header and the service's data.
pub proof fn lemma_datagram_round_trip(
    header: ApduHeader,
    service_data: Seq<u8>,
    delivery: Delivery,
)
    requires
        header.wf(),
        apdu_frame(header, service_data, delivery).wf(),
    ensures
        parse_datagram(apdu_frame(header, service_data, delivery).wire_octets()) == Ok::<
            ReceivedModel,
            DatagramError,
        >(
            ReceivedModel {
                delivery,
                request: local_request(apdu_octets(header, service_data)),
                header,
                service_data,
            },
        ),
{
    let apdu = apdu_octets(header, service_data);
    let request = local_request(apdu);
    let frame = apdu_frame(header, service_data, delivery);
    lemma_frame_round_trip(frame);
    assert(frame.payload() == request.wire_octets());
    lemma_npdu_round_trip(request);
    lemma_header_round_trip(header, service_data);
    lemma_skip_concat(header_octets(header), service_data);
}

/// A message that was written after a header and sent in a datagram is read
/// back from the datagram: the layers give back the octets of the message,
/// and the octets give back the message.
pub proof fn lemma_message_datagram_round_trip<M: ServiceMessage>(
    header: ApduHeader,
    message: M,
    delivery: Delivery,
)
    requires
        header.wf(),
        message.valid(),
        apdu_frame(header, message_octets(message), delivery).wf(),
    ensures
        parse_datagram(apdu_frame(header, message_octets(message), delivery).wire_octets())
            matches Ok(received) && received.delivery == delivery && received.header == header
            && parse_message::<M>(received.service_data) == Ok::<M, ServiceError>(message),
{
    lemma_datagram_round_trip(header, message_octets(message), delivery);
    lemma_message_round_trip(message);
}

} // verus!
