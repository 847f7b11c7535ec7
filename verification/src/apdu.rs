//! The APDU header on the wire.
//!
//! The first octet holds the PDU type in its high four bits. For a confirmed
//! request the low four bits hold the flags, the second octet holds the
//! maximum segments in bits 6 to 4 and the maximum APDU size in bits 3 to 0,
//! and the invoke id and the service choice follow. An unconfirmed request is
//! the type octet and the service choice; a simple acknowledgement is the type
//! octet, the invoke id and the service choice.
//!
//! The flags of a confirmed request are carried as they stand. The two octets
//! that a segmented request puts before its service choice are not part of
//! this header.

use crate::ast::ApduHeader;
use vstd::prelude::*;

verus! {

/// The PDU type code of a confirmed request.
pub const PDU_TYPE_CONFIRMED_REQ: u8 = 0;

/// The PDU type code of an unconfirmed request.
pub const PDU_TYPE_UNCONFIRMED_REQ: u8 = 1;

/// The PDU type code of a simple acknowledgement.
pub const PDU_TYPE_SIMPLE_ACK: u8 = 2;

/// Why a buffer could not be read as an APDU header.
#[derive(Debug, Clone, Copy, PartialEq, Eq, Structural)]
pub enum HeaderError {
    /// The buffer ends before the last fixed field of the header.
    Truncated,
    /// The PDU type code, carried here, is none that this codec knows.
    UnknownPduType(u8),
}

/// The octets of a header.
pub open spec fn header_octets(header: ApduHeader) -> Seq<u8> {
    match header {
        ApduHeader::ConfirmedReq { pdu_flags, max_segments, max_apdu, invoke_id, service } => seq![
            (PDU_TYPE_CONFIRMED_REQ * 16 + pdu_flags) as u8,
            (max_segments * 16 + max_apdu) as u8,
            invoke_id,
            service,
        ],
        ApduHeader::UnconfirmedReq { service } => seq![
            (PDU_TYPE_UNCONFIRMED_REQ * 16) as u8,
            service,
        ],
        ApduHeader::SimpleAck { invoke_id, service } => seq![
            (PDU_TYPE_SIMPLE_ACK * 16) as u8,
            invoke_id,
            service,
        ],
    }
}

/// The number of octets that the header of a PDU type takes, for the types
/// that this codec knows.
pub open spec fn header_len(pdu_type: u8) -> Option<nat> {
    if pdu_type == PDU_TYPE_CONFIRMED_REQ {
        Some(4)
    } else if pdu_type == PDU_TYPE_UNCONFIRMED_REQ {
        Some(2)
    } else if pdu_type == PDU_TYPE_SIMPLE_ACK {
        Some(3)
    } else {
        None
    }
}

/// The header at the start of `bytes` and the number of octets it takes, or
/// the reason why there is none. Bits that the layout reserves are not
/// looked at.
pub open spec fn parse_header(bytes: Seq<u8>) -> Result<(ApduHeader, nat), HeaderError> {
    if bytes.len() == 0 {
        Err(HeaderError::Truncated)
    } else {
        let pdu_type = bytes[0] / 16;
        match header_len(pdu_type) {
            None => Err(HeaderError::UnknownPduType(pdu_type)),
            Some(n) => if bytes.len() < n {
                Err(HeaderError::Truncated)
            } else if pdu_type == PDU_TYPE_CONFIRMED_REQ {
                Ok(
                    (
                        ApduHeader::ConfirmedReq {
                            pdu_flags: bytes[0] % 16,
                            max_segments: (bytes[1] / 16) % 8,
                            max_apdu: bytes[1] % 16,
                            invoke_id: bytes[2],
                            service: bytes[3],
                        },
                        n,
                    ),
                )
            } else if pdu_type == PDU_TYPE_UNCONFIRMED_REQ {
                Ok((ApduHeader::UnconfirmedReq { service: bytes[1] }, n))
            } else {
                Ok((ApduHeader::SimpleAck { invoke_id: bytes[1], service: bytes[2] }, n))
            },
        }
    }
}

/// Appends the octets of `header` to `buf`.
pub fn write_apdu_header(buf: &mut Vec<u8>, header: &ApduHeader)
    requires
        header.wf(),
    ensures
        final(buf)@ == old(buf)@ + header_octets(*header),
{
    match header {
        ApduHeader::ConfirmedReq { pdu_flags, max_segments, max_apdu, invoke_id, service } => {
            buf.push(PDU_TYPE_CONFIRMED_REQ * 16 + *pdu_flags);
            buf.push(*max_segments * 16 + *max_apdu);
            buf.push(*invoke_id);
            buf.push(*service);
        },
        ApduHeader::UnconfirmedReq { service } => {
            buf.push(PDU_TYPE_UNCONFIRMED_REQ * 16);
            buf.push(*service);
        },
        ApduHeader::SimpleAck { invoke_id, service } => {
            buf.push(PDU_TYPE_SIMPLE_ACK * 16);
            buf.push(*invoke_id);
            buf.push(*service);
        },
    }
    assert(buf@ =~= old(buf)@ + header_octets(*header));
}

/// Reads the header at the start of `bytes`. On success the second component
/// is the number of octets read; the service's data starts there.
pub fn read_apdu_header(bytes: &[u8]) -> (r: Result<(ApduHeader, usize), HeaderError>)
    ensures
        match r {
            Ok((header, n)) => parse_header(bytes@) == Ok::<(ApduHeader, nat), HeaderError>(
                (header, n as nat),
            ),
            Err(e) => parse_header(bytes@) == Err::<(ApduHeader, nat), HeaderError>(e),
        },
        r matches Ok((header, n)) ==> header.wf() && n <= bytes@.len(),
{
    proof {
        lemma_parsed_header_wf(bytes@);
    }
    if bytes.len() == 0 {
        return Err(HeaderError::Truncated);
    }
    let pdu_type: u8 = bytes[0] / 16;
    if pdu_type == PDU_TYPE_CONFIRMED_REQ {
        if bytes.len() < 4 {
            return Err(HeaderError::Truncated);
        }
        Ok(
            (
                ApduHeader::ConfirmedReq {
                    pdu_flags: bytes[0] % 16,
                    max_segments: (bytes[1] / 16) % 8,
                    max_apdu: bytes[1] % 16,
                    invoke_id: bytes[2],
                    service: bytes[3],
                },
                4,
            ),
        )
    } else if pdu_type == PDU_TYPE_UNCONFIRMED_REQ {
        if bytes.len() < 2 {
            return Err(HeaderError::Truncated);
        }
        Ok((ApduHeader::UnconfirmedReq { service: bytes[1] }, 2))
    } else if pdu_type == PDU_TYPE_SIMPLE_ACK {
        if bytes.len() < 3 {
            return Err(HeaderError::Truncated);
        }
        Ok((ApduHeader::SimpleAck { invoke_id: bytes[1], service: bytes[2] }, 3))
    } else {
        Err(HeaderError::UnknownPduType(pdu_type))
    }
}

/// Reading what was written gives the header back, whatever follows it.
pub proof fn lemma_header_round_trip(header: ApduHeader, rest: Seq<u8>)
    requires
        header.wf(),
    ensures
        parse_header(header_octets(header) + rest) == Ok::<(ApduHeader, nat), HeaderError>(
            (header, header_octets(header).len()),
        ),
{
    let bytes = header_octets(header) + rest;
    match header {
        ApduHeader::ConfirmedReq { pdu_flags, max_segments, max_apdu, invoke_id, service } => {
            assert(bytes[0] == pdu_flags);
            assert(bytes[1] == max_segments * 16 + max_apdu);
            assert(bytes[2] == invoke_id);
            assert(bytes[3] == service);
        },
        ApduHeader::UnconfirmedReq { service } => {
            assert(bytes[0] == 16);
            assert(bytes[1] == service);
        },
        ApduHeader::SimpleAck { invoke_id, service } => {
            assert(bytes[0] == 32);
            assert(bytes[1] == invoke_id);
            assert(bytes[2] == service);
        },
    }
}

/// A header that was read is well formed and lies within the buffer.
pub proof fn lemma_parsed_header_wf(bytes: Seq<u8>)
    ensures
        parse_header(bytes) matches Ok((header, n)) ==> header.wf() && n <= bytes.len() && n
            == header_octets(header).len(),
{
}

} // verus!
