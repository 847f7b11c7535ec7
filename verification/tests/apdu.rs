use bacnet::apdu::{
    read_apdu_header, write_apdu_header, HeaderError, PDU_TYPE_CONFIRMED_REQ, PDU_TYPE_SIMPLE_ACK,
    PDU_TYPE_UNCONFIRMED_REQ,
};
use bacnet::ast::ApduHeader;

fn header_octets(header: ApduHeader) -> Vec<u8> {
    assert!(header.is_valid());
    let mut buf = Vec::new();
    write_apdu_header(&mut buf, &header);
    buf
}

#[test]
fn pdu_type_codes() {
    assert_eq!(PDU_TYPE_CONFIRMED_REQ, 0);
    assert_eq!(PDU_TYPE_UNCONFIRMED_REQ, 1);
    assert_eq!(PDU_TYPE_SIMPLE_ACK, 2);
}

#[test]
fn unconfirmed_request_octets() {
    assert_eq!(header_octets(ApduHeader::UnconfirmedReq { service: 0 }), vec![0x10, 0x00]);
    assert_eq!(header_octets(ApduHeader::UnconfirmedReq { service: 8 }), vec![0x10, 0x08]);
}

#[test]
fn confirmed_request_octets() {
    assert_eq!(
        header_octets(ApduHeader::ConfirmedReq {
            pdu_flags: 0,
            max_segments: 0,
            max_apdu: 0,
            invoke_id: 7,
            service: 12
        }),
        vec![0x00, 0x00, 0x07, 0x0c]
    );
    assert_eq!(
        header_octets(ApduHeader::ConfirmedReq {
            pdu_flags: 0x2,
            max_segments: 0x7,
            max_apdu: 0x5,
            invoke_id: 0xff,
            service: 15
        }),
        vec![0x02, 0x75, 0xff, 0x0f]
    );
}

#[test]
fn simple_ack_octets() {
    assert_eq!(header_octets(ApduHeader::SimpleAck { invoke_id: 3, service: 15 }), vec![0x20, 0x03, 0x0f]);
}

#[test]
fn write_appends_to_what_the_buffer_holds() {
    let mut buf = vec![1, 2, 3];
    write_apdu_header(&mut buf, &ApduHeader::UnconfirmedReq { service: 8 });
    assert_eq!(buf, vec![1, 2, 3, 0x10, 0x08]);
}

#[test]
fn header_cycle_of_representative_values() {
    let headers = [
        ApduHeader::UnconfirmedReq { service: 0 },
        ApduHeader::ConfirmedReq {
            pdu_flags: 0,
            max_segments: 0,
            max_apdu: 0,
            invoke_id: 7,
            service: 12,
        },
        ApduHeader::ConfirmedReq {
            pdu_flags: 15,
            max_segments: 7,
            max_apdu: 15,
            invoke_id: 255,
            service: 255,
        },
        ApduHeader::SimpleAck { invoke_id: 200, service: 5 },
        ApduHeader::UnconfirmedReq { service: 255 },
    ];
    for header in headers {
        let octets = header_octets(header);
        assert_eq!(read_apdu_header(&octets), Ok((header, octets.len())));
    }
}

#[test]
fn read_leaves_the_service_data() {
    assert_eq!(
        read_apdu_header(&[0x10, 0x08, 0x09, 0x01, 0x1a, 0xc3, 0x50]),
        Ok((ApduHeader::UnconfirmedReq { service: 8 }, 2))
    );
    assert_eq!(
        read_apdu_header(&[0x00, 0x05, 0x01, 0x0c, 0xde, 0xad]),
        Ok((
            ApduHeader::ConfirmedReq {
                pdu_flags: 0,
                max_segments: 0,
                max_apdu: 5,
                invoke_id: 1,
                service: 12
            },
            4
        ))
    );
}

#[test]
fn read_of_empty_buffer() {
    assert_eq!(read_apdu_header(&[]), Err(HeaderError::Truncated));
}

#[test]
fn read_of_short_buffers() {
    assert_eq!(read_apdu_header(&[0x00, 0x05, 0x01]), Err(HeaderError::Truncated));
    assert_eq!(read_apdu_header(&[0x00]), Err(HeaderError::Truncated));
    assert_eq!(read_apdu_header(&[0x10]), Err(HeaderError::Truncated));
    assert_eq!(read_apdu_header(&[0x20, 0x01]), Err(HeaderError::Truncated));
}

#[test]
fn read_of_unknown_type_codes() {
    assert_eq!(read_apdu_header(&[0x30, 0, 0, 0]), Err(HeaderError::UnknownPduType(3)));
    assert_eq!(read_apdu_header(&[0x7f]), Err(HeaderError::UnknownPduType(7)));
    assert_eq!(read_apdu_header(&[0xff, 0, 0, 0, 0]), Err(HeaderError::UnknownPduType(15)));
}

#[test]
fn read_passes_over_reserved_bits() {
    assert_eq!(read_apdu_header(&[0x1f, 0x08]), Ok((ApduHeader::UnconfirmedReq { service: 8 }, 2)));
    assert_eq!(
        read_apdu_header(&[0x04, 0xf5, 0x01, 0x0c]),
        Ok((
            ApduHeader::ConfirmedReq {
                pdu_flags: 4,
                max_segments: 7,
                max_apdu: 5,
                invoke_id: 1,
                service: 12
            },
            4
        ))
    );
}

#[test]
fn validity_of_headers() {
    assert!(ApduHeader::UnconfirmedReq { service: 255 }.is_valid());
    assert!(ApduHeader::SimpleAck { invoke_id: 255, service: 255 }.is_valid());
    assert!(!ApduHeader::ConfirmedReq {
        pdu_flags: 16,
        max_segments: 0,
        max_apdu: 0,
        invoke_id: 0,
        service: 0
    }
    .is_valid());
    assert!(!ApduHeader::ConfirmedReq {
        pdu_flags: 0,
        max_segments: 8,
        max_apdu: 0,
        invoke_id: 0,
        service: 0
    }
    .is_valid());
    assert!(!ApduHeader::ConfirmedReq {
        pdu_flags: 0,
        max_segments: 0,
        max_apdu: 16,
        invoke_id: 0,
        service: 0
    }
    .is_valid());
}

#[test]
fn only_confirmed_requests_expect_a_reply() {
    assert!(ApduHeader::ConfirmedReq {
        pdu_flags: 0,
        max_segments: 0,
        max_apdu: 0,
        invoke_id: 7,
        service: 12
    }
    .expects_reply());
    assert!(!ApduHeader::UnconfirmedReq { service: 0 }.expects_reply());
    assert!(!ApduHeader::SimpleAck { invoke_id: 7, service: 12 }.expects_reply());
}
