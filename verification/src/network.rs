//! The network layer: the NPDU that carries an APDU between networks.
//!
//! An NPDU starts with the protocol version and a control octet. Bit 5 of the
//! control octet says that a destination follows, bit 3 that a source follows,
//! bit 2 that the sender expects a reply, and bits 1 and 0 hold the priority.
//! A destination or source is a network number in two octets, the length of
//! the station address in one, and the station address. The hop count, one
//! octet, follows the source if there is a destination. The APDU is the rest.

use crate::apdu::{header_octets, lemma_header_round_trip, parse_header, read_apdu_header};
use crate::ast::ApduHeader;
use crate::bytes::{
    append_bytes, be16, copy_range, from_be16, lemma_be16_canonical, lemma_concat_assoc,
    lemma_skip_concat, push_be16, read_be16,
};
use vstd::prelude::*;

verus! {

/// The version of the protocol that this codec writes and reads.
pub const PROTOCOL_VERSION: u8 = 1;

/// The greatest length of a station address.
pub const MAX_MAC_LEN: usize = 255;

/// How urgent a message is.
#[derive(Debug, Clone, Copy, PartialEq, Eq, Structural)]
pub enum Priority {
    Normal,
    Urgent,
    CriticalEquipment,
    LifeSafety,
}

/// A station on a network: the network's number and the station's address
/// there.
#[derive(Debug, PartialEq, Eq)]
pub struct Address {
    pub network: u16,
    pub mac: Vec<u8>,
}

/// Where a message is to go, and how many routers it may still pass.
#[derive(Debug, PartialEq, Eq)]
pub struct Destination {
    pub address: Address,
    pub hop_count: u8,
}

/// An APDU with what the network layer adds to it.
#[derive(Debug, PartialEq, Eq)]
pub struct NetworkRequest {
    pub destination: Option<Destination>,
    pub source: Option<Address>,
    pub expecting_reply: bool,
    pub priority: Priority,
    pub apdu: Vec<u8>,
}

/// What an [`Address`] stands for.
pub struct AddressModel {
    pub network: u16,
    pub mac: Seq<u8>,
}

/// What a [`Destination`] stands for.
pub struct DestinationModel {
    pub address: AddressModel,
    pub hop_count: u8,
}

/// What a [`NetworkRequest`] stands for.
pub struct NetworkRequestModel {
    pub destination: Option<DestinationModel>,
    pub source: Option<AddressModel>,
    pub expecting_reply: bool,
    pub priority: Priority,
    pub apdu: Seq<u8>,
}

/// Why a packet could not be read as an NPDU that carries an APDU.
#[derive(Debug, Clone, Copy, PartialEq, Eq, Structural)]
pub enum NetworkError {
    /// The packet ends before the end of the NPDU's header.
    Truncated,
    /// The version octet, carried here, is not the version of this codec.
    UnsupportedVersion(u8),
    /// The control octet, carried here, has a reserved bit set or announces a
    /// network-layer message in place of an APDU.
    MalformedControl(u8),
}

impl View for Address {
    type V = AddressModel;

    open spec fn view(&self) -> AddressModel {
        AddressModel { network: self.network, mac: self.mac@ }
    }
}

impl View for Destination {
    type V = DestinationModel;

    open spec fn view(&self) -> DestinationModel {
        DestinationModel { address: self.address@, hop_count: self.hop_count }
    }
}

impl View for NetworkRequest {
    type V = NetworkRequestModel;

    open spec fn view(&self) -> NetworkRequestModel {
        NetworkRequestModel {
            destination: match self.destination {
                Some(d) => Some(d@),
                None => None,
            },
            source: match self.source {
                Some(a) => Some(a@),
                None => None,
            },
            expecting_reply: self.expecting_reply,
            priority: self.priority,
            apdu: self.apdu@,
        }
    }
}

/// The two bits that stand for a priority.
pub open spec fn priority_code(priority: Priority) -> u8 {
    match priority {
        Priority::Normal => 0,
        Priority::Urgent => 1,
        Priority::CriticalEquipment => 2,
        Priority::LifeSafety => 3,
    }
}

/// The priority that two bits stand for.
pub open spec fn priority_from_code(code: u8) -> Priority {
    if code == 0 {
        Priority::Normal
    } else if code == 1 {
        Priority::Urgent
    } else if code == 2 {
        Priority::CriticalEquipment
    } else {
        Priority::LifeSafety
    }
}

/// Whether an APDU is a confirmed request, the one kind of APDU whose sender
/// waits for an answer.
pub open spec fn is_confirmed_request(apdu: Seq<u8>) -> bool {
    parse_header(apdu) matches Ok((header, _)) && header is ConfirmedReq
}

impl AddressModel {
    /// The station address is short enough for its length to be written.
    pub open spec fn wf(self) -> bool {
        self.mac.len() <= MAX_MAC_LEN
    }

    /// The octets of the address.
    pub open spec fn wire_octets(self) -> Seq<u8> {
        be16(self.network) + seq![self.mac.len() as u8] + self.mac
    }
}

/// The octets of an address that may be absent.
pub open spec fn optional_address_octets(address: Option<AddressModel>) -> Seq<u8> {
    match address {
        Some(a) => a.wire_octets(),
        None => Seq::empty(),
    }
}

impl NetworkRequestModel {
    /// Both station addresses are short enough for their length to be written.
    pub open spec fn wf(self) -> bool {
        &&& self.destination matches Some(d) ==> d.address.wf()
        &&& self.source matches Some(a) ==> a.wf()
    }

    /// The destination without its hop count.
    pub open spec fn destination_address(self) -> Option<AddressModel> {
        match self.destination {
            Some(d) => Some(d.address),
            None => None,
        }
    }

    /// The control octet.
    pub open spec fn control(self) -> u8 {
        ((if self.destination is Some {
            32int
        } else {
            0
        }) + (if self.source is Some {
            8int
        } else {
            0
        }) + (if self.expecting_reply {
            4int
        } else {
            0
        }) + priority_code(self.priority)) as u8
    }

    /// The hop count as it stands on the wire: one octet if there is a
    /// destination, nothing if there is none.
    pub open spec fn hop_count_octets(self) -> Seq<u8> {
        match self.destination {
            Some(d) => seq![d.hop_count],
            None => Seq::empty(),
        }
    }

    /// The octets of the NPDU.
    pub open spec fn wire_octets(self) -> Seq<u8> {
        seq![PROTOCOL_VERSION, self.control()] + optional_address_octets(self.destination_address())
            + optional_address_octets(self.source) + self.hop_count_octets() + self.apdu
    }
}

/// Whether a control octet has none of bits 7, 6 and 4 set.
pub open spec fn control_accepted(control: u8) -> bool {
    control < 64 && (control / 16) % 2 == 0
}

/// The address that starts at `at`, if `present`, and the place where it
/// ends; the outer `None` says that the octets end before the address does.
pub open spec fn parse_optional_address(bytes: Seq<u8>, at: int, present: bool) -> Option<
    (Option<AddressModel>, int),
> {
    if !present {
        Some((None, at))
    } else if bytes.len() < at + 3 || bytes.len() < at + 3 + bytes[at + 2] {
        None
    } else {
        Some(
            (
                Some(
                    AddressModel {
                        network: from_be16(bytes[at], bytes[at + 1]),
                        mac: bytes.subrange(at + 3, at + 3 + bytes[at + 2]),
                    },
                ),
                at + 3 + bytes[at + 2],
            ),
        )
    }
}

/// The NPDU that a packet holds, or the reason why it holds none. The version
/// is looked at first, then the control octet, then the fields that the
/// control octet announces.
pub open spec fn parse_npdu(bytes: Seq<u8>) -> Result<NetworkRequestModel, NetworkError> {
    if bytes.len() < 2 {
        Err(NetworkError::Truncated)
    } else if bytes[0] != PROTOCOL_VERSION {
        Err(NetworkError::UnsupportedVersion(bytes[0]))
    } else if !control_accepted(bytes[1]) {
        Err(NetworkError::MalformedControl(bytes[1]))
    } else {
        let control = bytes[1];
        let has_destination = control / 32 == 1;
        let has_source = (control / 8) % 2 == 1;
        match parse_optional_address(bytes, 2, has_destination) {
            None => Err(NetworkError::Truncated),
            Some((destination, after_destination)) => match parse_optional_address(
                bytes,
                after_destination,
                has_source,
            ) {
                None => Err(NetworkError::Truncated),
                Some((source, after_source)) => if has_destination && bytes.len()
                    <= after_source {
                    Err(NetworkError::Truncated)
                } else {
                    Ok(
                        NetworkRequestModel {
                            destination: match destination {
                                Some(address) => Some(
                                    DestinationModel {
                                        address,
                                        hop_count: bytes[after_source],
                                    },
                                ),
                                None => None,
                            },
                            source,
                            expecting_reply: (control / 4) % 2 == 1,
                            priority: priority_from_code(control % 4),
                            apdu: bytes.skip(
                                if has_destination {
                                    after_source + 1
                                } else {
                                    after_source
                                },
                            ),
                        },
                    )
                },
            },
        }
    }
}

/// What an address that may be absent stands for.
pub open spec fn optional_address_model(address: Option<Address>) -> Option<AddressModel> {
    match address {
        Some(a) => Some(a@),
        None => None,
    }
}

impl Priority {
    /// The two bits that stand for the priority.
    pub fn code(&self) -> (code: u8)
        ensures
            code == priority_code(*self),
    {
        match self {
            Priority::Normal => 0,
            Priority::Urgent => 1,
            Priority::CriticalEquipment => 2,
            Priority::LifeSafety => 3,
        }
    }

    /// The priority that the two low bits of `code` stand for.
    pub fn from_code(code: u8) -> (priority: Priority)
        ensures
            priority == priority_from_code(code % 4),
    {
        let low: u8 = code % 4;
        if low == 0 {
            Priority::Normal
        } else if low == 1 {
            Priority::Urgent
        } else if low == 2 {
            Priority::CriticalEquipment
        } else {
            Priority::LifeSafety
        }
    }
}

impl NetworkRequest {
    /// Wraps an APDU for a station on the local network, at normal priority.
    /// The request expects a reply if and only if the APDU is a confirmed
    /// request.
    pub fn expect_reply(apdu: Vec<u8>) -> (request: NetworkRequest)
        ensures
            request@ == (NetworkRequestModel {
                destination: None,
                source: None,
                expecting_reply: is_confirmed_request(apdu@),
                priority: Priority::Normal,
                apdu: apdu@,
            }),
            request@.wf(),
    {
        let expecting_reply = match read_apdu_header(apdu.as_slice()) {
            Ok((header, _)) => header.expects_reply(),
            Err(_) => false,
        };
        NetworkRequest {
            destination: None,
            source: None,
            expecting_reply,
            priority: Priority::Normal,
            apdu,
        }
    }

    /// Whether both station addresses are short enough to be written.
    pub fn is_valid(&self) -> (b: bool)
        ensures
            b == self@.wf(),
    {
        let destination_fits = match &self.destination {
            Some(d) => d.address.mac.len() <= MAX_MAC_LEN,
            None => true,
        };
        let source_fits = match &self.source {
            Some(a) => a.mac.len() <= MAX_MAC_LEN,
            None => true,
        };
        destination_fits && source_fits
    }
}

fn write_address(buf: &mut Vec<u8>, address: &Address)
    requires
        address@.wf(),
    ensures
        final(buf)@ == old(buf)@ + address@.wire_octets(),
{
    push_be16(buf, address.network);
    buf.push(address.mac.len() as u8);
    append_bytes(buf, address.mac.as_slice());
    assert(buf@ =~= old(buf)@ + address@.wire_octets());
}

/// Appends the octets of the NPDU of `request` to `buf`.
pub fn encode(request: &NetworkRequest, buf: &mut Vec<u8>)
    requires
        request@.wf(),
    ensures
        final(buf)@ == old(buf)@ + request@.wire_octets(),
{
    let mut control: u8 = request.priority.code();
    if request.expecting_reply {
        control = control + 4;
    }
    if request.source.is_some() {
        control = control + 8;
    }
    if request.destination.is_some() {
        control = control + 32;
    }
    buf.push(PROTOCOL_VERSION);
    buf.push(control);
    let ghost mut written = seq![PROTOCOL_VERSION, control];
    assert(control == request@.control());
    assert(buf@ =~= old(buf)@ + written);
    match &request.destination {
        Some(d) => {
            write_address(buf, &d.address);
        },
        None => {},
    }
    proof {
        let piece = optional_address_octets(request@.destination_address());
        lemma_concat_assoc(old(buf)@, written, piece);
        written = written + piece;
    }
    match &request.source {
        Some(a) => {
            write_address(buf, a);
        },
        None => {},
    }
    proof {
        let piece = optional_address_octets(request@.source);
        lemma_concat_assoc(old(buf)@, written, piece);
        written = written + piece;
    }
    match &request.destination {
        Some(d) => {
            buf.push(d.hop_count);
            assert(buf@ =~= old(buf)@ + written + seq![d.hop_count]);
        },
        None => {},
    }
    proof {
        let piece = request@.hop_count_octets();
        lemma_concat_assoc(old(buf)@, written, piece);
        written = written + piece;
    }
    append_bytes(buf, request.apdu.as_slice());
    proof {
        lemma_concat_assoc(old(buf)@, written, request.apdu@);
    }
}

fn read_optional_address(bytes: &[u8], at: usize, present: bool) -> (r: Option<
    (Option<Address>, usize),
>)
    requires
        at <= bytes@.len(),
    ensures
        match r {
            Some((address, next)) => parse_optional_address(bytes@, at as int, present) == Some(
                (optional_address_model(address), next as int),
            ) && at <= next <= bytes@.len(),
            None => parse_optional_address(bytes@, at as int, present) is None,
        },
{
    if !present {
        return Some((None, at));
    }
    if bytes.len() - at < 3 {
        return None;
    }
    let mac_len: usize = bytes[at + 2] as usize;
    if bytes.len() - at - 3 < mac_len {
        return None;
    }
    let network: u16 = read_be16(bytes, at);
    let mac = copy_range(bytes, at + 3, at + 3 + mac_len);
    Some((Some(Address { network, mac }), at + 3 + mac_len))
}

/// Reads a packet as an NPDU that carries an APDU.
pub fn decode(bytes: &[u8]) -> (r: Result<NetworkRequest, NetworkError>)
    ensures
        match r {
            Ok(request) => parse_npdu(bytes@) == Ok::<NetworkRequestModel, NetworkError>(request@),
            Err(e) => parse_npdu(bytes@) == Err::<NetworkRequestModel, NetworkError>(e),
        },
        r matches Ok(request) ==> request@.wf() && request@.wire_octets() == bytes@,
{
    proof {
        lemma_npdu_canonical(bytes@);
    }
    if bytes.len() < 2 {
        return Err(NetworkError::Truncated);
    }
    if bytes[0] != PROTOCOL_VERSION {
        return Err(NetworkError::UnsupportedVersion(bytes[0]));
    }
    let control: u8 = bytes[1];
    if control >= 64 || (control / 16) % 2 != 0 {
        return Err(NetworkError::MalformedControl(control));
    }
    let has_destination = control / 32 == 1;
    let has_source = (control / 8) % 2 == 1;
    let (destination_address, after_destination) = match read_optional_address(
        bytes,
        2,
        has_destination,
    ) {
        Some(found) => found,
        None => {
            return Err(NetworkError::Truncated);
        },
    };
    let (source, after_source) = match read_optional_address(bytes, after_destination, has_source) {
        Some(found) => found,
        None => {
            return Err(NetworkError::Truncated);
        },
    };
    let (destination, apdu_start) = match destination_address {
        Some(address) => {
            if bytes.len() <= after_source {
                return Err(NetworkError::Truncated);
            }
            (Some(Destination { address, hop_count: bytes[after_source] }), after_source + 1)
        },
        None => (None, after_source),
    };
    let apdu = copy_range(bytes, apdu_start, bytes.len());
    Ok(
        NetworkRequest {
            destination,
            source,
            expecting_reply: (control / 4) % 2 == 1,
            priority: Priority::from_code(control),
            apdu,
        },
    )
}

/// An APDU that starts with the octets of a header is a confirmed request if
/// and only if the header is one.
pub proof fn lemma_confirmed_request_by_header(header: ApduHeader, rest: Seq<u8>)
    requires
        header.wf(),
    ensures
        is_confirmed_request(header_octets(header) + rest) == (header is ConfirmedReq),
{
    lemma_header_round_trip(header, rest);
}

/// An address that is announced and written at `at` is read back from there.
pub proof fn lemma_address_round_trip(
    before: Seq<u8>,
    address: Option<AddressModel>,
    after: Seq<u8>,
)
    requires
        address matches Some(a) ==> a.wf(),
    ensures
        parse_optional_address(
            before + optional_address_octets(address) + after,
            before.len() as int,
            address is Some,
        ) == Some((address, (before.len() + optional_address_octets(address).len()) as int)),
{
    let bytes = before + optional_address_octets(address) + after;
    let at = before.len() as int;
    match address {
        Some(a) => {
            let w = a.wire_octets();
            assert(w.len() == 3 + a.mac.len());
            assert(bytes[at] == w[0]);
            assert(bytes[at + 1] == w[1]);
            assert(bytes[at + 2] == w[2]);
            assert(bytes.subrange(at + 3, at + 3 + a.mac.len()) =~= a.mac);
        },
        None => {},
    }
}

/// The control octet of a request tells what the request holds.
pub proof fn lemma_control_round_trip(request: NetworkRequestModel)
    ensures
        control_accepted(request.control()),
        (request.control() / 32 == 1) == (request.destination is Some),
        ((request.control() / 8) % 2 == 1) == (request.source is Some),
        ((request.control() / 4) % 2 == 1) == request.expecting_reply,
        priority_from_code(request.control() % 4) == request.priority,
{
}

/// A packet whose parts are those of a request reads as the request.
proof fn lemma_npdu_of_parts(
    bytes: Seq<u8>,
    request: NetworkRequestModel,
    after_destination: int,
    after_source: int,
)
    requires
        bytes.len() >= 2,
        bytes[0] == PROTOCOL_VERSION,
        bytes[1] == request.control(),
        parse_optional_address(bytes, 2, request.destination is Some) == Some(
            (request.destination_address(), after_destination),
        ),
        parse_optional_address(bytes, after_destination, request.source is Some) == Some(
            (request.source, after_source),
        ),
        request.destination matches Some(d) ==> after_source < bytes.len() && bytes[after_source]
            == d.hop_count,
        bytes.skip(after_source + request.hop_count_octets().len()) == request.apdu,
    ensures
        parse_npdu(bytes) == Ok::<NetworkRequestModel, NetworkError>(request),
{
    lemma_control_round_trip(request);
    match parse_npdu(bytes) {
        Ok(parsed) => {
            assert(parsed.destination == request.destination);
            assert(parsed.source == request.source);
            assert(parsed.apdu == request.apdu);
        },
        Err(_) => {},
    }
}

/// Reading what was written gives the request back.
pub proof fn lemma_npdu_round_trip(request: NetworkRequestModel)
    requires
        request.wf(),
    ensures
        parse_npdu(request.wire_octets()) == Ok::<NetworkRequestModel, NetworkError>(request),
{
    let bytes = request.wire_octets();
    let head = seq![PROTOCOL_VERSION, request.control()];
    let d = optional_address_octets(request.destination_address());
    let s = optional_address_octets(request.source);
    let h = request.hop_count_octets();
    let after_destination = (2 + d.len()) as int;
    let after_source = (2 + d.len() + s.len()) as int;
    assert(bytes.len() >= 2 && bytes[0] == PROTOCOL_VERSION && bytes[1] == request.control());
    assert(parse_optional_address(bytes, 2, request.destination is Some) == Some(
        (request.destination_address(), after_destination),
    )) by {
        assert(bytes =~= head + d + (s + h + request.apdu));
        lemma_address_round_trip(head, request.destination_address(), s + h + request.apdu);
    }
    assert(parse_optional_address(bytes, after_destination, request.source is Some) == Some(
        (request.source, after_source),
    )) by {
        assert(bytes =~= (head + d) + s + (h + request.apdu));
        lemma_address_round_trip(head + d, request.source, h + request.apdu);
    }
    assert(bytes.skip(after_source + h.len()) == request.apdu) by {
        lemma_skip_concat(head + d + s + h, request.apdu);
    }
    assert(request.destination matches Some(dest) ==> after_source < bytes.len()
        && bytes[after_source] == dest.hop_count) by {
        if request.destination is Some {
            assert(bytes[after_source] == h[0]);
        }
    }
    lemma_npdu_of_parts(bytes, request, after_destination, after_source);
}

/// An address that was read is well formed, and its octets are the octets
/// that it was read from.
pub proof fn lemma_address_canonical(bytes: Seq<u8>, at: int, present: bool)
    requires
        0 <= at <= bytes.len(),
    ensures
        parse_optional_address(bytes, at, present) matches Some((address, next)) ==> at <= next
            <= bytes.len() && (address is Some) == present && (address matches Some(a)
            ==> a.wf()) && optional_address_octets(address) == bytes.subrange(at, next),
{
    if let Some((address, next)) = parse_optional_address(bytes, at, present) {
        match address {
            Some(a) => {
                lemma_be16_canonical(bytes[at], bytes[at + 1]);
                assert(a.wire_octets() =~= bytes.subrange(at, next));
            },
            None => {
                assert(optional_address_octets(address) =~= bytes.subrange(at, next));
            },
        }
    }
}

/// The control octet of what an accepted control octet says is that octet.
proof fn lemma_control_canonical(control: u8, request: NetworkRequestModel)
    requires
        control_accepted(control),
        (request.destination is Some) == (control / 32 == 1),
        (request.source is Some) == ((control / 8) % 2 == 1),
        request.expecting_reply == ((control / 4) % 2 == 1),
        request.priority == priority_from_code(control % 4),
    ensures
        request.control() == control,
{
}

/// A packet that reads as a request is exactly what writing that request
/// gives: no two packets stand for the same request.
pub proof fn lemma_npdu_canonical(bytes: Seq<u8>)
    ensures
        parse_npdu(bytes) matches Ok(request) ==> request.wf() && request.wire_octets() == bytes,
{
    if let Ok(request) = parse_npdu(bytes) {
        let control = bytes[1];
        lemma_address_canonical(bytes, 2, control / 32 == 1);
        let (destination, after_destination) = parse_optional_address(
            bytes,
            2,
            control / 32 == 1,
        )->Some_0;
        lemma_address_canonical(bytes, after_destination, (control / 8) % 2 == 1);
        let (source, after_source) = parse_optional_address(
            bytes,
            after_destination,
            (control / 8) % 2 == 1,
        )->Some_0;
        let apdu_start = after_source + request.hop_count_octets().len();
        lemma_control_canonical(control, request);
        let head = seq![PROTOCOL_VERSION, request.control()];
        assert(head =~= bytes.subrange(0, 2));
        assert(request.destination_address() == destination);
        assert(request.hop_count_octets() =~= bytes.subrange(after_source, apdu_start));
        assert(request.apdu == bytes.skip(apdu_start));
        lemma_pieces(bytes, 2, after_destination, after_source, apdu_start);
    }
}

/// Octets are their consecutive pieces put together.
proof fn lemma_pieces(bytes: Seq<u8>, a: int, b: int, c: int, d: int)
    requires
        0 <= a <= b <= c <= d <= bytes.len(),
    ensures
        bytes.subrange(0, a) + bytes.subrange(a, b) + bytes.subrange(b, c) + bytes.subrange(c, d)
            + bytes.skip(d) == bytes,
{
    assert(bytes.subrange(0, a) + bytes.subrange(a, b) + bytes.subrange(b, c) + bytes.subrange(
        c,
        d,
    ) + bytes.skip(d) =~= bytes);
}

} // verus!
