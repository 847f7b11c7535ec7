//! Messages sent to and from services, and their conversion to and from
//! value sequences and octets.

use crate::ast::{sequence_model, ValueModel, ValueSequence};
use crate::encoding::schema::{schema_model, sequence_fits, FieldModel, Schema};
use crate::encoding::value::{
    decode_value_sequence, sequence_octets, encode_value_sequence, lemma_sequence_round_trip,
    parse_sequence, sequence_encodable,
};
use crate::encoding::DecodeError;
use vstd::prelude::*;

pub mod whois;

verus! {

/// Why a value sequence could not be read as a service message.
#[derive(Debug, Clone, Copy, PartialEq, Eq, Structural)]
pub enum UnmarshallError {
    /// A mandatory context value is missing or holds another primitive type.
    RequiredValueNotProvided,
}

/// Why octets could not be read as a service message.
#[derive(Debug, Clone, Copy, PartialEq, Eq, Structural)]
pub enum ServiceError {
    /// The octets are no value sequence of the service's schema.
    Decode(DecodeError),
    /// The value sequence is no message of the service.
    Unmarshall(UnmarshallError),
}

/// A typed record of one service that converts to and from a value sequence.
///
/// Each service owns its mapping from fields to context numbers. An
/// implementation states both conversions as functions of the value trees,
/// names the fields that a reader of its octets must know, and proves that
/// reading back what it wrote gives the record again.
pub trait ServiceMessage: Sized {
    /// What the service asks of a record for it to be sent.
    spec fn valid(&self) -> bool;

    /// The value sequence that stands for the record.
    spec fn spec_marshall(&self) -> Seq<ValueModel>;

    /// The record that a value sequence stands for, if it stands for one.
    spec fn spec_unmarshall(body: Seq<ValueModel>) -> Result<Self, UnmarshallError>;

    /// The fields of the service's value sequences.
    spec fn spec_schema() -> Seq<FieldModel>;

    /// Unmarshalling a marshalled record gives the record back.
    proof fn lemma_round_trip(&self)
        requires
            self.valid(),
        ensures
            Self::spec_unmarshall(self.spec_marshall()) == Ok::<Self, UnmarshallError>(*self),
    ;

    /// The value sequence of a record can be written, and the service's schema
    /// describes it.
    proof fn lemma_marshall_described(&self)
        requires
            self.valid(),
        ensures
            sequence_encodable(self.spec_marshall()),
            sequence_fits(self.spec_marshall(), Self::spec_schema()),
    ;

    /// Whether the record can be sent.
    fn is_valid(&self) -> (b: bool)
        ensures
            b == self.valid(),
    ;

    /// Reads a value sequence as a record of the service.
    fn unmarshall(body: &ValueSequence) -> (r: Result<Self, UnmarshallError>)
        ensures
            r == Self::spec_unmarshall(sequence_model(body@)),
    ;

    /// The value sequence that stands for the record.
    fn marshall(&self) -> (body: ValueSequence)
        ensures
            sequence_model(body@) == self.spec_marshall(),
    ;

    /// The fields of the service's value sequences.
    fn schema() -> (schema: Schema)
        ensures
            schema_model(schema@) == Self::spec_schema(),
    ;
}

/// The octets of a message: those of its value sequence.
pub open spec fn message_octets<M: ServiceMessage>(message: M) -> Seq<u8> {
    sequence_octets(message.spec_marshall())
}

/// The message of the service `M` that `bytes` stand for, or the reason why
/// they stand for none.
pub open spec fn parse_message<M: ServiceMessage>(bytes: Seq<u8>) -> Result<M, ServiceError> {
    match parse_sequence(bytes, M::spec_schema()) {
        Err(e) => Err(ServiceError::Decode(e)),
        Ok(body) => match M::spec_unmarshall(body) {
            Ok(message) => Ok(message),
            Err(e) => Err(ServiceError::Unmarshall(e)),
        },
    }
}

/// Appends the octets of `message` to `buf`.
pub fn encode_message<M: ServiceMessage>(message: &M, buf: &mut Vec<u8>)
    requires
        message.valid(),
    ensures
        final(buf)@ == old(buf)@ + message_octets(*message),
{
    let body = message.marshall();
    proof {
        message.lemma_marshall_described();
    }
    encode_value_sequence(&body, buf);
}

/// Reads `bytes` as a message of the service `M`.
pub fn decode_message<M: ServiceMessage>(bytes: &[u8]) -> (r: Result<M, ServiceError>)
    ensures
        r == parse_message::<M>(bytes@),
{
    let schema = M::schema();
    match decode_value_sequence(bytes, &schema) {
        Err(e) => Err(ServiceError::Decode(e)),
        Ok(body) => match M::unmarshall(&body) {
            Ok(message) => Ok(message),
            Err(e) => Err(ServiceError::Unmarshall(e)),
        },
    }
}

/// Reading the octets of a message gives the message back.
pub proof fn lemma_message_round_trip<M: ServiceMessage>(message: M)
    requires
        message.valid(),
    ensures
        parse_message::<M>(message_octets(message)) == Ok::<M, ServiceError>(message),
{
    message.lemma_marshall_described();
    message.lemma_round_trip();
    lemma_sequence_round_trip(message.spec_marshall(), M::spec_schema());
}

} // verus!
