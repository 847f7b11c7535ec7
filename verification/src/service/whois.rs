//! The Who-Is service: a request that the devices whose instance number lies
//! in a range identify themselves.

use crate::ast::{
    find_context_value, first_context_value, is_context_value, lemma_first_context_value,
    sequence_model, PrimitiveModel, PrimitiveValue, SequenceableValue, ValueModel, ValueSequence,
};
use crate::encoding::primitive::{lemma_short_content, PrimitiveKind};
use crate::encoding::schema::{
    first_field, schema_model, Field, FieldKind, FieldKindModel, FieldModel, Schema,
};
use crate::service::{ServiceMessage, UnmarshallError};
use vstd::prelude::*;

verus! {

/// The service choice of Who-Is among the unconfirmed services.
pub const SERVICE_CHOICE: u8 = 8;

/// The context number of the low limit of the range.
pub const LOW_LIMIT_CONTEXT: u8 = 0;

/// The context number of the high limit of the range.
pub const HIGH_LIMIT_CONTEXT: u8 = 1;

/// A Who-Is request for the devices from `device_instance_low` to
/// `device_instance_high`.
#[derive(Debug, Clone, Copy, PartialEq, Eq, Structural)]
pub struct Message {
    pub device_instance_low: u32,
    pub device_instance_high: u32,
}

impl ServiceMessage for Message {
    /// Every record can be sent.
    open spec fn valid(&self) -> bool {
        true
    }

    open spec fn spec_schema() -> Seq<FieldModel> {
        seq![
            FieldModel {
                context: LOW_LIMIT_CONTEXT,
                kind: FieldKindModel::Primitive(PrimitiveKind::Unsigned),
            },
            FieldModel {
                context: HIGH_LIMIT_CONTEXT,
                kind: FieldKindModel::Primitive(PrimitiveKind::Unsigned),
            },
        ]
    }

    open spec fn spec_marshall(&self) -> Seq<ValueModel> {
        seq![
            ValueModel::ContextValue(
                LOW_LIMIT_CONTEXT,
                PrimitiveModel::Unsigned(self.device_instance_low),
            ),
            ValueModel::ContextValue(
                HIGH_LIMIT_CONTEXT,
                PrimitiveModel::Unsigned(self.device_instance_high),
            ),
        ]
    }

    open spec fn spec_unmarshall(body: Seq<ValueModel>) -> Result<Self, UnmarshallError> {
        match (
            first_context_value(body, LOW_LIMIT_CONTEXT),
            first_context_value(body, HIGH_LIMIT_CONTEXT),
        ) {
            (Some(PrimitiveModel::Unsigned(low)), Some(PrimitiveModel::Unsigned(high))) => Ok(
                Message { device_instance_low: low, device_instance_high: high },
            ),
            _ => Err(UnmarshallError::RequiredValueNotProvided),
        }
    }

    proof fn lemma_round_trip(&self) {
        let body = self.spec_marshall();
        reveal_with_fuel(first_context_value, 3);
        assert(body.skip(1)[0] == body[1]);
    }

    proof fn lemma_marshall_described(&self) {
        let schema = Self::spec_schema();
        reveal_with_fuel(first_field, 3);
        assert(schema.skip(1)[0] == schema[1]);
        lemma_short_content(PrimitiveModel::Unsigned(self.device_instance_low));
        lemma_short_content(PrimitiveModel::Unsigned(self.device_instance_high));
    }

    fn is_valid(&self) -> (b: bool) {
        true
    }

    fn schema() -> (schema: Schema) {
        let mut schema: Schema = Vec::new();
        schema.push(
            Field { context: LOW_LIMIT_CONTEXT, kind: FieldKind::Primitive(PrimitiveKind::Unsigned) },
        );
        schema.push(
            Field {
                context: HIGH_LIMIT_CONTEXT,
                kind: FieldKind::Primitive(PrimitiveKind::Unsigned),
            },
        );
        assert(schema_model(schema@) =~= Self::spec_schema());
        schema
    }

    fn unmarshall(body: &ValueSequence) -> (r: Result<Self, UnmarshallError>) {
        match (
            find_context_value(body, LOW_LIMIT_CONTEXT),
            find_context_value(body, HIGH_LIMIT_CONTEXT),
        ) {
            (Some(PrimitiveValue::Unsigned(low)), Some(PrimitiveValue::Unsigned(high))) => Ok(
                Message { device_instance_low: *low, device_instance_high: *high },
            ),
            _ => Err(UnmarshallError::RequiredValueNotProvided),
        }
    }

    fn marshall(&self) -> (body: ValueSequence) {
        let mut body: ValueSequence = Vec::new();
        body.push(
            SequenceableValue::ContextValue(
                LOW_LIMIT_CONTEXT,
                PrimitiveValue::Unsigned(self.device_instance_low),
            ),
        );
        body.push(
            SequenceableValue::ContextValue(
                HIGH_LIMIT_CONTEXT,
                PrimitiveValue::Unsigned(self.device_instance_high),
            ),
        );
        assert(sequence_model(body@) =~= self.spec_marshall());
        body
    }
}

/// A value sequence is read as a request if and only if the first value under
/// each of the two context numbers is an unsigned number. Where one of the
/// numbers is missing among the context-tagged primitives of the sequence, or
/// the first value under it has another type, the sequence is refused.
pub proof fn lemma_unmarshall_needs_both_limits(body: Seq<ValueModel>)
    ensures
        Message::spec_unmarshall(body) is Ok <==> (first_context_value(body, LOW_LIMIT_CONTEXT)
            matches Some(PrimitiveModel::Unsigned(_))) && (first_context_value(
            body,
            HIGH_LIMIT_CONTEXT,
        ) matches Some(PrimitiveModel::Unsigned(_))),
        Message::spec_unmarshall(body) matches Err(e) ==> e
            == UnmarshallError::RequiredValueNotProvided,
        (forall|i: int|
            0 <= i < body.len() ==> !is_context_value(#[trigger] body[i], LOW_LIMIT_CONTEXT))
            ==> Message::spec_unmarshall(body) is Err,
        (forall|i: int|
            0 <= i < body.len() ==> !is_context_value(#[trigger] body[i], HIGH_LIMIT_CONTEXT))
            ==> Message::spec_unmarshall(body) is Err,
{
    lemma_first_context_value(body, LOW_LIMIT_CONTEXT);
    lemma_first_context_value(body, HIGH_LIMIT_CONTEXT);
}

} // verus!
