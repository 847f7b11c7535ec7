//! What a reader must know of a message to read its context-tagged values:
//! for each context number, whether the value is primitive, and then of which
//! type, or a nested sequence, and then with which fields.

use crate::ast::{Context, ValueModel};
use crate::encoding::primitive::{kind_of, PrimitiveKind};
use vstd::prelude::*;

verus! {

/// The fields of a sequence.
pub type Schema = Vec<Field>;

/// What stands under a context number.
#[derive(Debug, PartialEq, Eq)]
pub enum FieldKind {
    /// A primitive value of this type.
    Primitive(PrimitiveKind),
    /// A nested sequence with these fields.
    Sequence(Schema),
}

/// One field of a sequence: a context number and what stands under it.
#[derive(Debug, PartialEq, Eq)]
pub struct Field {
    pub context: Context,
    pub kind: FieldKind,
}

/// What a [`FieldKind`] stands for.
pub enum FieldKindModel {
    Primitive(PrimitiveKind),
    Sequence(Seq<FieldModel>),
}

/// What a [`Field`] stands for.
pub struct FieldModel {
    pub context: Context,
    pub kind: FieldKindModel,
}

/// What a field kind stands for.
pub open spec fn field_kind_model(kind: FieldKind) -> FieldKindModel
    decreases kind,
{
    match kind {
        FieldKind::Primitive(kind) => FieldKindModel::Primitive(kind),
        FieldKind::Sequence(fields) => FieldKindModel::Sequence(schema_model(fields@)),
    }
}

/// What the fields of a schema stand for, in order.
pub open spec fn schema_model(fields: Seq<Field>) -> Seq<FieldModel>
    decreases fields,
{
    Seq::new(
        fields.len(),
        |i: int|
            if 0 <= i < fields.len() {
                FieldModel { context: fields[i].context, kind: field_kind_model(fields[i].kind) }
            } else {
                arbitrary()
            },
    )
}

impl View for FieldKind {
    type V = FieldKindModel;

    open spec fn view(&self) -> FieldKindModel {
        field_kind_model(*self)
    }
}

impl View for Field {
    type V = FieldModel;

    open spec fn view(&self) -> FieldModel {
        FieldModel { context: self.context, kind: self.kind@ }
    }
}

/// What stands under `context` in a schema: the kind of the first field with
/// that number.
pub open spec fn first_field(schema: Seq<FieldModel>, context: Context) -> Option<FieldKindModel>
    decreases schema.len(),
{
    if schema.len() == 0 {
        None
    } else if schema[0].context == context {
        Some(schema[0].kind)
    } else {
        first_field(schema.skip(1), context)
    }
}

/// Whether a value is one that the schema describes: a context-tagged
/// primitive has the type that the schema gives its number, and a nested
/// sequence stands under a number that the schema gives to a sequence, and
/// holds values that the fields of that sequence describe. An
/// application-tagged value carries its own type and is always described.
pub open spec fn value_fits(v: ValueModel, schema: Seq<FieldModel>) -> bool
    decreases v,
{
    match v {
        ValueModel::ApplicationValue(_) => true,
        ValueModel::ContextValue(c, p) => first_field(schema, c) == Some(
            FieldKindModel::Primitive(kind_of(p)),
        ),
        ValueModel::ContextValueSequence(c, items) => first_field(schema, c) matches Some(
            FieldKindModel::Sequence(fields),
        ) && sequence_fits(items, fields),
    }
}

/// Whether every value of a sequence is one that the schema describes.
pub open spec fn sequence_fits(items: Seq<ValueModel>, schema: Seq<FieldModel>) -> bool
    decreases items,
{
    forall|i: int| 0 <= i < items.len() ==> value_fits(#[trigger] items[i], schema)
}

/// Looks up what stands under `context` in a schema.
pub fn find_field(schema: &Schema, context: Context) -> (found: Option<&FieldKind>)
    ensures
        match found {
            Some(kind) => first_field(schema_model(schema@), context) == Some(kind@),
            None => first_field(schema_model(schema@), context) is None,
        },
{
    let ghost model = schema_model(schema@);
    let mut i: usize = 0;
    assert(model.skip(0) =~= model);
    while i < schema.len()
        invariant
            i <= schema.len(),
            model == schema_model(schema@),
            first_field(model, context) == first_field(model.skip(i as int), context),
        decreases schema.len() - i,
    {
        proof {
            assert(model.skip(i as int)[0] == schema@[i as int]@);
            assert(model.skip(i as int).skip(1) =~= model.skip(i + 1));
        }
        if schema[i].context == context {
            return Some(&schema[i].kind);
        }
        i += 1;
    }
    None
}

} // verus!
