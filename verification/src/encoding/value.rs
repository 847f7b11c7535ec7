//! Value sequences on the wire.

use crate::ast::{
    sequence_model, Context, PrimitiveModel, PrimitiveValue, SequenceableValue, ValueModel,
    ValueSequence,
};
use crate::bytes::{append_bytes, lemma_regroup, lemma_skip_concat};
use crate::encoding::primitive::{
    application_kind, application_tag, content_octets, content_of, encodable, kind_of,
    lemma_content_round_trip, lemma_parsed_content, lemma_short_content, parse_content,
    read_content, PrimitiveKind,
};
use crate::encoding::schema::{
    find_field, first_field, schema_model, sequence_fits, value_fits, FieldKind, FieldKindModel,
    FieldModel, Schema,
};
use crate::encoding::tag::{
    header_octets, lemma_length_round_trip, lemma_tag_round_trip, length_extension, length_lvt,
    parse_length, parse_tag, read_length, read_tag, tag_octets, write_header, write_tag, Tag,
    LVT_CLOSING, LVT_OPENING, MAX_CONTENT_LEN, MAX_TAG_NUMBER,
};
use crate::encoding::DecodeError;
use vstd::prelude::*;

verus! {

/// The tag that opens the nested sequence under a context number.
pub open spec fn opening_tag(context: Context) -> Tag {
    Tag { number: context, context: true, lvt: LVT_OPENING }
}

/// The tag that closes the nested sequence under a context number.
pub open spec fn closing_tag(context: Context) -> Tag {
    Tag { number: context, context: true, lvt: LVT_CLOSING }
}

/// Whether a value can be written: no context number in it is the reserved
/// one, and the content of each primitive value is short enough for its
/// length to be written.
pub open spec fn value_encodable(v: ValueModel) -> bool
    decreases v,
{
    match v {
        ValueModel::ApplicationValue(p) => encodable(p),
        ValueModel::ContextValue(c, p) => c <= MAX_TAG_NUMBER && encodable(p),
        ValueModel::ContextValueSequence(c, items) => c <= MAX_TAG_NUMBER && sequence_encodable(
            items,
        ),
    }
}

/// Whether every value of a sequence can be written.
pub open spec fn sequence_encodable(items: Seq<ValueModel>) -> bool
    decreases items,
{
    forall|i: int| 0 <= i < items.len() ==> value_encodable(#[trigger] items[i])
}

/// The octets of a value.
pub open spec fn value_octets(v: ValueModel) -> Seq<u8>
    decreases v,
{
    match v {
        ValueModel::ApplicationValue(PrimitiveModel::Boolean(b)) => tag_octets(
            Tag {
                number: application_tag(PrimitiveKind::Boolean),
                context: false,
                lvt: if b {
                    1
                } else {
                    0
                },
            },
        ),
        ValueModel::ApplicationValue(p) => header_octets(
            application_tag(kind_of(p)),
            false,
            content_octets(p).len(),
        ) + content_octets(p),
        ValueModel::ContextValue(c, p) => header_octets(c, true, content_octets(p).len())
            + content_octets(p),
        ValueModel::ContextValueSequence(c, items) => tag_octets(opening_tag(c)) + sequence_octets(
            items,
        ) + tag_octets(closing_tag(c)),
    }
}

/// The octets of a sequence: those of its values, one after the other.
pub open spec fn sequence_octets(items: Seq<ValueModel>) -> Seq<u8>
    decreases items,
{
    if items.len() == 0 {
        Seq::empty()
    } else {
        value_octets(items[0]) + sequence_octets(items.skip(1))
    }
}

/// The primitive value of the type `kind` whose length the low bits `lvt` of
/// its tag and the octets `input` after the tag state, and whose content
/// follows the length; with it, the number of octets of `input` that the
/// length and the content take.
pub open spec fn parse_sized_content(kind: PrimitiveKind, lvt: u8, input: Seq<u8>) -> Result<
    (PrimitiveModel, int),
    DecodeError,
> {
    match parse_length(lvt, input) {
        None => Err(DecodeError::Truncated),
        Some((len, n)) => if input.len() < n + len {
            Err(DecodeError::Truncated)
        } else {
            match parse_content(kind, input.subrange(n, n + len)) {
                Ok(p) => Ok((p, n + len)),
                Err(e) => Err(e),
            }
        },
    }
}

/// The primitive value that starts with `tag`, which is neither an opening
/// nor a closing tag, and goes on in `input`; with it, the number of octets
/// of `input` that it takes.
pub open spec fn parse_primitive(tag: Tag, input: Seq<u8>, schema: Seq<FieldModel>) -> Result<
    (ValueModel, int),
    DecodeError,
> {
    if tag.context {
        match first_field(schema, tag.number) {
            Some(FieldKindModel::Primitive(kind)) => match parse_sized_content(
                kind,
                tag.lvt,
                input,
            ) {
                Ok((p, n)) => Ok((ValueModel::ContextValue(tag.number, p), n)),
                Err(e) => Err(e),
            },
            _ => Err(DecodeError::UnexpectedContext(tag.number)),
        }
    } else {
        match application_kind(tag.number) {
            None => Err(DecodeError::UnknownApplicationTag(tag.number)),
            Some(PrimitiveKind::Boolean) => if tag.lvt > 1 {
                Err(DecodeError::InvalidBoolean(tag.lvt))
            } else {
                Ok((ValueModel::ApplicationValue(PrimitiveModel::Boolean(tag.lvt == 1)), 0))
            },
            Some(kind) => match parse_sized_content(kind, tag.lvt, input) {
                Ok((p, n)) => Ok((ValueModel::ApplicationValue(p), n)),
                Err(e) => Err(e),
            },
        }
    }
}

/// The value at the start of `input`, read with the fields of `schema`, and
/// the number of octets that it takes.
pub open spec fn parse_value(input: Seq<u8>, schema: Seq<FieldModel>) -> Result<
    (ValueModel, int),
    DecodeError,
>
    decreases input.len(), 0int,
{
    match parse_tag(input) {
        Err(e) => Err(e),
        Ok((tag, n)) => if tag.lvt >= LVT_OPENING && !tag.context {
            Err(DecodeError::MalformedTag)
        } else if tag.lvt == LVT_CLOSING {
            Err(DecodeError::UnexpectedClosing(tag.number))
        } else if tag.lvt == LVT_OPENING {
            match first_field(schema, tag.number) {
                Some(FieldKindModel::Sequence(fields)) => match parse_items(
                    input.skip(n),
                    fields,
                    Some(tag.number),
                ) {
                    Ok((items, m)) => Ok(
                        (ValueModel::ContextValueSequence(tag.number, items), n + m),
                    ),
                    Err(e) => Err(e),
                },
                _ => Err(DecodeError::UnexpectedContext(tag.number)),
            }
        } else {
            match parse_primitive(tag, input.skip(n), schema) {
                Ok((v, m)) => Ok((v, n + m)),
                Err(e) => Err(e),
            }
        },
    }
}

/// The number of octets of the closing tag with the number `closing`, if
/// `input` starts with that tag.
pub open spec fn parse_closing(input: Seq<u8>, closing: Option<Context>) -> Option<int> {
    match (closing, parse_tag(input)) {
        (Some(c), Ok((tag, n))) => if tag == closing_tag(c) {
            Some(n)
        } else {
            None
        },
        _ => None,
    }
}

/// The values at the start of `input`, read with the fields of `schema`, and
/// the number of octets that they take. With `closing` the values end at the
/// closing tag with that number, which is counted with them; without it they
/// end where the octets end.
///
/// A value takes at least one octet and no more than there are, which
/// [`lemma_parsed_value`] shows, so that the values after it are always read
/// from fewer octets.
pub open spec fn parse_items(
    input: Seq<u8>,
    schema: Seq<FieldModel>,
    closing: Option<Context>,
) -> Result<(Seq<ValueModel>, int), DecodeError>
    decreases input.len(), 1int,
{
    if input.len() == 0 {
        if closing is None {
            Ok((Seq::empty(), 0))
        } else {
            Err(DecodeError::Truncated)
        }
    } else {
        match parse_closing(input, closing) {
            Some(n) => Ok((Seq::empty(), n)),
            None => match parse_value(input, schema) {
                Err(e) => Err(e),
                Ok((v, n)) => if 0 < n <= input.len() {
                    match parse_items(input.skip(n), schema, closing) {
                        Ok((rest, m)) => Ok((seq![v] + rest, n + m)),
                        Err(e) => Err(e),
                    }
                } else {
                    Err(DecodeError::Truncated)
                },
            },
        }
    }
}

/// The value sequence that `bytes` stand for, read with the fields of
/// `schema`, or the reason why they stand for none.
pub open spec fn parse_sequence(bytes: Seq<u8>, schema: Seq<FieldModel>) -> Result<
    Seq<ValueModel>,
    DecodeError,
> {
    match parse_items(bytes, schema, None) {
        Ok((items, _)) => Ok(items),
        Err(e) => Err(e),
    }
}

impl PrimitiveValue {
    /// Whether the content of the value is short enough for its length to be
    /// written.
    pub fn is_encodable(&self) -> (b: bool)
        ensures
            b == encodable(self@),
    {
        match self {
            PrimitiveValue::CharacterString(s) => {
                let octets = s.as_str().as_bytes();
                assert(content_octets(self@).len() == 1 + octets@.len());
                octets.len() < MAX_CONTENT_LEN
            },
            _ => {
                proof {
                    lemma_short_content(self@);
                }
                true
            },
        }
    }
}

/// Whether a value can be written.
pub fn value_is_encodable(v: &SequenceableValue) -> (b: bool)
    ensures
        b == value_encodable(v@),
    decreases v,
{
    match v {
        SequenceableValue::ApplicationValue(p) => p.is_encodable(),
        SequenceableValue::ContextValue(c, p) => *c <= MAX_TAG_NUMBER && p.is_encodable(),
        SequenceableValue::ContextValueSequence(c, items) => *c <= MAX_TAG_NUMBER && is_encodable(
            items,
        ),
    }
}

/// Whether every value of a sequence can be written.
pub fn is_encodable(items: &ValueSequence) -> (b: bool)
    ensures
        b == sequence_encodable(sequence_model(items@)),
    decreases items,
{
    let ghost model = sequence_model(items@);
    let mut i: usize = 0;
    while i < items.len()
        invariant
            i <= items.len(),
            model == sequence_model(items@),
            forall|j: int| 0 <= j < i ==> value_encodable(#[trigger] model[j]),
        decreases items.len() - i,
    {
        assert(model[i as int] == items@[i as int]@);
        if !value_is_encodable(&items[i]) {
            return false;
        }
        i += 1;
    }
    true
}

/// Appends the octets of a value to `buf`.
pub fn encode_value(v: &SequenceableValue, buf: &mut Vec<u8>)
    requires
        value_encodable(v@),
    ensures
        final(buf)@ == old(buf)@ + value_octets(v@),
    decreases v,
{
    match v {
        SequenceableValue::ApplicationValue(PrimitiveValue::Boolean(b)) => {
            write_tag(
                buf,
                Tag {
                    number: PrimitiveKind::Boolean.tag_number(),
                    context: false,
                    lvt: if *b {
                        1
                    } else {
                        0
                    },
                },
            );
        },
        SequenceableValue::ApplicationValue(p) => {
            let content = content_of(p);
            write_header(buf, p.kind().tag_number(), false, content.len());
            append_bytes(buf, content.as_slice());
            assert(buf@ =~= old(buf)@ + value_octets(v@));
        },
        SequenceableValue::ContextValue(c, p) => {
            let content = content_of(p);
            write_header(buf, *c, true, content.len());
            append_bytes(buf, content.as_slice());
            assert(buf@ =~= old(buf)@ + value_octets(v@));
        },
        SequenceableValue::ContextValueSequence(c, items) => {
            write_tag(buf, Tag { number: *c, context: true, lvt: LVT_OPENING });
            encode_value_sequence(items, buf);
            write_tag(buf, Tag { number: *c, context: true, lvt: LVT_CLOSING });
            assert(buf@ =~= old(buf)@ + value_octets(v@));
        },
    }
}

/// Appends the octets of a value sequence to `buf`.
pub fn encode_value_sequence(items: &ValueSequence, buf: &mut Vec<u8>)
    requires
        sequence_encodable(sequence_model(items@)),
    ensures
        final(buf)@ == old(buf)@ + sequence_octets(sequence_model(items@)),
    decreases items,
{
    let ghost model = sequence_model(items@);
    let mut i: usize = 0;
    assert(model.skip(0) =~= model);
    while i < items.len()
        invariant
            i <= items.len(),
            model == sequence_model(items@),
            sequence_encodable(model),
            buf@ + sequence_octets(model.skip(i as int)) == old(buf)@ + sequence_octets(model),
        decreases items.len() - i,
    {
        proof {
            let rest = model.skip(i as int);
            assert(rest[0] == model[i as int]);
            assert(model[i as int] == items@[i as int]@);
            assert(rest.skip(1) =~= model.skip(i + 1));
        }
        let ghost before = buf@;
        encode_value(&items[i], buf);
        assert(buf@ + sequence_octets(model.skip(i + 1)) =~= before + sequence_octets(
            model.skip(i as int),
        ));
        i += 1;
    }
    assert(buf@ =~= buf@ + sequence_octets(model.skip(i as int)));
}

/// The values `prefix`, read from `offset` octets, put before what was read
/// after them.
spec fn prepend_items(
    prefix: Seq<ValueModel>,
    offset: int,
    read: Result<(Seq<ValueModel>, int), DecodeError>,
) -> Result<(Seq<ValueModel>, int), DecodeError> {
    match read {
        Ok((rest, n)) => Ok((prefix + rest, offset + n)),
        Err(e) => Err(e),
    }
}

/// Values that were read, and then a value and what follows it, are the
/// values with that value, and then what follows it.
proof fn lemma_prepend_step(
    done: Seq<ValueModel>,
    offset: int,
    input: Seq<u8>,
    schema: Seq<FieldModel>,
    closing: Option<Context>,
    v: ValueModel,
    n: int,
)
    requires
        input.len() > 0,
        parse_closing(input, closing) is None,
        parse_value(input, schema) == Ok::<(ValueModel, int), DecodeError>((v, n)),
        0 < n <= input.len(),
    ensures
        prepend_items(done, offset, parse_items(input, schema, closing)) == prepend_items(
            done.push(v),
            offset + n,
            parse_items(input.skip(n), schema, closing),
        ),
{
    match parse_items(input.skip(n), schema, closing) {
        Ok((rest, m)) => {
            assert(done + (seq![v] + rest) =~= done.push(v) + rest);
        },
        Err(_) => {},
    }
}

/// The values of a sequence with one more value stand for the trees of the
/// sequence with the tree of that value.
proof fn lemma_model_push(items: Seq<SequenceableValue>, v: SequenceableValue)
    ensures
        sequence_model(items.push(v)) == sequence_model(items).push(v@),
{
    assert(sequence_model(items.push(v)) =~= sequence_model(items).push(v@));
}

fn decode_sized_content(kind: PrimitiveKind, lvt: u8, bytes: &[u8], at: usize) -> (r: Result<
    (PrimitiveValue, usize),
    DecodeError,
>)
    requires
        at <= bytes@.len(),
    ensures
        match r {
            Ok((p, next)) => parse_sized_content(kind, lvt, bytes@.skip(at as int)) == Ok::<
                (PrimitiveModel, int),
                DecodeError,
            >((p@, next - at)) && at <= next <= bytes@.len(),
            Err(e) => parse_sized_content(kind, lvt, bytes@.skip(at as int)) == Err::<
                (PrimitiveModel, int),
                DecodeError,
            >(e),
        },
{
    let (len, start) = match read_length(bytes, at, lvt) {
        Some(found) => found,
        None => {
            return Err(DecodeError::Truncated);
        },
    };
    if bytes.len() - start < len {
        return Err(DecodeError::Truncated);
    }
    assert(bytes@.skip(at as int).subrange(start - at, start - at + len) =~= bytes@.subrange(
        start as int,
        start + len,
    ));
    match read_content(kind, bytes, start, start + len) {
        Ok(p) => Ok((p, start + len)),
        Err(e) => Err(e),
    }
}

fn decode_primitive(tag: Tag, bytes: &[u8], at: usize, schema: &Schema) -> (r: Result<
    (SequenceableValue, usize),
    DecodeError,
>)
    requires
        at <= bytes@.len(),
    ensures
        match r {
            Ok((v, next)) => parse_primitive(
                tag,
                bytes@.skip(at as int),
                schema_model(schema@),
            ) == Ok::<(ValueModel, int), DecodeError>((v@, next - at)) && at <= next
                <= bytes@.len(),
            Err(e) => parse_primitive(tag, bytes@.skip(at as int), schema_model(schema@)) == Err::<
                (ValueModel, int),
                DecodeError,
            >(e),
        },
{
    if tag.context {
        match find_field(schema, tag.number) {
            Some(FieldKind::Primitive(kind)) => match decode_sized_content(
                *kind,
                tag.lvt,
                bytes,
                at,
            ) {
                Ok((p, next)) => Ok((SequenceableValue::ContextValue(tag.number, p), next)),
                Err(e) => Err(e),
            },
            _ => Err(DecodeError::UnexpectedContext(tag.number)),
        }
    } else {
        match PrimitiveKind::from_tag_number(tag.number) {
            None => Err(DecodeError::UnknownApplicationTag(tag.number)),
            Some(PrimitiveKind::Boolean) => {
                if tag.lvt > 1 {
                    Err(DecodeError::InvalidBoolean(tag.lvt))
                } else {
                    Ok(
                        (
                            SequenceableValue::ApplicationValue(
                                PrimitiveValue::Boolean(tag.lvt == 1),
                            ),
                            at,
                        ),
                    )
                }
            },
            Some(kind) => match decode_sized_content(kind, tag.lvt, bytes, at) {
                Ok((p, next)) => Ok((SequenceableValue::ApplicationValue(p), next)),
                Err(e) => Err(e),
            },
        }
    }
}

fn decode_items(bytes: &[u8], start: usize, schema: &Schema, closing: Option<Context>) -> (r:
    Result<(ValueSequence, usize), DecodeError>)
    requires
        start <= bytes@.len(),
    ensures
        match r {
            Ok((items, next)) => parse_items(
                bytes@.skip(start as int),
                schema_model(schema@),
                closing,
            ) == Ok::<(Seq<ValueModel>, int), DecodeError>((sequence_model(items@), next - start))
                && start <= next <= bytes@.len(),
            Err(e) => parse_items(bytes@.skip(start as int), schema_model(schema@), closing)
                == Err::<(Seq<ValueModel>, int), DecodeError>(e),
        },
    decreases bytes@.len() - start,
{
    let ghost fields = schema_model(schema@);
    let ghost whole = parse_items(bytes@.skip(start as int), fields, closing);
    let mut items: ValueSequence = Vec::new();
    let mut at: usize = start;
    assert(sequence_model(items@) + Seq::<ValueModel>::empty() =~= Seq::<ValueModel>::empty());
    assert(sequence_model(items@) =~= Seq::<ValueModel>::empty());
    loop
        invariant
            start <= at <= bytes@.len(),
            fields == schema_model(schema@),
            whole == parse_items(bytes@.skip(start as int), fields, closing),
            whole == prepend_items(
                sequence_model(items@),
                at - start,
                parse_items(bytes@.skip(at as int), fields, closing),
            ),
        decreases bytes@.len() - at,
    {
        let ghost input = bytes@.skip(at as int);
        let ghost done = sequence_model(items@);
        if at == bytes.len() {
            assert(done + Seq::<ValueModel>::empty() =~= done);
            return if closing.is_none() {
                Ok((items, at))
            } else {
                Err(DecodeError::Truncated)
            };
        }
        let (tag, after_tag) = match read_tag(bytes, at) {
            Ok(found) => found,
            Err(e) => {
                return Err(e);
            },
        };
        assert(input.skip(after_tag - at) =~= bytes@.skip(after_tag as int));
        if tag.context && tag.lvt == LVT_CLOSING {
            match closing {
                Some(c) => {
                    if c == tag.number {
                        assert(done + Seq::<ValueModel>::empty() =~= done);
                        return Ok((items, after_tag));
                    }
                },
                None => {},
            }
        }
        assert(parse_closing(input, closing) is None);
        if tag.lvt >= LVT_OPENING && !tag.context {
            return Err(DecodeError::MalformedTag);
        }
        if tag.lvt == LVT_CLOSING {
            return Err(DecodeError::UnexpectedClosing(tag.number));
        }
        let (value, next) = if tag.lvt == LVT_OPENING {
            match find_field(schema, tag.number) {
                Some(FieldKind::Sequence(inner_schema)) => match decode_items(
                    bytes,
                    after_tag,
                    inner_schema,
                    Some(tag.number),
                ) {
                    Ok((inner, next)) => (
                        SequenceableValue::ContextValueSequence(tag.number, inner),
                        next,
                    ),
                    Err(e) => {
                        return Err(e);
                    },
                },
                _ => {
                    return Err(DecodeError::UnexpectedContext(tag.number));
                },
            }
        } else {
            match decode_primitive(tag, bytes, after_tag, schema) {
                Ok(found) => found,
                Err(e) => {
                    return Err(e);
                },
            }
        };
        assert(parse_value(input, fields) == Ok::<(ValueModel, int), DecodeError>(
            (value@, next - at),
        ));
        proof {
            assert(input.skip(next - at) =~= bytes@.skip(next as int));
            lemma_prepend_step(done, at - start, input, fields, closing, value@, next - at);
            lemma_model_push(items@, value);
        }
        items.push(value);
        at = next;
    }
}

/// Reads `bytes` as a value sequence with the fields of `schema`.
///
/// A nested sequence is read only where the schema has one, so that the
/// schema bounds how deep the reading goes, whatever the octets hold. No
/// length that the octets state is believed before that many octets are seen
/// to be there.
pub fn decode_value_sequence(bytes: &[u8], schema: &Schema) -> (r: Result<
    ValueSequence,
    DecodeError,
>)
    ensures
        match r {
            Ok(items) => parse_sequence(bytes@, schema_model(schema@)) == Ok::<
                Seq<ValueModel>,
                DecodeError,
            >(sequence_model(items@)),
            Err(e) => parse_sequence(bytes@, schema_model(schema@)) == Err::<
                Seq<ValueModel>,
                DecodeError,
            >(e),
        },
        r matches Ok(items) ==> sequence_fits(sequence_model(items@), schema_model(schema@))
            && sequence_encodable(sequence_model(items@)),
{
    proof {
        lemma_parsed_sequence(bytes@, schema_model(schema@));
    }
    assert(bytes@.skip(0) =~= bytes@);
    match decode_items(bytes, 0, schema, None) {
        Ok((items, _)) => Ok(items),
        Err(e) => Err(e),
    }
}

/// The octets of the closing tag that ends a sequence, if one ends it.
pub open spec fn closing_octets(closing: Option<Context>) -> Seq<u8> {
    match closing {
        Some(c) => tag_octets(closing_tag(c)),
        None => Seq::empty(),
    }
}

/// Reading the length and the content of a primitive value gives the value
/// back, whatever follows them.
pub proof fn lemma_sized_content_round_trip(p: PrimitiveModel, tail: Seq<u8>)
    requires
        encodable(p),
    ensures
        parse_sized_content(
            kind_of(p),
            length_lvt(content_octets(p).len()),
            length_extension(content_octets(p).len()) + content_octets(p)
                + tail,
        ) == Ok::<(PrimitiveModel, int), DecodeError>(
            (
                p,
                (length_extension(content_octets(p).len()).len()
                    + content_octets(p).len()) as int,
            ),
        ),
{
    let content = content_octets(p);
    let ext = length_extension(content.len());
    let input = ext + content + tail;
    assert(input =~= ext + (content + tail));
    lemma_length_round_trip(content.len(), content + tail);
    assert(input.subrange(ext.len() as int, (ext.len() + content.len()) as int) =~= content);
    lemma_content_round_trip(p);
}

/// Reading the octets of a value with a schema that describes it gives the
/// value back, whatever follows them; and the octets do not start with a
/// closing tag.
pub proof fn lemma_value_round_trip(v: ValueModel, schema: Seq<FieldModel>, tail: Seq<u8>)
    requires
        value_encodable(v),
        value_fits(v, schema),
    ensures
        parse_value(value_octets(v) + tail, schema) == Ok::<(ValueModel, int), DecodeError>(
            (v, value_octets(v).len() as int),
        ),
        value_octets(v).len() > 0,
        parse_tag(value_octets(v) + tail) matches Ok((tag, _)) && tag.lvt != LVT_CLOSING,
    decreases v,
{
    let input = value_octets(v) + tail;
    match v {
        ValueModel::ApplicationValue(PrimitiveModel::Boolean(b)) => {
            let tag = Tag {
                number: application_tag(PrimitiveKind::Boolean),
                context: false,
                lvt: if b {
                    1
                } else {
                    0
                },
            };
            lemma_tag_round_trip(tag, tail);
        },
        ValueModel::ApplicationValue(p) => {
            lemma_primitive_round_trip(application_tag(kind_of(p)), false, p, schema, tail);
        },
        ValueModel::ContextValue(c, p) => {
            lemma_primitive_round_trip(c, true, p, schema, tail);
        },
        ValueModel::ContextValueSequence(c, items) => {
            let fields = first_field(schema, c)->Some_0->Sequence_0;
            let open = tag_octets(opening_tag(c));
            let inner = sequence_octets(items) + tag_octets(closing_tag(c)) + tail;
            assert(input =~= open + inner);
            lemma_tag_round_trip(opening_tag(c), inner);
            assert(input.skip(open.len() as int) =~= inner);
            lemma_items_round_trip(items, fields, Some(c), tail);
        },
    }
}

/// A primitive value is read from its tag and from what the tag is followed
/// by.
proof fn lemma_parse_value_primitive(
    tag: Tag,
    after_tag: Seq<u8>,
    schema: Seq<FieldModel>,
    v: ValueModel,
    m: int,
)
    requires
        tag.wf(),
        tag.lvt < LVT_OPENING,
        parse_primitive(tag, after_tag, schema) == Ok::<(ValueModel, int), DecodeError>((v, m)),
    ensures
        parse_value(tag_octets(tag) + after_tag, schema) == Ok::<(ValueModel, int), DecodeError>(
            (v, tag_octets(tag).len() + m),
        ),
        parse_tag(tag_octets(tag) + after_tag) == Ok::<(Tag, int), DecodeError>(
            (tag, tag_octets(tag).len() as int),
        ),
{
    lemma_tag_round_trip(tag, after_tag);
    lemma_skip_concat(tag_octets(tag), after_tag);
}

/// A primitive value is read as a value of the type that the schema gives to
/// its context number or that its application tag names.
proof fn lemma_parse_primitive_of_kind(
    tag: Tag,
    input: Seq<u8>,
    schema: Seq<FieldModel>,
    kind: PrimitiveKind,
    p: PrimitiveModel,
    m: int,
)
    requires
        tag.context ==> first_field(schema, tag.number) == Some(FieldKindModel::Primitive(kind)),
        !tag.context ==> application_kind(tag.number) == Some(kind) && kind
            != PrimitiveKind::Boolean,
        parse_sized_content(kind, tag.lvt, input) == Ok::<(PrimitiveModel, int), DecodeError>(
            (p, m),
        ),
    ensures
        parse_primitive(tag, input, schema) == Ok::<(ValueModel, int), DecodeError>(
            (
                if tag.context {
                    ValueModel::ContextValue(tag.number, p)
                } else {
                    ValueModel::ApplicationValue(p)
                },
                m,
            ),
        ),
{
}

/// Reading the tag, the length and the content of a primitive value gives the
/// value back, whatever follows them.
proof fn lemma_primitive_round_trip(
    number: u8,
    context: bool,
    p: PrimitiveModel,
    schema: Seq<FieldModel>,
    tail: Seq<u8>,
)
    requires
        encodable(p),
        number <= MAX_TAG_NUMBER,
        context ==> first_field(schema, number) == Some(FieldKindModel::Primitive(kind_of(p))),
        !context ==> number == application_tag(kind_of(p)) && !(p is Boolean),
    ensures
        ({
            let octets = header_octets(number, context, content_octets(p).len()) + content_octets(p);
            let v = if context {
                ValueModel::ContextValue(number, p)
            } else {
                ValueModel::ApplicationValue(p)
            };
            &&& parse_value(octets + tail, schema) == Ok::<(ValueModel, int), DecodeError>(
                (v, octets.len() as int),
            )
            &&& octets.len() > 0
            &&& parse_tag(octets + tail) matches Ok((tag, _)) && tag.lvt != LVT_CLOSING
        }),
{
    let content = content_octets(p);
    let lvt = length_lvt(content.len());
    let tag = Tag { number, context, lvt };
    let ext = length_extension(content.len());
    let octets = header_octets(number, context, content.len()) + content;
    let after_tag = ext + content + tail;
    let m = (ext.len() + content.len()) as int;
    lemma_sized_content_round_trip(p, tail);
    lemma_application_kind(kind_of(p));
    lemma_parse_primitive_of_kind(tag, after_tag, schema, kind_of(p), p, m);
    let v = if context {
        ValueModel::ContextValue(number, p)
    } else {
        ValueModel::ApplicationValue(p)
    };
    lemma_parse_value_primitive(tag, after_tag, schema, v, m);
    lemma_regroup(tag_octets(tag), ext, content, tail);
}

/// The number of the application tag of a type names that type.
proof fn lemma_application_kind(kind: PrimitiveKind)
    ensures
        application_kind(application_tag(kind)) == Some(kind),
        application_tag(kind) <= MAX_TAG_NUMBER,
{
}

/// What holds of a sequence holds of its first value and of the values after
/// it.
proof fn lemma_described_parts(items: Seq<ValueModel>, schema: Seq<FieldModel>)
    requires
        items.len() > 0,
        sequence_encodable(items),
        sequence_fits(items, schema),
    ensures
        value_encodable(items[0]),
        value_fits(items[0], schema),
        sequence_encodable(items.skip(1)),
        sequence_fits(items.skip(1), schema),
{
    let rest = items.skip(1);
    assert forall|i: int| 0 <= i < rest.len() implies value_encodable(#[trigger] rest[i])
        && value_fits(rest[i], schema) by {
        assert(rest[i] == items[i + 1]);
    }
}

/// Values are read one after the other: after a first value that is no
/// closing tag, the values that follow it.
proof fn lemma_parse_items_step(
    input: Seq<u8>,
    schema: Seq<FieldModel>,
    closing: Option<Context>,
    v: ValueModel,
    n: int,
    rest: Seq<ValueModel>,
    m: int,
)
    requires
        parse_closing(input, closing) is None,
        parse_value(input, schema) == Ok::<(ValueModel, int), DecodeError>((v, n)),
        0 < n <= input.len(),
        parse_items(input.skip(n), schema, closing) == Ok::<(Seq<ValueModel>, int), DecodeError>(
            (rest, m),
        ),
    ensures
        parse_items(input, schema, closing) == Ok::<(Seq<ValueModel>, int), DecodeError>(
            (seq![v] + rest, n + m),
        ),
{
}

/// Where no value is left, reading ends: at the closing tag of a nested
/// sequence, or at the end of the octets.
proof fn lemma_parse_items_end(schema: Seq<FieldModel>, closing: Option<Context>, tail: Seq<u8>)
    requires
        closing matches Some(c) ==> c <= MAX_TAG_NUMBER,
        closing is None ==> tail.len() == 0,
    ensures
        parse_items(closing_octets(closing) + tail, schema, closing) == Ok::<
            (Seq<ValueModel>, int),
            DecodeError,
        >((Seq::empty(), closing_octets(closing).len() as int)),
{
    match closing {
        Some(c) => {
            lemma_tag_round_trip(closing_tag(c), tail);
        },
        None => {},
    }
}

/// If the first value of a sequence is read back from its octets, and the
/// values after it from theirs, then the sequence is read back from its
/// octets.
proof fn lemma_items_round_trip_step(
    items: Seq<ValueModel>,
    schema: Seq<FieldModel>,
    closing: Option<Context>,
    tail: Seq<u8>,
)
    requires
        items.len() > 0,
        ({
            let after = sequence_octets(items.skip(1)) + closing_octets(closing) + tail;
            let first = value_octets(items[0]);
            &&& parse_value(first + after, schema) == Ok::<(ValueModel, int), DecodeError>(
                (items[0], first.len() as int),
            )
            &&& first.len() > 0
            &&& parse_tag(first + after) matches Ok((tag, _)) && tag.lvt != LVT_CLOSING
            &&& parse_items(after, schema, closing) == Ok::<(Seq<ValueModel>, int), DecodeError>(
                (
                    items.skip(1),
                    (sequence_octets(items.skip(1)).len() + closing_octets(closing).len()) as int,
                ),
            )
        }),
    ensures
        parse_items(sequence_octets(items) + closing_octets(closing) + tail, schema, closing)
            == Ok::<(Seq<ValueModel>, int), DecodeError>(
            (items, (sequence_octets(items).len() + closing_octets(closing).len()) as int),
        ),
{
    let input = sequence_octets(items) + closing_octets(closing) + tail;
    let v = items[0];
    let rest = items.skip(1);
    let first = value_octets(v);
    let after = sequence_octets(rest) + closing_octets(closing) + tail;
    let n = first.len() as int;
    let m = (sequence_octets(rest).len() + closing_octets(closing).len()) as int;
    lemma_regroup(first, sequence_octets(rest), closing_octets(closing), tail);
    lemma_skip_concat(first, after);
    lemma_parse_items_step(input, schema, closing, v, n, rest, m);
    assert(seq![v] + rest =~= items);
}

/// Reading the octets of a value sequence with a schema that describes it
/// gives the sequence back. If the sequence is a nested one, its closing tag
/// is read with it, whatever follows.
pub proof fn lemma_items_round_trip(
    items: Seq<ValueModel>,
    schema: Seq<FieldModel>,
    closing: Option<Context>,
    tail: Seq<u8>,
)
    requires
        sequence_encodable(items),
        sequence_fits(items, schema),
        closing matches Some(c) ==> c <= MAX_TAG_NUMBER,
        closing is None ==> tail.len() == 0,
    ensures
        parse_items(sequence_octets(items) + closing_octets(closing) + tail, schema, closing)
            == Ok::<(Seq<ValueModel>, int), DecodeError>(
            (items, (sequence_octets(items).len() + closing_octets(closing).len()) as int),
        ),
    decreases items,
{
    if items.len() == 0 {
        lemma_parse_items_end(schema, closing, tail);
        assert(items =~= Seq::<ValueModel>::empty());
        assert(sequence_octets(items) + closing_octets(closing) + tail =~= closing_octets(closing)
            + tail);
    } else {
        lemma_described_parts(items, schema);
        lemma_value_round_trip(
            items[0],
            schema,
            sequence_octets(items.skip(1)) + closing_octets(closing) + tail,
        );
        lemma_items_round_trip(items.skip(1), schema, closing, tail);
        lemma_items_round_trip_step(items, schema, closing, tail);
    }
}

/// Reading what was written gives the value sequence back, if the schema
/// describes the sequence.
pub proof fn lemma_sequence_round_trip(items: Seq<ValueModel>, schema: Seq<FieldModel>)
    requires
        sequence_encodable(items),
        sequence_fits(items, schema),
    ensures
        parse_sequence(sequence_octets(items), schema) == Ok::<Seq<ValueModel>, DecodeError>(
            items,
        ),
{
    lemma_items_round_trip(items, schema, None, Seq::empty());
    assert(sequence_octets(items) + closing_octets(None) + Seq::<u8>::empty() =~= sequence_octets(
        items,
    ));
}

/// A value that was read lies within the octets, is one that the schema
/// describes, and can be written.
pub proof fn lemma_parsed_value(input: Seq<u8>, schema: Seq<FieldModel>)
    ensures
        parse_value(input, schema) matches Ok((v, n)) ==> 0 < n <= input.len() && value_fits(
            v,
            schema,
        ) && value_encodable(v),
    decreases input.len(), 0int,
{
    if let Ok((v, n)) = parse_value(input, schema) {
        let (tag, k) = parse_tag(input)->Ok_0;
        let after_tag = input.skip(k);
        if tag.lvt == LVT_OPENING {
            let fields = first_field(schema, tag.number)->Some_0->Sequence_0;
            lemma_parsed_items(after_tag, fields, Some(tag.number));
        } else {
            lemma_parsed_primitive(tag, after_tag, schema);
        }
    }
}

/// A primitive value that was read lies within the octets, is one that the
/// schema describes, and can be written.
proof fn lemma_parsed_primitive(tag: Tag, input: Seq<u8>, schema: Seq<FieldModel>)
    requires
        tag.number <= MAX_TAG_NUMBER,
    ensures
        parse_primitive(tag, input, schema) matches Ok((v, n)) ==> 0 <= n <= input.len()
            && value_fits(v, schema) && value_encodable(v),
{
    if let Ok((v, n)) = parse_primitive(tag, input, schema) {
        match v {
            ValueModel::ApplicationValue(PrimitiveModel::Boolean(b)) => {
                lemma_short_content(PrimitiveModel::Boolean(b));
            },
            ValueModel::ApplicationValue(p) => {
                lemma_parsed_sized_content(kind_of(p), tag.lvt, input);
            },
            ValueModel::ContextValue(_, p) => {
                let kind = first_field(schema, tag.number)->Some_0->Primitive_0;
                lemma_parsed_sized_content(kind, tag.lvt, input);
            },
            _ => {},
        }
    }
}

/// A primitive value that was read with its length lies within the octets, has
/// the type that was asked for, and can be written.
proof fn lemma_parsed_sized_content(kind: PrimitiveKind, lvt: u8, input: Seq<u8>)
    ensures
        parse_sized_content(kind, lvt, input) matches Ok((p, n)) ==> 0 <= n <= input.len()
            && kind_of(p) == kind && encodable(p),
{
    if let Ok((p, n)) = parse_sized_content(kind, lvt, input) {
        let (len, k) = parse_length(lvt, input)->Some_0;
        lemma_parsed_content(
            kind,
            input.subrange(k, k + len),
        );
    }
}

/// Values that were read lie within the octets, are ones that the schema
/// describes, and can be written. Without a closing tag to end at, they take
/// all the octets.
pub proof fn lemma_parsed_items(input: Seq<u8>, schema: Seq<FieldModel>, closing: Option<Context>)
    ensures
        parse_items(input, schema, closing) matches Ok((items, n)) ==> 0 <= n <= input.len() && (
        closing is None ==> n == input.len()) && sequence_fits(items, schema)
            && sequence_encodable(items),
    decreases input.len(), 1int,
{
    if let Ok((items, n)) = parse_items(input, schema, closing) {
        if input.len() != 0 && parse_closing(input, closing) is None {
            lemma_parsed_value(input, schema);
            let (v, k) = parse_value(input, schema)->Ok_0;
            lemma_parsed_items(input.skip(k), schema, closing);
            let (rest, m) = parse_items(input.skip(k), schema, closing)->Ok_0;
            assert(items == seq![v] + rest);
            assert forall|i: int| 0 <= i < items.len() implies value_fits(
                #[trigger] items[i],
                schema,
            ) && value_encodable(items[i]) by {
                if i > 0 {
                    assert(items[i] == rest[i - 1]);
                }
            }
        }
    }
}

/// A value sequence that was read is one that the schema describes, and
/// writing it is allowed.
pub proof fn lemma_parsed_sequence(bytes: Seq<u8>, schema: Seq<FieldModel>)
    ensures
        parse_sequence(bytes, schema) matches Ok(items) ==> sequence_fits(items, schema)
            && sequence_encodable(items),
{
    lemma_parsed_items(bytes, schema, None);
}

} // verus!
