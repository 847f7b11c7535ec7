//! The abstract syntax of BACnet application-layer messages.

use vstd::prelude::*;

verus! {

/// The fixed leading part of an APDU, identifying the kind of request.
#[derive(Debug, Clone, Copy, PartialEq, Eq, Structural)]
pub enum ApduHeader {
    ConfirmedReq { pdu_flags: u8, max_segments: u8, max_apdu: u8, invoke_id: u8, service: u8 },
    UnconfirmedReq { service: u8 },
    SimpleAck { invoke_id: u8, service: u8 },
}

impl ApduHeader {
    /// Every field fits the bit width that the wire layout gives it.
    pub open spec fn wf(self) -> bool {
        match self {
            ApduHeader::ConfirmedReq { pdu_flags, max_segments, max_apdu, .. } => {
                pdu_flags < 16 && max_segments < 8 && max_apdu < 16
            },
            _ => true,
        }
    }

    /// Whether every field fits the bit width that the wire layout gives it.
    pub fn is_valid(&self) -> (b: bool)
        ensures
            b == self.wf(),
    {
        match self {
            ApduHeader::ConfirmedReq { pdu_flags, max_segments, max_apdu, .. } => {
                *pdu_flags < 16 && *max_segments < 8 && *max_apdu < 16
            },
            _ => true,
        }
    }

    /// Whether the sender of a message with this header waits for an answer:
    /// it does for a confirmed request and for nothing else.
    pub fn expects_reply(&self) -> (b: bool)
        ensures
            b == (*self is ConfirmedReq),
    {
        match self {
            ApduHeader::ConfirmedReq { .. } => true,
            _ => false,
        }
    }
}

/// Context values have an id whose meaning is specific to the message they sit in.
pub type Context = u8;

/// A sequence of BACnet values.
pub type ValueSequence = Vec<SequenceableValue>;

/// BACnet primitive application values.
///
/// `Real` and `Double` hold the IEEE 754 bit pattern of the number, which is
/// what travels on the wire.
#[derive(Debug, PartialEq, Eq)]
pub enum PrimitiveValue {
    Null,
    Boolean(bool),
    Unsigned(u32),
    Signed(i32),
    Real(u32),
    Double(u64),
    CharacterString(String),
    Enumerated(u32),
}

/// The values that can be elements of a sequence.
#[derive(Debug, PartialEq, Eq)]
pub enum SequenceableValue {
    ApplicationValue(PrimitiveValue),
    ContextValue(Context, PrimitiveValue),
    ContextValueSequence(Context, ValueSequence),
}

/// What a [`PrimitiveValue`] stands for.
pub enum PrimitiveModel {
    Null,
    Boolean(bool),
    Unsigned(u32),
    Signed(i32),
    Real(u32),
    Double(u64),
    CharacterString(Seq<char>),
    Enumerated(u32),
}

/// What a [`SequenceableValue`] stands for: a finite tree of tagged values.
pub enum ValueModel {
    ApplicationValue(PrimitiveModel),
    ContextValue(Context, PrimitiveModel),
    ContextValueSequence(Context, Seq<ValueModel>),
}

impl View for PrimitiveValue {
    type V = PrimitiveModel;

    open spec fn view(&self) -> PrimitiveModel {
        match self {
            PrimitiveValue::Null => PrimitiveModel::Null,
            PrimitiveValue::Boolean(b) => PrimitiveModel::Boolean(*b),
            PrimitiveValue::Unsigned(n) => PrimitiveModel::Unsigned(*n),
            PrimitiveValue::Signed(n) => PrimitiveModel::Signed(*n),
            PrimitiveValue::Real(bits) => PrimitiveModel::Real(*bits),
            PrimitiveValue::Double(bits) => PrimitiveModel::Double(*bits),
            PrimitiveValue::CharacterString(s) => PrimitiveModel::CharacterString(s@),
            PrimitiveValue::Enumerated(n) => PrimitiveModel::Enumerated(*n),
        }
    }
}

/// The tree that a value stands for.
pub open spec fn value_model(v: SequenceableValue) -> ValueModel
    decreases v,
{
    match v {
        SequenceableValue::ApplicationValue(p) => ValueModel::ApplicationValue(p@),
        SequenceableValue::ContextValue(c, p) => ValueModel::ContextValue(c, p@),
        SequenceableValue::ContextValueSequence(c, items) => ValueModel::ContextValueSequence(
            c,
            sequence_model(items@),
        ),
    }
}

/// The trees that the values of a sequence stand for, in order.
pub open spec fn sequence_model(s: Seq<SequenceableValue>) -> Seq<ValueModel>
    decreases s,
{
    Seq::new(
        s.len(),
        |i: int|
            if 0 <= i < s.len() {
                value_model(s[i])
            } else {
                arbitrary()
            },
    )
}

impl View for SequenceableValue {
    type V = ValueModel;

    open spec fn view(&self) -> ValueModel {
        value_model(*self)
    }
}

/// Whether `v` is a context-tagged primitive value with the tag `context`.
pub open spec fn is_context_value(v: ValueModel, context: Context) -> bool {
    v matches ValueModel::ContextValue(c, _) && c == context
}

/// The primitive value of the first context-tagged primitive in `s` whose tag
/// is `context`. Application values and nested sequences are passed over,
/// whatever their tag.
pub open spec fn first_context_value(s: Seq<ValueModel>, context: Context) -> Option<
    PrimitiveModel,
>
    decreases s.len(),
{
    if s.len() == 0 {
        None
    } else if is_context_value(s[0], context) {
        Some(s[0]->ContextValue_1)
    } else {
        first_context_value(s.skip(1), context)
    }
}

/// Scans `sequence` in order for a context-tagged primitive value with the tag
/// `context` and returns the first one.
pub fn find_context_value(sequence: &ValueSequence, context: Context) -> (found: Option<
    &PrimitiveValue,
>)
    ensures
        match found {
            Some(p) => first_context_value(sequence_model(sequence@), context) == Some(p@),
            None => first_context_value(sequence_model(sequence@), context) is None,
        },
{
    let ghost model = sequence_model(sequence@);
    let mut i: usize = 0;
    assert(model.skip(0) =~= model);
    while i < sequence.len()
        invariant
            i <= sequence.len(),
            model == sequence_model(sequence@),
            first_context_value(model, context) == first_context_value(
                model.skip(i as int),
                context,
            ),
        decreases sequence.len() - i,
    {
        proof {
            assert(model.skip(i as int)[0] == value_model(sequence@[i as int]));
            assert(model.skip(i as int).skip(1) =~= model.skip(i + 1));
        }
        match &sequence[i] {
            SequenceableValue::ContextValue(c, p) => {
                if *c == context {
                    return Some(p);
                }
            },
            _ => {},
        }
        i += 1;
    }
    None
}

/// Whether `v` is a nested sequence with the tag `context`.
pub open spec fn is_context_sequence(v: ValueModel, context: Context) -> bool {
    v matches ValueModel::ContextValueSequence(c, _) && c == context
}

/// The values of the first nested sequence in `s` whose tag is `context`.
/// Primitive values are passed over, whatever their tag.
pub open spec fn first_context_sequence(s: Seq<ValueModel>, context: Context) -> Option<
    Seq<ValueModel>,
>
    decreases s.len(),
{
    if s.len() == 0 {
        None
    } else if is_context_sequence(s[0], context) {
        Some(s[0]->ContextValueSequence_1)
    } else {
        first_context_sequence(s.skip(1), context)
    }
}

/// Scans `sequence` in order for a nested sequence with the tag `context` and
/// returns the values of the first one.
pub fn find_context_sequence(sequence: &ValueSequence, context: Context) -> (found: Option<
    &ValueSequence,
>)
    ensures
        match found {
            Some(items) => first_context_sequence(sequence_model(sequence@), context) == Some(
                sequence_model(items@),
            ),
            None => first_context_sequence(sequence_model(sequence@), context) is None,
        },
{
    let ghost model = sequence_model(sequence@);
    let mut i: usize = 0;
    assert(model.skip(0) =~= model);
    while i < sequence.len()
        invariant
            i <= sequence.len(),
            model == sequence_model(sequence@),
            first_context_sequence(model, context) == first_context_sequence(
                model.skip(i as int),
                context,
            ),
        decreases sequence.len() - i,
    {
        proof {
            assert(model.skip(i as int)[0] == value_model(sequence@[i as int]));
            assert(model.skip(i as int).skip(1) =~= model.skip(i + 1));
        }
        match &sequence[i] {
            SequenceableValue::ContextValueSequence(c, items) => {
                if *c == context {
                    return Some(items);
                }
            },
            _ => {},
        }
        i += 1;
    }
    None
}

/// Where `first_context_value` finds its result: at the least index that
/// holds a context-tagged primitive with the tag, and nowhere if there is none.
pub proof fn lemma_first_context_value(s: Seq<ValueModel>, context: Context)
    ensures
        match first_context_value(s, context) {
            Some(p) => exists|i: int|
                0 <= i < s.len() && s[i] == ValueModel::ContextValue(context, p) && forall|j: int|
                    0 <= j < i ==> !is_context_value(#[trigger] s[j], context),
            None => forall|j: int| 0 <= j < s.len() ==> !is_context_value(#[trigger] s[j], context),
        },
    decreases s.len(),
{
    if s.len() == 0 {
    } else if is_context_value(s[0], context) {
        assert(s[0] == ValueModel::ContextValue(context, s[0]->ContextValue_1));
    } else {
        let rest = s.skip(1);
        lemma_first_context_value(rest, context);
        match first_context_value(rest, context) {
            Some(p) => {
                let i = choose|i: int|
                    0 <= i < rest.len() && rest[i] == ValueModel::ContextValue(context, p)
                        && forall|j: int|
                        0 <= j < i ==> !is_context_value(#[trigger] rest[j], context);
                assert(s[i + 1] == rest[i]);
                assert forall|j: int| 0 <= j < i + 1 implies !is_context_value(
                    #[trigger] s[j],
                    context,
                ) by {
                    if j > 0 {
                        assert(s[j] == rest[j - 1]);
                    }
                }
            },
            None => {
                assert forall|j: int| 0 <= j < s.len() implies !is_context_value(
                    #[trigger] s[j],
                    context,
                ) by {
                    if j > 0 {
                        assert(s[j] == rest[j - 1]);
                    }
                }
            },
        }
    }
}

} // verus!
