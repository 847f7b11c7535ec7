use bacnet::ast::PrimitiveValue::{Boolean, CharacterString, Enumerated, Signed, Unsigned};
use bacnet::ast::SequenceableValue::{ApplicationValue, ContextValue, ContextValueSequence};
use bacnet::ast::{find_context_sequence, find_context_value, PrimitiveValue, ValueSequence};
use bacnet::encoding::DecodeError;
use bacnet::service::whois::{Message, HIGH_LIMIT_CONTEXT, LOW_LIMIT_CONTEXT, SERVICE_CHOICE};
use bacnet::service::{decode_message, encode_message, ServiceError, ServiceMessage, UnmarshallError};

#[test]
fn test_unmarshall_correct() {
    assert_eq!(
        Ok(Message { device_instance_low: 1, device_instance_high: 50000 }),
        Message::unmarshall(&vec![ContextValue(0, Unsigned(1)), ContextValue(1, Unsigned(50000))])
    );
}

#[test]
fn test_marshall_correct() {
    assert_eq!(
        vec![ContextValue(0, Unsigned(1)), ContextValue(1, Unsigned(50000))],
        Message { device_instance_low: 1, device_instance_high: 50000 }.marshall()
    );
}

#[test]
fn test_marshall_cycle() {
    let message = Message { device_instance_low: 1, device_instance_high: 50000 };
    assert_eq!(message, Message::unmarshall(&message.marshall()).unwrap());
}

#[test]
fn marshall_cycle_at_the_limits() {
    for (low, high) in [(0, 0), (0, u32::MAX), (u32::MAX, 0), (4194303, 4194303)] {
        let message = Message { device_instance_low: low, device_instance_high: high };
        assert!(message.is_valid());
        assert_eq!(Ok(message), Message::unmarshall(&message.marshall()));
    }
}

#[test]
fn whois_constants() {
    assert_eq!(SERVICE_CHOICE, 8);
    assert_eq!(LOW_LIMIT_CONTEXT, 0);
    assert_eq!(HIGH_LIMIT_CONTEXT, 1);
}

#[test]
fn find_context_value_returns_first_match() {
    let sequence: ValueSequence = vec![
        ApplicationValue(Unsigned(9)),
        ContextValue(2, Unsigned(20)),
        ContextValue(1, Signed(-4)),
        ContextValue(2, Unsigned(21)),
    ];
    assert_eq!(find_context_value(&sequence, 2), Some(&Unsigned(20)));
    assert_eq!(find_context_value(&sequence, 1), Some(&Signed(-4)));
}

#[test]
fn find_context_value_without_match() {
    let empty: ValueSequence = vec![];
    assert_eq!(find_context_value(&empty, 0), None);
    let only_application: ValueSequence =
        vec![ApplicationValue(Unsigned(0)), ApplicationValue(Boolean(true))];
    assert_eq!(find_context_value(&only_application, 0), None);
    let other_tags: ValueSequence = vec![ContextValue(1, Unsigned(5))];
    assert_eq!(find_context_value(&other_tags, 0), None);
}

#[test]
fn find_context_value_passes_over_nested_sequences() {
    let only_sequence: ValueSequence =
        vec![ContextValueSequence(3, vec![ContextValue(3, Unsigned(1))])];
    assert_eq!(find_context_value(&only_sequence, 3), None);
    let sequence_then_value: ValueSequence =
        vec![ContextValueSequence(3, vec![]), ContextValue(3, Enumerated(7))];
    assert_eq!(find_context_value(&sequence_then_value, 3), Some(&Enumerated(7)));
}

#[test]
fn unmarshall_without_low_limit() {
    assert_eq!(
        Message::unmarshall(&vec![ContextValue(1, Unsigned(50000))]),
        Err(UnmarshallError::RequiredValueNotProvided)
    );
}

#[test]
fn unmarshall_without_high_limit() {
    assert_eq!(
        Message::unmarshall(&vec![ContextValue(0, Unsigned(1))]),
        Err(UnmarshallError::RequiredValueNotProvided)
    );
}

#[test]
fn unmarshall_of_empty_sequence() {
    assert_eq!(Message::unmarshall(&vec![]), Err(UnmarshallError::RequiredValueNotProvided));
}

#[test]
fn unmarshall_with_wrong_primitive_type() {
    assert_eq!(
        Message::unmarshall(&vec![ContextValue(0, Signed(1)), ContextValue(1, Unsigned(50000))]),
        Err(UnmarshallError::RequiredValueNotProvided)
    );
    assert_eq!(
        Message::unmarshall(&vec![
            ContextValue(0, Unsigned(1)),
            ContextValue(1, CharacterString(String::from("50000")))
        ]),
        Err(UnmarshallError::RequiredValueNotProvided)
    );
    assert_eq!(
        Message::unmarshall(&vec![ContextValue(0, Unsigned(1)), ContextValue(1, Enumerated(5))]),
        Err(UnmarshallError::RequiredValueNotProvided)
    );
}

#[test]
fn unmarshall_goes_by_the_first_occurrence() {
    assert_eq!(
        Message::unmarshall(&vec![
            ContextValue(0, Unsigned(1)),
            ContextValue(0, Unsigned(2)),
            ContextValue(1, Unsigned(3)),
        ]),
        Ok(Message { device_instance_low: 1, device_instance_high: 3 })
    );
    assert_eq!(
        Message::unmarshall(&vec![
            ContextValue(0, PrimitiveValue::Null),
            ContextValue(0, Unsigned(2)),
            ContextValue(1, Unsigned(3)),
        ]),
        Err(UnmarshallError::RequiredValueNotProvided)
    );
}

#[test]
fn unmarshall_does_not_look_into_nested_sequences() {
    assert_eq!(
        Message::unmarshall(&vec![
            ContextValueSequence(0, vec![ContextValue(0, Unsigned(1))]),
            ContextValue(1, Unsigned(3)),
        ]),
        Err(UnmarshallError::RequiredValueNotProvided)
    );
}

#[test]
fn encode_message_writes_the_octets_of_the_limits() {
    let mut buf = vec![0xaa];
    encode_message(&Message { device_instance_low: 1, device_instance_high: 50000 }, &mut buf);
    assert_eq!(buf, vec![0xaa, 0x09, 0x01, 0x1a, 0xc3, 0x50]);
}

#[test]
fn decode_message_reads_the_octets_of_the_limits() {
    assert_eq!(
        decode_message::<Message>(&[0x09, 0x01, 0x1a, 0xc3, 0x50]),
        Ok(Message { device_instance_low: 1, device_instance_high: 50000 })
    );
}

#[test]
fn message_octets_cycle() {
    for (low, high) in [(0, 0), (255, 256), (65535, 65536), (16777215, 16777216), (7, u32::MAX)] {
        let message = Message { device_instance_low: low, device_instance_high: high };
        let mut buf = Vec::new();
        encode_message(&message, &mut buf);
        assert_eq!(decode_message::<Message>(&buf), Ok(message));
    }
}

#[test]
fn decode_message_reports_the_failing_layer() {
    assert_eq!(
        decode_message::<Message>(&[0x09, 0x01]),
        Err(ServiceError::Unmarshall(UnmarshallError::RequiredValueNotProvided))
    );
    assert_eq!(
        decode_message::<Message>(&[]),
        Err(ServiceError::Unmarshall(UnmarshallError::RequiredValueNotProvided))
    );
    assert_eq!(
        decode_message::<Message>(&[0x09, 0x01, 0x1a, 0xc3]),
        Err(ServiceError::Decode(DecodeError::Truncated))
    );
    assert_eq!(
        decode_message::<Message>(&[0x09, 0x01, 0x29, 0x05]),
        Err(ServiceError::Decode(DecodeError::UnexpectedContext(2)))
    );
}

#[test]
fn whois_schema_names_both_limits() {
    let schema = Message::schema();
    assert_eq!(schema.len(), 2);
    assert_eq!(schema[0].context, 0);
    assert_eq!(schema[1].context, 1);
}

#[test]
fn find_context_sequence_returns_first_match() {
    let sequence: ValueSequence = vec![
        ContextValue(3, Unsigned(1)),
        ContextValueSequence(4, vec![]),
        ContextValueSequence(3, vec![ContextValue(0, Unsigned(2))]),
        ContextValueSequence(3, vec![]),
    ];
    assert_eq!(find_context_sequence(&sequence, 3), Some(&vec![ContextValue(0, Unsigned(2))]));
    assert_eq!(find_context_sequence(&sequence, 4), Some(&vec![]));
}

#[test]
fn find_context_sequence_without_match() {
    let empty: ValueSequence = vec![];
    assert_eq!(find_context_sequence(&empty, 0), None);
    let sequence: ValueSequence = vec![
        ContextValue(3, Unsigned(1)),
        ApplicationValue(Unsigned(3)),
        ContextValueSequence(4, vec![ContextValueSequence(3, vec![])]),
    ];
    assert_eq!(find_context_sequence(&sequence, 3), None);
}
