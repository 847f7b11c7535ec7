use bacnet::ast::PrimitiveValue::{
    Boolean, CharacterString, Double, Enumerated, Null, Real, Signed, Unsigned,
};
use bacnet::ast::SequenceableValue::{ApplicationValue, ContextValue, ContextValueSequence};
use bacnet::ast::{PrimitiveValue, ValueSequence};
use bacnet::encoding::primitive::{
    content_of, push_signed, push_unsigned, read_content, PrimitiveKind, CHARSET_UTF8,
};
use bacnet::encoding::schema::{find_field, Field, FieldKind, Schema};
use bacnet::encoding::tag::{
    read_length, read_tag, write_header, write_tag, Tag, EXTENDED_NUMBER, LVT_CLOSING,
    LVT_EXTENDED, LVT_OPENING, MAX_CONTENT_LEN, MAX_TAG_NUMBER,
};
use bacnet::encoding::value::{
    decode_value_sequence, encode_value, encode_value_sequence, is_encodable, value_is_encodable,
};
use bacnet::encoding::DecodeError;

fn encoded(items: &ValueSequence) -> Vec<u8> {
    assert!(is_encodable(items));
    let mut buf = Vec::new();
    encode_value_sequence(items, &mut buf);
    buf
}

fn primitive(context: u8, kind: PrimitiveKind) -> Field {
    Field { context, kind: FieldKind::Primitive(kind) }
}

fn sequence(context: u8, fields: Schema) -> Field {
    Field { context, kind: FieldKind::Sequence(fields) }
}

fn tag_octets(number: u8, context: bool, lvt: u8) -> Vec<u8> {
    let mut buf = Vec::new();
    write_tag(&mut buf, Tag { number, context, lvt });
    buf
}

fn header(number: u8, context: bool, len: usize) -> Vec<u8> {
    let mut buf = Vec::new();
    write_header(&mut buf, number, context, len);
    buf
}

fn unsigned(n: u32) -> Vec<u8> {
    let mut buf = Vec::new();
    push_unsigned(&mut buf, n);
    buf
}

fn signed(n: i32) -> Vec<u8> {
    let mut buf = Vec::new();
    push_signed(&mut buf, n);
    buf
}

#[test]
fn encoding_constants() {
    assert_eq!(MAX_TAG_NUMBER, 254);
    assert_eq!(EXTENDED_NUMBER, 15);
    assert_eq!(LVT_EXTENDED, 5);
    assert_eq!(LVT_OPENING, 6);
    assert_eq!(LVT_CLOSING, 7);
    assert_eq!(MAX_CONTENT_LEN, 0xffff_ffff);
    assert_eq!(CHARSET_UTF8, 0);
}

#[test]
fn tag_octets_of_small_numbers() {
    assert_eq!(tag_octets(0, false, 0), vec![0x00]);
    assert_eq!(tag_octets(2, false, 1), vec![0x21]);
    assert_eq!(tag_octets(0, true, 1), vec![0x09]);
    assert_eq!(tag_octets(1, true, 2), vec![0x1a]);
    assert_eq!(tag_octets(14, true, 7), vec![0xef]);
    assert_eq!(tag_octets(3, true, 6), vec![0x3e]);
}

#[test]
fn tag_octets_of_extended_numbers() {
    assert_eq!(tag_octets(15, true, 1), vec![0xf9, 15]);
    assert_eq!(tag_octets(254, true, 6), vec![0xfe, 254]);
    assert_eq!(tag_octets(100, false, 4), vec![0xf4, 100]);
}

#[test]
fn tag_cycle() {
    for number in [0u8, 1, 14, 15, 16, 100, 254] {
        for context in [false, true] {
            for lvt in 0..8u8 {
                let tag = Tag { number, context, lvt };
                let mut octets = vec![0xab];
                write_tag(&mut octets, tag);
                let end = octets.len();
                octets.push(0xcd);
                assert_eq!(read_tag(&octets, 1), Ok((tag, end)));
            }
        }
    }
}

#[test]
fn read_tag_errors() {
    assert_eq!(read_tag(&[], 0), Err(DecodeError::Truncated));
    assert_eq!(read_tag(&[0x09], 1), Err(DecodeError::Truncated));
    assert_eq!(read_tag(&[0xf9], 0), Err(DecodeError::Truncated));
    assert_eq!(read_tag(&[0xf9, 255], 0), Err(DecodeError::MalformedTag));
    assert_eq!(read_tag(&[0xf9, 3], 0), Ok((Tag { number: 3, context: true, lvt: 1 }, 2)));
}

#[test]
fn header_octets_by_length() {
    assert_eq!(header(2, false, 0), vec![0x20]);
    assert_eq!(header(2, false, 4), vec![0x24]);
    assert_eq!(header(5, false, 8), vec![0x55, 8]);
    assert_eq!(header(7, false, 5), vec![0x75, 5]);
    assert_eq!(header(7, false, 253), vec![0x75, 253]);
    assert_eq!(header(7, false, 254), vec![0x75, 254, 0x00, 0xfe]);
    assert_eq!(header(7, true, 65535), vec![0x7d, 254, 0xff, 0xff]);
    assert_eq!(header(7, true, 65536), vec![0x7d, 255, 0x00, 0x01, 0x00, 0x00]);
    assert_eq!(header(20, true, 0x0102_0304), vec![0xfd, 20, 255, 0x01, 0x02, 0x03, 0x04]);
}

#[test]
fn length_cycle() {
    for len in [0usize, 1, 4, 5, 6, 253, 254, 255, 65535, 65536, 0x00ff_ffff, 0xffff_ffff] {
        let mut octets = header(7, false, len);
        let end = octets.len();
        octets.push(0x11);
        let (tag, after_tag) = read_tag(&octets, 0).unwrap();
        assert_eq!(read_length(&octets, after_tag, tag.lvt), Some((len, end)));
    }
}

#[test]
fn read_length_of_truncated_octets() {
    assert_eq!(read_length(&[0x75], 1, 5), None);
    assert_eq!(read_length(&[0x75, 254, 0x01], 1, 5), None);
    assert_eq!(read_length(&[0x75, 255, 0x01, 0x02, 0x03], 1, 5), None);
    assert_eq!(read_length(&[0x75, 3], 1, 5), Some((3, 2)));
    assert_eq!(read_length(&[0x73], 1, 3), Some((3, 1)));
}

#[test]
fn unsigned_octets_are_the_fewest() {
    assert_eq!(unsigned(0), vec![0x00]);
    assert_eq!(unsigned(1), vec![0x01]);
    assert_eq!(unsigned(255), vec![0xff]);
    assert_eq!(unsigned(256), vec![0x01, 0x00]);
    assert_eq!(unsigned(50000), vec![0xc3, 0x50]);
    assert_eq!(unsigned(65535), vec![0xff, 0xff]);
    assert_eq!(unsigned(65536), vec![0x01, 0x00, 0x00]);
    assert_eq!(unsigned(0x00ff_ffff), vec![0xff, 0xff, 0xff]);
    assert_eq!(unsigned(0x0100_0000), vec![0x01, 0x00, 0x00, 0x00]);
    assert_eq!(unsigned(u32::MAX), vec![0xff, 0xff, 0xff, 0xff]);
    assert_eq!(unsigned(0x1234_5678), vec![0x12, 0x34, 0x56, 0x78]);
}

#[test]
fn signed_octets_are_the_fewest() {
    assert_eq!(signed(0), vec![0x00]);
    assert_eq!(signed(72), vec![0x48]);
    assert_eq!(signed(127), vec![0x7f]);
    assert_eq!(signed(128), vec![0x00, 0x80]);
    assert_eq!(signed(-1), vec![0xff]);
    assert_eq!(signed(-128), vec![0x80]);
    assert_eq!(signed(-129), vec![0xff, 0x7f]);
    assert_eq!(signed(32767), vec![0x7f, 0xff]);
    assert_eq!(signed(32768), vec![0x00, 0x80, 0x00]);
    assert_eq!(signed(-32768), vec![0x80, 0x00]);
    assert_eq!(signed(-32769), vec![0xff, 0x7f, 0xff]);
    assert_eq!(signed(8388607), vec![0x7f, 0xff, 0xff]);
    assert_eq!(signed(8388608), vec![0x00, 0x80, 0x00, 0x00]);
    assert_eq!(signed(-8388608), vec![0x80, 0x00, 0x00]);
    assert_eq!(signed(-8388609), vec![0xff, 0x7f, 0xff, 0xff]);
    assert_eq!(signed(i32::MAX), vec![0x7f, 0xff, 0xff, 0xff]);
    assert_eq!(signed(i32::MIN), vec![0x80, 0x00, 0x00, 0x00]);
}

#[test]
fn content_of_each_type() {
    assert_eq!(content_of(&Null), Vec::<u8>::new());
    assert_eq!(content_of(&Boolean(false)), vec![0]);
    assert_eq!(content_of(&Boolean(true)), vec![1]);
    assert_eq!(content_of(&Unsigned(72)), vec![72]);
    assert_eq!(content_of(&Signed(-2)), vec![0xfe]);
    assert_eq!(content_of(&Real(72.0f32.to_bits())), vec![0x42, 0x90, 0x00, 0x00]);
    assert_eq!(
        content_of(&Double(72.0f64.to_bits())),
        vec![0x40, 0x52, 0x00, 0x00, 0x00, 0x00, 0x00, 0x00]
    );
    assert_eq!(
        content_of(&CharacterString(String::from("This is a BACnet string!"))),
        b"\x00This is a BACnet string!".to_vec()
    );
    assert_eq!(content_of(&CharacterString(String::new())), vec![0]);
    assert_eq!(
        content_of(&CharacterString(String::from("\u{e9}\u{20ac}"))),
        vec![0, 0xc3, 0xa9, 0xe2, 0x82, 0xac]
    );
    assert_eq!(content_of(&Enumerated(0x0100)), vec![0x01, 0x00]);
}

#[test]
fn kinds_and_tag_numbers() {
    let kinds = [
        (PrimitiveKind::Null, 0u8),
        (PrimitiveKind::Boolean, 1),
        (PrimitiveKind::Unsigned, 2),
        (PrimitiveKind::Signed, 3),
        (PrimitiveKind::Real, 4),
        (PrimitiveKind::Double, 5),
        (PrimitiveKind::CharacterString, 7),
        (PrimitiveKind::Enumerated, 9),
    ];
    for (kind, number) in kinds {
        assert_eq!(kind.tag_number(), number);
        assert_eq!(PrimitiveKind::from_tag_number(number), Some(kind));
    }
    for number in [6u8, 8, 10, 11, 12, 13, 14, 15, 255] {
        assert_eq!(PrimitiveKind::from_tag_number(number), None);
    }
    assert_eq!(Null.kind(), PrimitiveKind::Null);
    assert_eq!(Boolean(true).kind(), PrimitiveKind::Boolean);
    assert_eq!(Unsigned(1).kind(), PrimitiveKind::Unsigned);
    assert_eq!(Signed(1).kind(), PrimitiveKind::Signed);
    assert_eq!(Real(1).kind(), PrimitiveKind::Real);
    assert_eq!(Double(1).kind(), PrimitiveKind::Double);
    assert_eq!(CharacterString(String::new()).kind(), PrimitiveKind::CharacterString);
    assert_eq!(Enumerated(1).kind(), PrimitiveKind::Enumerated);
}

#[test]
fn content_cycle() {
    let values = [
        Null,
        Boolean(false),
        Boolean(true),
        Unsigned(0),
        Unsigned(50000),
        Unsigned(u32::MAX),
        Signed(0),
        Signed(-1),
        Signed(-129),
        Signed(i32::MIN),
        Signed(i32::MAX),
        Signed(-8388609),
        Real(0),
        Real((-1.5f32).to_bits()),
        Real(f32::NAN.to_bits()),
        Double(f64::INFINITY.to_bits()),
        Double(u64::MAX),
        Double(0x0102_0304_0506_0708),
        CharacterString(String::new()),
        CharacterString(String::from("caf\u{e9} \u{1f600}")),
        Enumerated(3),
        Enumerated(0x00ff_ff00),
    ];
    for value in values {
        let mut octets = vec![0xee];
        octets.extend(content_of(&value));
        let end = octets.len();
        octets.push(0xee);
        assert_eq!(read_content(value.kind(), &octets, 1, end), Ok(value));
    }
}

#[test]
fn read_content_takes_longer_forms_of_numbers() {
    assert_eq!(read_content(PrimitiveKind::Unsigned, &[0, 0, 0, 1], 0, 4), Ok(Unsigned(1)));
    assert_eq!(read_content(PrimitiveKind::Enumerated, &[0, 5], 0, 2), Ok(Enumerated(5)));
    assert_eq!(read_content(PrimitiveKind::Signed, &[0xff, 0xff, 0xfe], 0, 3), Ok(Signed(-2)));
    assert_eq!(read_content(PrimitiveKind::Signed, &[0x00, 0x00, 0x7f], 0, 3), Ok(Signed(127)));
}

#[test]
fn read_content_of_wrong_length() {
    assert_eq!(read_content(PrimitiveKind::Null, &[0], 0, 1), Err(DecodeError::InvalidLength));
    assert_eq!(read_content(PrimitiveKind::Boolean, &[], 0, 0), Err(DecodeError::InvalidLength));
    assert_eq!(read_content(PrimitiveKind::Boolean, &[0, 0], 0, 2), Err(DecodeError::InvalidLength));
    assert_eq!(read_content(PrimitiveKind::Unsigned, &[], 0, 0), Err(DecodeError::InvalidLength));
    assert_eq!(
        read_content(PrimitiveKind::Unsigned, &[0, 0, 0, 0, 1], 0, 5),
        Err(DecodeError::InvalidLength)
    );
    assert_eq!(read_content(PrimitiveKind::Signed, &[], 0, 0), Err(DecodeError::InvalidLength));
    assert_eq!(read_content(PrimitiveKind::Signed, &[0; 5], 0, 5), Err(DecodeError::InvalidLength));
    assert_eq!(read_content(PrimitiveKind::Enumerated, &[0; 5], 0, 5), Err(DecodeError::InvalidLength));
    assert_eq!(read_content(PrimitiveKind::Real, &[0; 3], 0, 3), Err(DecodeError::InvalidLength));
    assert_eq!(read_content(PrimitiveKind::Real, &[0; 8], 0, 8), Err(DecodeError::InvalidLength));
    assert_eq!(read_content(PrimitiveKind::Double, &[0; 4], 0, 4), Err(DecodeError::InvalidLength));
    assert_eq!(
        read_content(PrimitiveKind::CharacterString, &[], 0, 0),
        Err(DecodeError::InvalidLength)
    );
}

#[test]
fn read_content_of_invalid_boolean() {
    assert_eq!(read_content(PrimitiveKind::Boolean, &[2], 0, 1), Err(DecodeError::InvalidBoolean(2)));
    assert_eq!(
        read_content(PrimitiveKind::Boolean, &[255], 0, 1),
        Err(DecodeError::InvalidBoolean(255))
    );
}

#[test]
fn read_content_of_strings() {
    assert_eq!(
        read_content(PrimitiveKind::CharacterString, b"\x00hello", 0, 6),
        Ok(CharacterString(String::from("hello")))
    );
    assert_eq!(
        read_content(PrimitiveKind::CharacterString, &[0, 0xe2, 0x82, 0xac], 0, 4),
        Ok(CharacterString(String::from("\u{20ac}")))
    );
    assert_eq!(
        read_content(PrimitiveKind::CharacterString, &[4, b'h', b'i'], 0, 3),
        Err(DecodeError::UnsupportedCharset(4))
    );
    assert_eq!(
        read_content(PrimitiveKind::CharacterString, &[0, 0xff, b'i'], 0, 3),
        Err(DecodeError::InvalidUtf8)
    );
    assert_eq!(
        read_content(PrimitiveKind::CharacterString, &[0, 0xe2, 0x82], 0, 3),
        Err(DecodeError::InvalidUtf8)
    );
    assert_eq!(
        read_content(PrimitiveKind::CharacterString, &[0, 0xc0, 0x80], 0, 3),
        Err(DecodeError::InvalidUtf8)
    );
    assert_eq!(
        read_content(PrimitiveKind::CharacterString, &[0, 0xed, 0xa0, 0x80], 0, 4),
        Err(DecodeError::InvalidUtf8)
    );
}

#[test]
fn application_values_octets() {
    assert_eq!(encoded(&vec![ApplicationValue(Null)]), vec![0x00]);
    assert_eq!(encoded(&vec![ApplicationValue(Boolean(false))]), vec![0x10]);
    assert_eq!(encoded(&vec![ApplicationValue(Boolean(true))]), vec![0x11]);
    assert_eq!(encoded(&vec![ApplicationValue(Unsigned(72))]), vec![0x21, 0x48]);
    assert_eq!(encoded(&vec![ApplicationValue(Signed(72))]), vec![0x31, 0x48]);
    assert_eq!(
        encoded(&vec![ApplicationValue(Real(72.0f32.to_bits()))]),
        vec![0x44, 0x42, 0x90, 0x00, 0x00]
    );
    assert_eq!(
        encoded(&vec![ApplicationValue(Double(72.0f64.to_bits()))]),
        vec![0x55, 0x08, 0x40, 0x52, 0x00, 0x00, 0x00, 0x00, 0x00, 0x00]
    );
    assert_eq!(
        encoded(&vec![ApplicationValue(CharacterString(String::from("This is a BACnet string!")))]),
        b"\x75\x19\x00This is a BACnet string!".to_vec()
    );
    assert_eq!(encoded(&vec![ApplicationValue(Enumerated(0))]), vec![0x91, 0x00]);
}

#[test]
fn context_values_octets() {
    assert_eq!(encoded(&vec![ContextValue(3, Null)]), vec![0x38]);
    assert_eq!(encoded(&vec![ContextValue(6, Boolean(true))]), vec![0x69, 0x01]);
    assert_eq!(encoded(&vec![ContextValue(0, Unsigned(256))]), vec![0x0a, 0x01, 0x00]);
    assert_eq!(encoded(&vec![ContextValue(5, Signed(-72))]), vec![0x59, 0xb8]);
    assert_eq!(
        encoded(&vec![ContextValue(0, Real((-33.3f32).to_bits()))]),
        vec![0x0c, 0xc2, 0x05, 0x33, 0x33]
    );
    assert_eq!(
        encoded(&vec![ContextValue(1, Double((-33.3f64).to_bits()))]),
        vec![0x1d, 0x08, 0xc0, 0x40, 0xa6, 0x66, 0x66, 0x66, 0x66, 0x66]
    );
    assert_eq!(
        encoded(&vec![ContextValue(5, CharacterString(String::from("This is a BACnet string!")))]),
        b"\x5d\x19\x00This is a BACnet string!".to_vec()
    );
    assert_eq!(encoded(&vec![ContextValue(9, Enumerated(0))]), vec![0x99, 0x00]);
    assert_eq!(encoded(&vec![ContextValue(27, Unsigned(1))]), vec![0xf9, 27, 0x01]);
}

#[test]
fn nested_sequence_octets() {
    assert_eq!(encoded(&vec![ContextValueSequence(1, vec![])]), vec![0x1e, 0x1f]);
    assert_eq!(
        encoded(&vec![
            ContextValue(0, Unsigned(1)),
            ContextValueSequence(
                1,
                vec![ApplicationValue(Unsigned(2)), ContextValueSequence(40, vec![ContextValue(0, Null)])]
            ),
            ApplicationValue(Boolean(true)),
        ]),
        vec![0x09, 0x01, 0x1e, 0x21, 0x02, 0xfe, 40, 0x08, 0xff, 40, 0x1f, 0x11]
    );
}

#[test]
fn value_encode_appends_to_what_the_buffer_holds() {
    let mut buf = vec![0x77];
    encode_value_sequence(&vec![ContextValue(0, Unsigned(1))], &mut buf);
    encode_value(&ApplicationValue(Null), &mut buf);
    assert_eq!(buf, vec![0x77, 0x09, 0x01, 0x00]);
    let mut empty = vec![0x77];
    encode_value_sequence(&vec![], &mut empty);
    assert_eq!(empty, vec![0x77]);
}

#[test]
fn long_string_octets() {
    let text = "x".repeat(300);
    let octets = encoded(&vec![ContextValue(2, CharacterString(text.clone()))]);
    assert_eq!(&octets[..5], &[0x2d, 254, 0x01, 0x2d, 0x00]);
    assert_eq!(octets.len(), 5 + 300);
    assert_eq!(
        decode_value_sequence(&octets, &vec![primitive(2, PrimitiveKind::CharacterString)]),
        Ok(vec![ContextValue(2, CharacterString(text))])
    );
    let longer = "y".repeat(70000);
    let octets = encoded(&vec![ApplicationValue(CharacterString(longer.clone()))]);
    assert_eq!(&octets[..7], &[0x75, 255, 0x00, 0x01, 0x11, 0x71, 0x00]);
    assert_eq!(decode_value_sequence(&octets, &vec![]), Ok(vec![ApplicationValue(CharacterString(longer))]));
}

#[test]
fn validity_of_values() {
    assert!(value_is_encodable(&ContextValue(254, Unsigned(1))));
    assert!(!value_is_encodable(&ContextValue(255, Unsigned(1))));
    assert!(value_is_encodable(&ApplicationValue(CharacterString(String::from("abc")))));
    assert!(!value_is_encodable(&ContextValueSequence(255, vec![])));
    assert!(!value_is_encodable(&ContextValueSequence(1, vec![ContextValue(255, Null)])));
    assert!(is_encodable(&vec![]));
    assert!(!is_encodable(&vec![
        ApplicationValue(Null),
        ContextValueSequence(1, vec![ContextValueSequence(2, vec![ContextValue(255, Null)])])
    ]));
    assert!(Unsigned(1).is_encodable());
    assert!(CharacterString(String::from("abc")).is_encodable());
}

#[test]
fn find_field_returns_the_first_field_of_the_number() {
    let schema =
        vec![primitive(1, PrimitiveKind::Signed), sequence(2, vec![]), primitive(1, PrimitiveKind::Real)];
    assert_eq!(find_field(&schema, 1), Some(&FieldKind::Primitive(PrimitiveKind::Signed)));
    assert_eq!(find_field(&schema, 2), Some(&FieldKind::Sequence(vec![])));
    assert_eq!(find_field(&schema, 3), None);
    assert_eq!(find_field(&vec![], 0), None);
}

#[test]
fn sequence_cycle() {
    let schema: Schema = vec![
        primitive(0, PrimitiveKind::Unsigned),
        primitive(1, PrimitiveKind::Signed),
        primitive(2, PrimitiveKind::CharacterString),
        sequence(
            3,
            vec![
                primitive(0, PrimitiveKind::Boolean),
                primitive(1, PrimitiveKind::Null),
                sequence(200, vec![primitive(3, PrimitiveKind::Double)]),
            ],
        ),
        primitive(4, PrimitiveKind::Real),
        primitive(100, PrimitiveKind::Enumerated),
    ];
    let sequences: [ValueSequence; 4] = [
        vec![],
        vec![ContextValue(0, Unsigned(1)), ContextValue(1, Signed(-50000))],
        vec![
            ApplicationValue(CharacterString(String::from("out of schema"))),
            ContextValue(2, CharacterString(String::from("\u{4e2d}\u{6587}"))),
            ContextValueSequence(
                3,
                vec![
                    ContextValue(0, Boolean(true)),
                    ContextValue(1, Null),
                    ContextValueSequence(200, vec![]),
                    ContextValueSequence(
                        200,
                        vec![ContextValue(3, Double(1.25f64.to_bits())), ApplicationValue(Signed(-1))],
                    ),
                    ApplicationValue(Boolean(false)),
                ],
            ),
            ContextValue(4, Real(1.25f32.to_bits())),
            ContextValue(100, Enumerated(65536)),
            ContextValue(0, Unsigned(0)),
        ],
        vec![
            ApplicationValue(Null),
            ApplicationValue(Boolean(true)),
            ApplicationValue(Unsigned(16777216)),
            ApplicationValue(Signed(i32::MIN)),
            ApplicationValue(Real(u32::MAX)),
            ApplicationValue(Double(0)),
            ApplicationValue(Enumerated(9)),
        ],
    ];
    for items in sequences {
        assert_eq!(decode_value_sequence(&encoded(&items), &schema), Ok(items));
    }
}

#[test]
fn decode_goes_by_the_schema() {
    let octets = [0x09, 0x01];
    assert_eq!(
        decode_value_sequence(&octets, &vec![primitive(0, PrimitiveKind::Unsigned)]),
        Ok(vec![ContextValue(0, Unsigned(1))])
    );
    assert_eq!(
        decode_value_sequence(&octets, &vec![primitive(0, PrimitiveKind::Enumerated)]),
        Ok(vec![ContextValue(0, Enumerated(1))])
    );
    assert_eq!(
        decode_value_sequence(&octets, &vec![primitive(0, PrimitiveKind::Signed)]),
        Ok(vec![ContextValue(0, Signed(1))])
    );
    assert_eq!(
        decode_value_sequence(&octets, &vec![primitive(0, PrimitiveKind::Boolean)]),
        Ok(vec![ContextValue(0, Boolean(true))])
    );
    assert_eq!(
        decode_value_sequence(&octets, &vec![primitive(0, PrimitiveKind::Real)]),
        Err(DecodeError::InvalidLength)
    );
}

#[test]
fn decode_of_unexpected_context() {
    assert_eq!(decode_value_sequence(&[0x09, 0x01], &vec![]), Err(DecodeError::UnexpectedContext(0)));
    assert_eq!(
        decode_value_sequence(&[0x09, 0x01], &vec![sequence(0, vec![])]),
        Err(DecodeError::UnexpectedContext(0))
    );
    assert_eq!(
        decode_value_sequence(&[0x0e, 0x0f], &vec![primitive(0, PrimitiveKind::Null)]),
        Err(DecodeError::UnexpectedContext(0))
    );
    assert_eq!(
        decode_value_sequence(
            &[0x0e, 0x09, 0x01, 0x0f],
            &vec![primitive(0, PrimitiveKind::Unsigned), sequence(0, vec![])]
        ),
        Err(DecodeError::UnexpectedContext(0))
    );
    assert_eq!(
        decode_value_sequence(
            &[0x1e, 0x19, 0x01, 0x1f],
            &vec![primitive(1, PrimitiveKind::Unsigned), sequence(1, vec![])]
        ),
        Err(DecodeError::UnexpectedContext(1))
    );
}

#[test]
fn decode_of_truncated_octets() {
    let schema = vec![primitive(0, PrimitiveKind::Unsigned), sequence(1, vec![])];
    assert_eq!(decode_value_sequence(&[0x0a, 0x01], &schema), Err(DecodeError::Truncated));
    assert_eq!(decode_value_sequence(&[0xf9], &schema), Err(DecodeError::Truncated));
    assert_eq!(decode_value_sequence(&[0x0d], &schema), Err(DecodeError::Truncated));
    assert_eq!(decode_value_sequence(&[0x0d, 254, 0x00], &schema), Err(DecodeError::Truncated));
    assert_eq!(
        decode_value_sequence(&[0x0d, 255, 0xff, 0xff, 0xff, 0xff, 0x00], &schema),
        Err(DecodeError::Truncated)
    );
    assert_eq!(decode_value_sequence(&[0x1e], &schema), Err(DecodeError::Truncated));
    assert_eq!(decode_value_sequence(&[0x1e, 0x00], &schema), Err(DecodeError::Truncated));
    assert_eq!(decode_value_sequence(&[0x75, 0x03, 0x00, b'a'], &schema), Err(DecodeError::Truncated));
}

#[test]
fn decode_of_malformed_tags() {
    assert_eq!(decode_value_sequence(&[0xf9, 255, 0x00], &vec![]), Err(DecodeError::MalformedTag));
    assert_eq!(decode_value_sequence(&[0x26], &vec![]), Err(DecodeError::MalformedTag));
    assert_eq!(decode_value_sequence(&[0x27], &vec![]), Err(DecodeError::MalformedTag));
}

#[test]
fn decode_of_unknown_application_tags() {
    assert_eq!(
        decode_value_sequence(&[0x61, 0x00], &vec![]),
        Err(DecodeError::UnknownApplicationTag(6))
    );
    assert_eq!(
        decode_value_sequence(&[0xc4, 0, 0, 0, 0], &vec![]),
        Err(DecodeError::UnknownApplicationTag(12))
    );
    assert_eq!(
        decode_value_sequence(&[0xf1, 0x20, 0x00], &vec![]),
        Err(DecodeError::UnknownApplicationTag(32))
    );
}

#[test]
fn decode_of_unexpected_closing_tags() {
    let schema = vec![sequence(1, vec![sequence(2, vec![])])];
    assert_eq!(decode_value_sequence(&[0x1f], &schema), Err(DecodeError::UnexpectedClosing(1)));
    assert_eq!(
        decode_value_sequence(&[0x1e, 0x2f], &schema),
        Err(DecodeError::UnexpectedClosing(2))
    );
    assert_eq!(
        decode_value_sequence(&[0x1e, 0x2e, 0x1f, 0x2f], &schema),
        Err(DecodeError::UnexpectedClosing(1))
    );
    assert_eq!(
        decode_value_sequence(&[0x1e, 0x1f, 0x1f], &schema),
        Err(DecodeError::UnexpectedClosing(1))
    );
}

#[test]
fn decode_of_invalid_application_boolean() {
    assert_eq!(decode_value_sequence(&[0x12], &vec![]), Err(DecodeError::InvalidBoolean(2)));
    assert_eq!(decode_value_sequence(&[0x15, 0x00], &vec![]), Err(DecodeError::InvalidBoolean(5)));
}

#[test]
fn decode_of_invalid_content() {
    let schema = vec![
        primitive(0, PrimitiveKind::Boolean),
        primitive(1, PrimitiveKind::CharacterString),
        primitive(2, PrimitiveKind::Unsigned),
    ];
    assert_eq!(decode_value_sequence(&[0x09, 0x02], &schema), Err(DecodeError::InvalidBoolean(2)));
    assert_eq!(
        decode_value_sequence(&[0x1a, 0x01, b'a'], &schema),
        Err(DecodeError::UnsupportedCharset(1))
    );
    assert_eq!(decode_value_sequence(&[0x1a, 0x00, 0x80], &schema), Err(DecodeError::InvalidUtf8));
    assert_eq!(decode_value_sequence(&[0x28], &schema), Err(DecodeError::InvalidLength));
    assert_eq!(
        decode_value_sequence(&[0x2d, 0x05, 0, 0, 0, 0, 1], &schema),
        Err(DecodeError::InvalidLength)
    );
    assert_eq!(decode_value_sequence(&[0x43, 0, 0, 0], &schema), Err(DecodeError::InvalidLength));
}

#[test]
fn decode_is_bounded_by_the_schema_in_depth() {
    let mut octets = vec![0x0e; 10000];
    octets.extend(vec![0x0f; 10000]);
    let schema = vec![sequence(0, vec![sequence(0, vec![sequence(0, vec![])])])];
    assert_eq!(decode_value_sequence(&octets, &schema), Err(DecodeError::UnexpectedContext(0)));
    assert_eq!(
        decode_value_sequence(&[0x0e, 0x0e, 0x0e, 0x0f, 0x0f, 0x0f], &schema),
        Ok(vec![ContextValueSequence(
            0,
            vec![ContextValueSequence(0, vec![ContextValueSequence(0, vec![])])]
        )])
    );
}

#[test]
fn decode_of_arbitrary_octets_gives_a_value_or_an_error() {
    let schema = vec![
        primitive(0, PrimitiveKind::Unsigned),
        primitive(1, PrimitiveKind::CharacterString),
        sequence(2, vec![primitive(0, PrimitiveKind::Signed)]),
    ];
    let mut state: u32 = 0x1234_5678;
    for _ in 0..2000 {
        let mut octets = Vec::new();
        for _ in 0..(state % 12) {
            state = state.wrapping_mul(1664525).wrapping_add(1013904223);
            octets.push((state >> 24) as u8);
        }
        state = state.wrapping_mul(1664525).wrapping_add(1013904223);
        if let Ok(items) = decode_value_sequence(&octets, &schema) {
            assert!(is_encodable(&items));
            assert_eq!(decode_value_sequence(&encoded(&items), &schema), Ok(items));
        }
    }
}

#[test]
fn primitive_value_of_bits_keeps_the_float() {
    let value: PrimitiveValue = Real(1.5f32.to_bits());
    match value {
        Real(bits) => assert_eq!(f32::from_bits(bits), 1.5f32),
        _ => unreachable!(),
    }
}
