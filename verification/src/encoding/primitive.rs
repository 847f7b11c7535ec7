//! The content of primitive values.
//!
//! An unsigned or enumerated number stands in as few octets as hold it, most
//! significant first; a signed number likewise, in two's complement. A real
//! stands in four octets and a double in eight. A character string stands
//! after one octet that names its character set; this codec writes and reads
//! UTF-8, which is character set 0. A boolean with a context tag stands in one
//! octet, 0 or 1; with an application tag it stands in the tag itself.

use crate::ast::{PrimitiveModel, PrimitiveValue};
use crate::bytes::{
    append_bytes, be16, be32, copy_range, from_be32, lemma_be32_round_trip, push_be16, push_be32,
    read_be32,
};
use crate::encoding::tag::MAX_CONTENT_LEN;
use crate::encoding::DecodeError;
use vstd::prelude::*;
use vstd::utf8::{
    decode_utf8, decode_utf8_encode_utf8, encode_utf8, encode_utf8_decode_utf8,
    encode_utf8_valid_utf8, valid_utf8,
};

verus! {

/// The character set of UTF-8.
pub const CHARSET_UTF8: u8 = 0;

/// The primitive types.
#[derive(Debug, Clone, Copy, PartialEq, Eq, Structural)]
pub enum PrimitiveKind {
    Null,
    Boolean,
    Unsigned,
    Signed,
    Real,
    Double,
    CharacterString,
    Enumerated,
}

/// The type of a primitive value.
pub open spec fn kind_of(p: PrimitiveModel) -> PrimitiveKind {
    match p {
        PrimitiveModel::Null => PrimitiveKind::Null,
        PrimitiveModel::Boolean(_) => PrimitiveKind::Boolean,
        PrimitiveModel::Unsigned(_) => PrimitiveKind::Unsigned,
        PrimitiveModel::Signed(_) => PrimitiveKind::Signed,
        PrimitiveModel::Real(_) => PrimitiveKind::Real,
        PrimitiveModel::Double(_) => PrimitiveKind::Double,
        PrimitiveModel::CharacterString(_) => PrimitiveKind::CharacterString,
        PrimitiveModel::Enumerated(_) => PrimitiveKind::Enumerated,
    }
}

/// The number of the application tag of a primitive type.
pub open spec fn application_tag(kind: PrimitiveKind) -> u8 {
    match kind {
        PrimitiveKind::Null => 0,
        PrimitiveKind::Boolean => 1,
        PrimitiveKind::Unsigned => 2,
        PrimitiveKind::Signed => 3,
        PrimitiveKind::Real => 4,
        PrimitiveKind::Double => 5,
        PrimitiveKind::CharacterString => 7,
        PrimitiveKind::Enumerated => 9,
    }
}

/// The primitive type that the number of an application tag names.
pub open spec fn application_kind(number: u8) -> Option<PrimitiveKind> {
    if number == 0 {
        Some(PrimitiveKind::Null)
    } else if number == 1 {
        Some(PrimitiveKind::Boolean)
    } else if number == 2 {
        Some(PrimitiveKind::Unsigned)
    } else if number == 3 {
        Some(PrimitiveKind::Signed)
    } else if number == 4 {
        Some(PrimitiveKind::Real)
    } else if number == 5 {
        Some(PrimitiveKind::Double)
    } else if number == 7 {
        Some(PrimitiveKind::CharacterString)
    } else if number == 9 {
        Some(PrimitiveKind::Enumerated)
    } else {
        None
    }
}

/// The three octets of a number below 2^24, most significant first.
pub open spec fn be24(n: u32) -> Seq<u8> {
    seq![(n / 0x1_0000) as u8, ((n / 256) % 256) as u8, (n % 256) as u8]
}

/// The `len` octets of a number below 256 to the power of `len`, most
/// significant first, for up to four octets.
pub open spec fn fixed_octets(u: int, len: nat) -> Seq<u8> {
    if len == 1 {
        seq![u as u8]
    } else if len == 2 {
        be16(u as u16)
    } else if len == 3 {
        be24(u as u32)
    } else {
        be32(u as u32)
    }
}

/// The number of octets that an unsigned number takes: as few as hold it.
pub open spec fn unsigned_len(n: u32) -> nat {
    if n < 0x100 {
        1
    } else if n < 0x1_0000 {
        2
    } else if n < 0x100_0000 {
        3
    } else {
        4
    }
}

/// The octets of an unsigned number.
pub open spec fn unsigned_octets(n: u32) -> Seq<u8> {
    fixed_octets(n as int, unsigned_len(n))
}

/// The number that up to four octets stand for, most significant first.
pub open spec fn unsigned_value(content: Seq<u8>) -> int {
    if content.len() == 1 {
        content[0] as int
    } else if content.len() == 2 {
        content[0] * 0x100 + content[1]
    } else if content.len() == 3 {
        content[0] * 0x1_0000 + content[1] * 0x100 + content[2]
    } else {
        content[0] * 0x100_0000 + content[1] * 0x1_0000 + content[2] * 0x100 + content[3]
    }
}

/// The number of values that `len` octets can take, for up to four octets.
pub open spec fn modulus(len: nat) -> int {
    if len == 1 {
        0x100
    } else if len == 2 {
        0x1_0000
    } else if len == 3 {
        0x100_0000
    } else {
        0x1_0000_0000
    }
}

/// The number of octets that a signed number takes: as few as hold it in
/// two's complement.
pub open spec fn signed_len(n: i32) -> nat {
    if -0x80 <= n < 0x80 {
        1
    } else if -0x8000 <= n < 0x8000 {
        2
    } else if -0x80_0000 <= n < 0x80_0000 {
        3
    } else {
        4
    }
}

/// The unsigned number with the same octets as `n` in two's complement of
/// `len` octets.
pub open spec fn twos_complement(n: i32, len: nat) -> int {
    if n < 0 {
        n + modulus(len)
    } else {
        n as int
    }
}

/// The octets of a signed number.
pub open spec fn signed_octets(n: i32) -> Seq<u8> {
    fixed_octets(twos_complement(n, signed_len(n)), signed_len(n))
}

/// The signed number that up to four octets stand for in two's complement.
pub open spec fn signed_value(content: Seq<u8>) -> int {
    let u = unsigned_value(content);
    let m = modulus(content.len());
    if 2 * u >= m {
        u - m
    } else {
        u
    }
}

/// The eight octets of `n`, most significant first.
pub open spec fn be64(n: u64) -> Seq<u8> {
    be32((n / 0x1_0000_0000) as u32) + be32((n % 0x1_0000_0000) as u32)
}

/// The content of a primitive value.
pub open spec fn content_octets(p: PrimitiveModel) -> Seq<u8> {
    match p {
        PrimitiveModel::Null => Seq::empty(),
        PrimitiveModel::Boolean(b) => seq![if b { 1u8 } else { 0u8 }],
        PrimitiveModel::Unsigned(n) => unsigned_octets(n),
        PrimitiveModel::Signed(n) => signed_octets(n),
        PrimitiveModel::Real(bits) => be32(bits),
        PrimitiveModel::Double(bits) => be64(bits),
        PrimitiveModel::CharacterString(s) => seq![CHARSET_UTF8] + encode_utf8(s),
        PrimitiveModel::Enumerated(n) => unsigned_octets(n),
    }
}

/// The content of the value is short enough for its length to be written.
/// This holds of every value but a string of four gigabytes.
pub open spec fn encodable(p: PrimitiveModel) -> bool {
    content_octets(p).len() <= MAX_CONTENT_LEN
}

/// The value of the type `kind` that `content` stands for, or the reason why
/// it stands for none.
pub open spec fn parse_content(kind: PrimitiveKind, content: Seq<u8>) -> Result<
    PrimitiveModel,
    DecodeError,
> {
    match kind {
        PrimitiveKind::Null => if content.len() == 0 {
            Ok(PrimitiveModel::Null)
        } else {
            Err(DecodeError::InvalidLength)
        },
        PrimitiveKind::Boolean => if content.len() != 1 {
            Err(DecodeError::InvalidLength)
        } else if content[0] > 1 {
            Err(DecodeError::InvalidBoolean(content[0]))
        } else {
            Ok(PrimitiveModel::Boolean(content[0] == 1))
        },
        PrimitiveKind::Unsigned => if 1 <= content.len() <= 4 {
            Ok(PrimitiveModel::Unsigned(unsigned_value(content) as u32))
        } else {
            Err(DecodeError::InvalidLength)
        },
        PrimitiveKind::Signed => if 1 <= content.len() <= 4 {
            Ok(PrimitiveModel::Signed(signed_value(content) as i32))
        } else {
            Err(DecodeError::InvalidLength)
        },
        PrimitiveKind::Real => if content.len() == 4 {
            Ok(PrimitiveModel::Real(from_be32(content[0], content[1], content[2], content[3])))
        } else {
            Err(DecodeError::InvalidLength)
        },
        PrimitiveKind::Double => if content.len() == 8 {
            Ok(
                PrimitiveModel::Double(
                    (from_be32(content[0], content[1], content[2], content[3]) * 0x1_0000_0000
                        + from_be32(content[4], content[5], content[6], content[7])) as u64,
                ),
            )
        } else {
            Err(DecodeError::InvalidLength)
        },
        PrimitiveKind::CharacterString => if content.len() == 0 {
            Err(DecodeError::InvalidLength)
        } else if content[0] != CHARSET_UTF8 {
            Err(DecodeError::UnsupportedCharset(content[0]))
        } else if !valid_utf8(content.skip(1)) {
            Err(DecodeError::InvalidUtf8)
        } else {
            Ok(PrimitiveModel::CharacterString(decode_utf8(content.skip(1))))
        },
        PrimitiveKind::Enumerated => if 1 <= content.len() <= 4 {
            Ok(PrimitiveModel::Enumerated(unsigned_value(content) as u32))
        } else {
            Err(DecodeError::InvalidLength)
        },
    }
}

/// The content of a value that is no string has at most eight octets.
pub proof fn lemma_short_content(p: PrimitiveModel)
    requires
        !(p is CharacterString),
    ensures
        content_octets(p).len() <= 8,
        encodable(p),
{
}

/// Reading the octets of a number gives the number back.
pub proof fn lemma_fixed_round_trip(u: int, len: nat)
    requires
        1 <= len <= 4,
        0 <= u < modulus(len),
    ensures
        fixed_octets(u, len).len() == len,
        unsigned_value(fixed_octets(u, len)) == u,
{
}

/// Reading the octets of an unsigned number gives the number back.
pub proof fn lemma_unsigned_round_trip(n: u32)
    ensures
        1 <= unsigned_octets(n).len() <= 4,
        unsigned_value(unsigned_octets(n)) == n,
{
    lemma_fixed_round_trip(n as int, unsigned_len(n));
}

/// Reading the octets of a signed number gives the number back.
pub proof fn lemma_signed_round_trip(n: i32)
    ensures
        1 <= signed_octets(n).len() <= 4,
        signed_value(signed_octets(n)) == n,
{
    lemma_fixed_round_trip(twos_complement(n, signed_len(n)), signed_len(n));
}

/// Reading the content of a value as a value of its type gives the value
/// back.
pub proof fn lemma_content_round_trip(p: PrimitiveModel)
    ensures
        parse_content(kind_of(p), content_octets(p)) == Ok::<PrimitiveModel, DecodeError>(p),
{
    match p {
        PrimitiveModel::Unsigned(n) => {
            lemma_unsigned_round_trip(n);
        },
        PrimitiveModel::Enumerated(n) => {
            lemma_unsigned_round_trip(n);
        },
        PrimitiveModel::Signed(n) => {
            lemma_signed_round_trip(n);
        },
        PrimitiveModel::Real(bits) => {
            lemma_be32_round_trip(bits);
        },
        PrimitiveModel::Double(bits) => {
            let hi = (bits / 0x1_0000_0000) as u32;
            let lo = (bits % 0x1_0000_0000) as u32;
            lemma_be32_round_trip(hi);
            lemma_be32_round_trip(lo);
            let content = content_octets(p);
            assert(content[0] == be32(hi)[0] && content[1] == be32(hi)[1] && content[2] == be32(
                hi,
            )[2] && content[3] == be32(hi)[3]);
            assert(content[4] == be32(lo)[0] && content[5] == be32(lo)[1] && content[6] == be32(
                lo,
            )[2] && content[7] == be32(lo)[3]);
        },
        PrimitiveModel::CharacterString(s) => {
            let content = content_octets(p);
            assert(content.skip(1) =~= encode_utf8(s));
            encode_utf8_valid_utf8(s);
            encode_utf8_decode_utf8(s);
        },
        _ => {},
    }
}

impl PrimitiveKind {
    /// The number of the application tag of the type.
    pub fn tag_number(&self) -> (number: u8)
        ensures
            number == application_tag(*self),
    {
        match self {
            PrimitiveKind::Null => 0,
            PrimitiveKind::Boolean => 1,
            PrimitiveKind::Unsigned => 2,
            PrimitiveKind::Signed => 3,
            PrimitiveKind::Real => 4,
            PrimitiveKind::Double => 5,
            PrimitiveKind::CharacterString => 7,
            PrimitiveKind::Enumerated => 9,
        }
    }

    /// The type that the number of an application tag names, if it names one.
    pub fn from_tag_number(number: u8) -> (kind: Option<PrimitiveKind>)
        ensures
            kind == application_kind(number),
    {
        if number == 0 {
            Some(PrimitiveKind::Null)
        } else if number == 1 {
            Some(PrimitiveKind::Boolean)
        } else if number == 2 {
            Some(PrimitiveKind::Unsigned)
        } else if number == 3 {
            Some(PrimitiveKind::Signed)
        } else if number == 4 {
            Some(PrimitiveKind::Real)
        } else if number == 5 {
            Some(PrimitiveKind::Double)
        } else if number == 7 {
            Some(PrimitiveKind::CharacterString)
        } else if number == 9 {
            Some(PrimitiveKind::Enumerated)
        } else {
            None
        }
    }
}

impl PrimitiveValue {
    /// The type of the value.
    pub fn kind(&self) -> (kind: PrimitiveKind)
        ensures
            kind == kind_of(self@),
    {
        match self {
            PrimitiveValue::Null => PrimitiveKind::Null,
            PrimitiveValue::Boolean(_) => PrimitiveKind::Boolean,
            PrimitiveValue::Unsigned(_) => PrimitiveKind::Unsigned,
            PrimitiveValue::Signed(_) => PrimitiveKind::Signed,
            PrimitiveValue::Real(_) => PrimitiveKind::Real,
            PrimitiveValue::Double(_) => PrimitiveKind::Double,
            PrimitiveValue::CharacterString(_) => PrimitiveKind::CharacterString,
            PrimitiveValue::Enumerated(_) => PrimitiveKind::Enumerated,
        }
    }
}

/// Appends the three octets of a number below 2^24 to `buf`.
fn push_be24(buf: &mut Vec<u8>, n: u32)
    requires
        n < 0x100_0000,
    ensures
        final(buf)@ == old(buf)@ + be24(n),
{
    buf.push((n / 0x1_0000) as u8);
    buf.push(((n / 256) % 256) as u8);
    buf.push((n % 256) as u8);
    assert(buf@ =~= old(buf)@ + be24(n));
}

/// Appends the octets of an unsigned number to `buf`.
pub fn push_unsigned(buf: &mut Vec<u8>, n: u32)
    ensures
        final(buf)@ == old(buf)@ + unsigned_octets(n),
{
    if n < 0x100 {
        buf.push(n as u8);
        assert(buf@ =~= old(buf)@ + seq![n as u8]);
    } else if n < 0x1_0000 {
        push_be16(buf, n as u16);
    } else if n < 0x100_0000 {
        push_be24(buf, n);
    } else {
        push_be32(buf, n);
    }
}

/// Appends the octets of a signed number to `buf`.
pub fn push_signed(buf: &mut Vec<u8>, n: i32)
    ensures
        final(buf)@ == old(buf)@ + signed_octets(n),
{
    let wide: i64 = n as i64;
    if -0x80 <= n && n < 0x80 {
        let u: i64 = if wide < 0 {
            wide + 0x100
        } else {
            wide
        };
        assert(signed_len(n) == 1 && u == twos_complement(n, 1));
        buf.push(u as u8);
        assert(buf@ =~= old(buf)@ + seq![u as u8]);
    } else if -0x8000 <= n && n < 0x8000 {
        let u: i64 = if wide < 0 {
            wide + 0x1_0000
        } else {
            wide
        };
        assert(signed_len(n) == 2 && u == twos_complement(n, 2));
        push_be16(buf, u as u16);
    } else if -0x80_0000 <= n && n < 0x80_0000 {
        let u: i64 = if wide < 0 {
            wide + 0x100_0000
        } else {
            wide
        };
        assert(signed_len(n) == 3 && u == twos_complement(n, 3));
        push_be24(buf, u as u32);
    } else {
        let u: i64 = if wide < 0 {
            wide + 0x1_0000_0000
        } else {
            wide
        };
        assert(signed_len(n) == 4 && u == twos_complement(n, 4));
        push_be32(buf, u as u32);
    }
}

/// The content of a primitive value.
pub fn content_of(p: &PrimitiveValue) -> (content: Vec<u8>)
    ensures
        content@ == content_octets(p@),
{
    let mut content: Vec<u8> = Vec::new();
    match p {
        PrimitiveValue::Null => {},
        PrimitiveValue::Boolean(b) => {
            content.push(
                if *b {
                    1
                } else {
                    0
                },
            );
        },
        PrimitiveValue::Unsigned(n) => {
            push_unsigned(&mut content, *n);
        },
        PrimitiveValue::Signed(n) => {
            push_signed(&mut content, *n);
        },
        PrimitiveValue::Real(bits) => {
            push_be32(&mut content, *bits);
        },
        PrimitiveValue::Double(bits) => {
            push_be32(&mut content, (*bits / 0x1_0000_0000) as u32);
            push_be32(&mut content, (*bits % 0x1_0000_0000) as u32);
        },
        PrimitiveValue::CharacterString(s) => {
            content.push(CHARSET_UTF8);
            append_bytes(&mut content, s.as_str().as_bytes());
        },
        PrimitiveValue::Enumerated(n) => {
            push_unsigned(&mut content, *n);
        },
    }
    assert(content@ =~= content_octets(p@));
    content
}

/// Reads up to four octets as a number, most significant first.
fn read_unsigned(bytes: &[u8], from: usize, to: usize) -> (n: u32)
    requires
        from < to <= bytes@.len(),
        to - from <= 4,
    ensures
        n == unsigned_value(bytes@.subrange(from as int, to as int)),
{
    let ghost content = bytes@.subrange(from as int, to as int);
    let mut n: u32 = bytes[from] as u32;
    assert(content[0] == bytes@[from as int]);
    if to - from >= 2 {
        assert(content[1] == bytes@[from + 1]);
        n = n * 0x100 + bytes[from + 1] as u32;
    }
    if to - from >= 3 {
        assert(content[2] == bytes@[from + 2]);
        n = n * 0x100 + bytes[from + 2] as u32;
    }
    if to - from >= 4 {
        assert(content[3] == bytes@[from + 3]);
        n = n * 0x100 + bytes[from + 3] as u32;
    }
    n
}

/// Reads up to four octets as a signed number in two's complement.
fn read_signed(bytes: &[u8], from: usize, to: usize) -> (n: i32)
    requires
        from < to <= bytes@.len(),
        to - from <= 4,
    ensures
        n == signed_value(bytes@.subrange(from as int, to as int)),
{
    let u: i64 = read_unsigned(bytes, from, to) as i64;
    let len: usize = to - from;
    let m: i64 = if len == 1 {
        0x100
    } else if len == 2 {
        0x1_0000
    } else if len == 3 {
        0x100_0000
    } else {
        0x1_0000_0000
    };
    if 2 * u >= m {
        (u - m) as i32
    } else {
        u as i32
    }
}

/// Calls `String::from_utf8` of the standard library. What is stated of it is
/// taken from its documentation and not proved here: the octets make a string
/// if and only if they are UTF-8, and the string is then made of exactly
/// these octets.
#[verifier::external_body]
fn string_from_utf8(bytes: Vec<u8>) -> (r: Option<String>)
    ensures
        r is Some <==> valid_utf8(bytes@),
        r matches Some(s) ==> encode_utf8(s@) == bytes@,
{
    match String::from_utf8(bytes) {
        Ok(s) => Some(s),
        Err(_) => None,
    }
}

/// Reads the octets from `from` up to `to` as the content of a value of the
/// type `kind`.
pub fn read_content(kind: PrimitiveKind, bytes: &[u8], from: usize, to: usize) -> (r: Result<
    PrimitiveValue,
    DecodeError,
>)
    requires
        from <= to <= bytes@.len(),
    ensures
        match r {
            Ok(p) => parse_content(kind, bytes@.subrange(from as int, to as int)) == Ok::<
                PrimitiveModel,
                DecodeError,
            >(p@),
            Err(e) => parse_content(kind, bytes@.subrange(from as int, to as int)) == Err::<
                PrimitiveModel,
                DecodeError,
            >(e),
        },
{
    let ghost content = bytes@.subrange(from as int, to as int);
    let len: usize = to - from;
    match kind {
        PrimitiveKind::Null => {
            if len == 0 {
                Ok(PrimitiveValue::Null)
            } else {
                Err(DecodeError::InvalidLength)
            }
        },
        PrimitiveKind::Boolean => {
            if len != 1 {
                return Err(DecodeError::InvalidLength);
            }
            assert(content[0] == bytes@[from as int]);
            let octet: u8 = bytes[from];
            if octet > 1 {
                Err(DecodeError::InvalidBoolean(octet))
            } else {
                Ok(PrimitiveValue::Boolean(octet == 1))
            }
        },
        PrimitiveKind::Unsigned => {
            if 1 <= len && len <= 4 {
                Ok(PrimitiveValue::Unsigned(read_unsigned(bytes, from, to)))
            } else {
                Err(DecodeError::InvalidLength)
            }
        },
        PrimitiveKind::Signed => {
            if 1 <= len && len <= 4 {
                Ok(PrimitiveValue::Signed(read_signed(bytes, from, to)))
            } else {
                Err(DecodeError::InvalidLength)
            }
        },
        PrimitiveKind::Real => {
            if len != 4 {
                return Err(DecodeError::InvalidLength);
            }
            assert(content[0] == bytes@[from as int] && content[1] == bytes@[from + 1]
                && content[2] == bytes@[from + 2] && content[3] == bytes@[from + 3]);
            Ok(PrimitiveValue::Real(read_be32(bytes, from)))
        },
        PrimitiveKind::Double => {
            if len != 8 {
                return Err(DecodeError::InvalidLength);
            }
            assert(content[0] == bytes@[from as int] && content[1] == bytes@[from + 1]
                && content[2] == bytes@[from + 2] && content[3] == bytes@[from + 3]);
            assert(content[4] == bytes@[from + 4] && content[5] == bytes@[from + 5] && content[6]
                == bytes@[from + 6] && content[7] == bytes@[from + 7]);
            let hi: u64 = read_be32(bytes, from) as u64;
            let lo: u64 = read_be32(bytes, from + 4) as u64;
            Ok(PrimitiveValue::Double(hi * 0x1_0000_0000 + lo))
        },
        PrimitiveKind::CharacterString => {
            if len == 0 {
                return Err(DecodeError::InvalidLength);
            }
            assert(content[0] == bytes@[from as int]);
            let charset: u8 = bytes[from];
            if charset != CHARSET_UTF8 {
                return Err(DecodeError::UnsupportedCharset(charset));
            }
            let octets = copy_range(bytes, from + 1, to);
            assert(octets@ =~= content.skip(1));
            match string_from_utf8(octets) {
                Some(s) => {
                    proof {
                        encode_utf8_decode_utf8(s@);
                    }
                    Ok(PrimitiveValue::CharacterString(s))
                },
                None => Err(DecodeError::InvalidUtf8),
            }
        },
        PrimitiveKind::Enumerated => {
            if 1 <= len && len <= 4 {
                Ok(PrimitiveValue::Enumerated(read_unsigned(bytes, from, to)))
            } else {
                Err(DecodeError::InvalidLength)
            }
        },
    }
}

/// A value that was read from content has the type that was asked for, and
/// its own content is no longer than what it was read from.
pub proof fn lemma_parsed_content(kind: PrimitiveKind, content: Seq<u8>)
    ensures
        parse_content(kind, content) matches Ok(p) ==> kind_of(p) == kind && content_octets(
            p,
        ).len() <= content.len(),
{
    if let Ok(p) = parse_content(kind, content) {
        match p {
            PrimitiveModel::Unsigned(n) => {
                lemma_unsigned_round_trip(n);
                lemma_unsigned_len(content);
            },
            PrimitiveModel::Enumerated(n) => {
                lemma_unsigned_round_trip(n);
                lemma_unsigned_len(content);
            },
            PrimitiveModel::Signed(n) => {
                lemma_signed_len(content);
            },
            PrimitiveModel::CharacterString(s) => {
                decode_utf8_encode_utf8(content.skip(1));
            },
            _ => {},
        }
    }
}

/// The fewest octets of an unsigned number are no more than any octets that
/// stand for it.
proof fn lemma_unsigned_len(content: Seq<u8>)
    requires
        1 <= content.len() <= 4,
    ensures
        0 <= unsigned_value(content) < modulus(content.len()),
        unsigned_octets(unsigned_value(content) as u32).len() <= content.len(),
{
}

/// The fewest octets of a signed number are no more than any octets that
/// stand for it.
proof fn lemma_signed_len(content: Seq<u8>)
    requires
        1 <= content.len() <= 4,
    ensures
        -0x8000_0000 <= signed_value(content) < 0x8000_0000,
        signed_octets(signed_value(content) as i32).len() <= content.len(),
{
    lemma_unsigned_len(content);
}

} // verus!
