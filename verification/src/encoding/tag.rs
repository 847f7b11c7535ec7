//! Tags and lengths.
//!
//! The first octet of a tag holds the tag number in bits 7 to 4, the class in
//! bit 3 and, in bits 2 to 0, the length of the content or a marker. A number
//! above 14 is written as 15 and stands in the next octet. A length above 4 is
//! written as 5 and stands in the octets that follow: in one octet up to 253,
//! after an octet 254 in two, and after an octet 255 in four.

use crate::bytes::{
    be16, be32, from_be16, from_be32, lemma_be32_round_trip, push_be16, push_be32, read_be16,
    read_be32,
};
use crate::encoding::DecodeError;
use vstd::prelude::*;

verus! {

/// The greatest tag number that can be written.
pub const MAX_TAG_NUMBER: u8 = 254;

/// The value of the number field that says that the number follows.
pub const EXTENDED_NUMBER: u8 = 15;

/// The value of the length field that says that the length follows.
pub const LVT_EXTENDED: u8 = 5;

/// The value of the length field that marks an opening tag.
pub const LVT_OPENING: u8 = 6;

/// The value of the length field that marks a closing tag.
pub const LVT_CLOSING: u8 = 7;

/// The greatest length of content that can be written.
pub const MAX_CONTENT_LEN: usize = 0xffff_ffff;

/// A tag: its number, whether its class is context rather than application,
/// and its three low bits.
#[derive(Debug, Clone, Copy, PartialEq, Eq, Structural)]
pub struct Tag {
    pub number: u8,
    pub context: bool,
    pub lvt: u8,
}

impl Tag {
    /// The tag can be written: its number is not the reserved one and its low
    /// bits are three bits.
    pub open spec fn wf(self) -> bool {
        self.number <= MAX_TAG_NUMBER && self.lvt < 8
    }

    /// The class bit and the low bits, as they stand in the first octet.
    pub open spec fn low_bits(self) -> int {
        (if self.context {
            8int
        } else {
            0int
        }) + self.lvt
    }
}

/// The octets of a tag.
pub open spec fn tag_octets(tag: Tag) -> Seq<u8> {
    if tag.number < EXTENDED_NUMBER {
        seq![(tag.number * 16 + tag.low_bits()) as u8]
    } else {
        seq![(EXTENDED_NUMBER * 16 + tag.low_bits()) as u8, tag.number]
    }
}

/// The tag at the start of `input` and the number of octets it takes.
pub open spec fn parse_tag(input: Seq<u8>) -> Result<(Tag, int), DecodeError> {
    if input.len() == 0 {
        Err(DecodeError::Truncated)
    } else if input[0] / 16 < EXTENDED_NUMBER {
        Ok((Tag { number: input[0] / 16, context: (input[0] / 8) % 2 == 1, lvt: input[0] % 8 }, 1))
    } else if input.len() < 2 {
        Err(DecodeError::Truncated)
    } else if input[1] > MAX_TAG_NUMBER {
        Err(DecodeError::MalformedTag)
    } else {
        Ok((Tag { number: input[1], context: (input[0] / 8) % 2 == 1, lvt: input[0] % 8 }, 2))
    }
}

/// The low bits of the tag of a value whose content has `len` octets.
pub open spec fn length_lvt(len: nat) -> u8 {
    if len < LVT_EXTENDED {
        len as u8
    } else {
        LVT_EXTENDED
    }
}

/// The octets that state a length after the tag, where the tag cannot hold
/// it.
pub open spec fn length_extension(len: nat) -> Seq<u8> {
    if len < LVT_EXTENDED {
        Seq::empty()
    } else if len < 254 {
        seq![len as u8]
    } else if len < 0x1_0000 {
        seq![254u8] + be16(len as u16)
    } else {
        seq![255u8] + be32(len as u32)
    }
}

/// The length that a tag with the low bits `lvt` states, with the octets
/// `input` after the tag, and the number of those octets that state it.
/// `None` says that the octets end before the length does.
pub open spec fn parse_length(lvt: u8, input: Seq<u8>) -> Option<(nat, int)> {
    if lvt < LVT_EXTENDED {
        Some((lvt as nat, 0))
    } else if input.len() < 1 {
        None
    } else if input[0] < 254 {
        Some((input[0] as nat, 1))
    } else if input[0] == 254 {
        if input.len() < 3 {
            None
        } else {
            Some((from_be16(input[1], input[2]) as nat, 3))
        }
    } else {
        if input.len() < 5 {
            None
        } else {
            Some((from_be32(input[1], input[2], input[3], input[4]) as nat, 5))
        }
    }
}

/// The tag and the length of a value with content of `len` octets.
pub open spec fn header_octets(number: u8, context: bool, len: nat) -> Seq<u8> {
    tag_octets(Tag { number, context, lvt: length_lvt(len) }) + length_extension(len)
}

/// Appends the octets of `tag` to `buf`.
pub fn write_tag(buf: &mut Vec<u8>, tag: Tag)
    requires
        tag.wf(),
    ensures
        final(buf)@ == old(buf)@ + tag_octets(tag),
{
    let low: u8 = if tag.context {
        8 + tag.lvt
    } else {
        tag.lvt
    };
    if tag.number < EXTENDED_NUMBER {
        buf.push(tag.number * 16 + low);
    } else {
        buf.push(EXTENDED_NUMBER * 16 + low);
        buf.push(tag.number);
    }
    assert(buf@ =~= old(buf)@ + tag_octets(tag));
}

/// Appends the tag and the length of a value with content of `len` octets.
pub fn write_header(buf: &mut Vec<u8>, number: u8, context: bool, len: usize)
    requires
        number <= MAX_TAG_NUMBER,
        len <= MAX_CONTENT_LEN,
    ensures
        final(buf)@ == old(buf)@ + header_octets(number, context, len as nat),
{
    if len < 5 {
        write_tag(buf, Tag { number, context, lvt: len as u8 });
    } else {
        write_tag(buf, Tag { number, context, lvt: LVT_EXTENDED });
        if len < 254 {
            buf.push(len as u8);
        } else if len < 0x1_0000 {
            buf.push(254);
            push_be16(buf, len as u16);
        } else {
            buf.push(255);
            push_be32(buf, len as u32);
        }
    }
    assert(buf@ =~= old(buf)@ + header_octets(number, context, len as nat));
}

/// Reads the tag that starts at `at`. On success the second component is the
/// place where the tag ends.
pub fn read_tag(bytes: &[u8], at: usize) -> (r: Result<(Tag, usize), DecodeError>)
    requires
        at <= bytes@.len(),
    ensures
        match r {
            Ok((tag, next)) => parse_tag(bytes@.skip(at as int)) == Ok::<(Tag, int), DecodeError>(
                (tag, next - at),
            ) && at < next <= bytes@.len() && tag.wf(),
            Err(e) => parse_tag(bytes@.skip(at as int)) == Err::<(Tag, int), DecodeError>(e),
        },
{
    if at >= bytes.len() {
        return Err(DecodeError::Truncated);
    }
    let first: u8 = bytes[at];
    let context = (first / 8) % 2 == 1;
    let lvt: u8 = first % 8;
    if first / 16 < EXTENDED_NUMBER {
        return Ok((Tag { number: first / 16, context, lvt }, at + 1));
    }
    if bytes.len() - at < 2 {
        return Err(DecodeError::Truncated);
    }
    let number: u8 = bytes[at + 1];
    if number > MAX_TAG_NUMBER {
        return Err(DecodeError::MalformedTag);
    }
    Ok((Tag { number, context, lvt }, at + 2))
}

/// Reads the length that a tag with the low bits `lvt` states, where the tag
/// ends at `at`. On success the components are the length and the place where
/// the content starts.
pub fn read_length(bytes: &[u8], at: usize, lvt: u8) -> (r: Option<(usize, usize)>)
    requires
        at <= bytes@.len(),
    ensures
        match r {
            Some((len, next)) => parse_length(lvt, bytes@.skip(at as int)) == Some(
                (len as nat, next - at),
            ) && at <= next <= bytes@.len() && len <= MAX_CONTENT_LEN,
            None => parse_length(lvt, bytes@.skip(at as int)) is None,
        },
{
    if lvt < LVT_EXTENDED {
        return Some((lvt as usize, at));
    }
    let left: usize = bytes.len() - at;
    if left < 1 {
        return None;
    }
    let first: u8 = bytes[at];
    if first < 254 {
        Some((first as usize, at + 1))
    } else if first == 254 {
        if left < 3 {
            return None;
        }
        Some((read_be16(bytes, at + 1) as usize, at + 3))
    } else {
        if left < 5 {
            return None;
        }
        Some((read_be32(bytes, at + 1) as usize, at + 5))
    }
}

/// Reading the octets of a tag gives the tag back, whatever follows them.
pub proof fn lemma_tag_round_trip(tag: Tag, tail: Seq<u8>)
    requires
        tag.wf(),
    ensures
        parse_tag(tag_octets(tag) + tail) == Ok::<(Tag, int), DecodeError>(
            (tag, tag_octets(tag).len() as int),
        ),
{
    let input = tag_octets(tag) + tail;
    assert(input[0] == tag_octets(tag)[0]);
    if tag.number >= EXTENDED_NUMBER {
        assert(input[1] == tag.number);
    }
}

/// Reading the octets of a length gives the length back, whatever follows
/// them.
pub proof fn lemma_length_round_trip(len: nat, tail: Seq<u8>)
    requires
        len <= MAX_CONTENT_LEN,
    ensures
        parse_length(length_lvt(len), length_extension(len) + tail) == Some(
            (len, length_extension(len).len() as int),
        ),
{
    let ext = length_extension(len);
    let input = ext + tail;
    if len >= LVT_EXTENDED {
        assert(input[0] == ext[0]);
        if len >= 254 {
            assert(input[1] == ext[1]);
            assert(input[2] == ext[2]);
            if len >= 0x1_0000 {
                assert(input[3] == ext[3]);
                assert(input[4] == ext[4]);
                lemma_be32_round_trip(len as u32);
            }
        }
    }
}

} // verus!
