//! The tagged encoding of value sequences: how the values of a service
//! message stand on the wire after the APDU header.
//!
//! Every value starts with a tag that holds its class (application or
//! context), its number and the length of its content. The number of an
//! application tag names the primitive type of the content. The number of a
//! context tag names the role of the value in its message and says nothing of
//! the type, so that a reader needs the message's [`schema`] to tell what the
//! content stands for. A nested sequence stands between an opening and a
//! closing tag that carry its context number.

use vstd::prelude::*;

pub mod primitive;
pub mod schema;
pub mod tag;
pub mod value;

verus! {

/// Why octets could not be read as a value sequence.
#[derive(Debug, Clone, Copy, PartialEq, Eq, Structural)]
pub enum DecodeError {
    /// The octets end inside a tag, inside a value, or before the closing tag
    /// of a nested sequence.
    Truncated,
    /// A tag holds the reserved number 255, or an application tag is marked as
    /// an opening or closing tag.
    MalformedTag,
    /// The number of an application tag, carried here, names no primitive type
    /// that this codec knows.
    UnknownApplicationTag(u8),
    /// The schema has no field of this shape for the context number carried
    /// here.
    UnexpectedContext(u8),
    /// A closing tag with the number carried here closes no open sequence.
    UnexpectedClosing(u8),
    /// The content of a value has a length that its type does not have.
    InvalidLength,
    /// The content of a boolean value is neither 0 nor 1.
    InvalidBoolean(u8),
    /// The character set of a string, carried here, is not UTF-8.
    UnsupportedCharset(u8),
    /// The octets of a string are not UTF-8.
    InvalidUtf8,
}

} // verus!
