//! The kinds of failure, how each one prints, and when two are equal.

use crate::cause::{
    float_error_debug, float_error_text, int_error_debug, int_error_text, same_float_error,
    same_int_error,
};
use crate::token::{Expected, Token};
use crate::sink::Sink;
use vstd::prelude::*;
use vstd::slice::*;
use vstd::std_specs::cmp::PartialEqSpecImpl;
use vstd::string::*;
use vstd::utf8::*;

verus! {

/// `core::str::Utf8Error`, of which only its presence is used.
#[verifier::external_type_specification]
#[verifier::external_body]
pub struct ExUtf8Error(core::str::Utf8Error);

/// `core::str::from_utf8` accepts exactly the byte strings that are valid
/// UTF-8, and the text it returns has those bytes.
pub assume_specification[ core::str::from_utf8 ](v: &[u8]) -> (r: Result<
    &str,
    core::str::Utf8Error,
>)
    ensures
        r is Ok <==> valid_utf8(v@),
        r is Ok ==> r->Ok_0.spec_bytes() == v@,
;

/// The number of bytes that a custom message can hold.
pub const MESSAGE_CAPACITY: usize = 64;

/// What went wrong.
#[derive(Debug)]
#[non_exhaustive]
pub enum ErrorKind {
    /// The lexer could not classify the bytes under it.
    UnknownToken,
    /// A token stood where another one, or another category, was required.
    UnexpectedToken(Token, Expected),
    /// An integer literal that did not convert.
    InvalidInteger(core::num::ParseIntError),
    /// A float literal that did not convert.
    InvalidFloat(core::num::ParseFloatError),
    /// A table was declared more than once.
    TableAlreadyDefined,
    /// Input was left over after a complete document.
    TrailingCharacters,
    /// A required token was absent.
    MissingToken,
    /// A free-form message: a buffer and the length of its valid prefix.
    Custom([u8; 64], usize),
    /// A lexical failure that no other kind describes.
    FailedToLex,
}

impl ErrorKind {
    /// A custom message is well formed when its length lies within the buffer
    /// and the prefix of that length is valid UTF-8. Every other kind is
    /// always well formed.
    pub open spec fn wf(self) -> bool {
        match self {
            ErrorKind::Custom(bytes, len) => {
                &&& len <= MESSAGE_CAPACITY
                &&& valid_utf8(bytes@.subrange(0, len as int))
            },
            _ => true,
        }
    }

    /// The one-line message of a kind.
    pub open spec fn message_text(self) -> Seq<char> {
        match self {
            ErrorKind::UnknownToken => Seq::<char>::empty(),
            ErrorKind::UnexpectedToken(token, expected) => "UnexpectedToken: "@
                + token.debug_text() + " - expected: "@ + expected.debug_text(),
            ErrorKind::InvalidInteger(cause) => "Failed to parse int: "@ + int_error_debug(cause),
            ErrorKind::InvalidFloat(cause) => "Failed to parse float: "@ + float_error_debug(
                cause,
            ),
            ErrorKind::TableAlreadyDefined => "Table already defined"@,
            ErrorKind::TrailingCharacters => "Trailing characters"@,
            ErrorKind::MissingToken => "Missing token"@,
            ErrorKind::Custom(bytes, len) => decode_utf8(bytes@.subrange(0, len as int)),
            ErrorKind::FailedToLex => "Failed to lex"@,
        }
    }

    /// The sink that the buffer and length of a custom message describe.
    pub open spec fn stored(self) -> Sink
        recommends
            self is Custom,
    {
        Sink { bytes: self->Custom_0@, len: self->Custom_1 as nat }
    }

    /// Whether the kind is well formed.
    pub fn is_wf(&self) -> (r: bool)
        ensures
            r == self.wf(),
    {
        match self {
            ErrorKind::Custom(bytes, len) => {
                if *len > MESSAGE_CAPACITY {
                    return false;
                }
                let prefix = slice_subrange(bytes.as_slice(), 0, *len);
                core::str::from_utf8(prefix).is_ok()
            },
            _ => true,
        }
    }

    /// Renders the kind as its one-line message.
    pub fn message(&self) -> (s: String)
        requires
            self.wf(),
        ensures
            s@ == self.message_text(),
    {
        match self {
            ErrorKind::UnknownToken => {
                proof {
                    reveal_strlit("");
                }
                let out = String::from_str("");
                assert(out@ =~= Seq::<char>::empty());
                out
            },
            ErrorKind::UnexpectedToken(token, expected) => {
                let mut out = String::from_str("UnexpectedToken: ");
                out.append(token.name());
                out.append(" - expected: ");
                expected.write_name(&mut out);
                assert(out@ =~= self.message_text());
                out
            },
            ErrorKind::InvalidInteger(cause) => {
                let text = int_error_text(cause);
                int_failure_text(text.as_str())
            },
            ErrorKind::InvalidFloat(cause) => {
                let text = float_error_text(cause);
                float_failure_text(text.as_str())
            },
            ErrorKind::TableAlreadyDefined => String::from_str("Table already defined"),
            ErrorKind::TrailingCharacters => String::from_str("Trailing characters"),
            ErrorKind::MissingToken => String::from_str("Missing token"),
            ErrorKind::Custom(bytes, len) => {
                let prefix = slice_subrange(bytes.as_slice(), 0, *len);
                match core::str::from_utf8(prefix) {
                    Ok(text) => {
                        proof {
                            encode_utf8_decode_utf8(text@);
                        }
                        String::from_str(text)
                    },
                    Err(_) => {
                        proof {
                            assert(false);
                        }
                        String::from_str("")
                    },
                }
            },
            ErrorKind::FailedToLex => String::from_str("Failed to lex"),
        }
    }
}

/// The message of an integer literal that did not convert, given the text
/// that `{:?}` prints for the cause.
pub fn int_failure_text(debug: &str) -> (s: String)
    ensures
        s@ == "Failed to parse int: "@ + debug@,
{
    let out = String::from_str("Failed to parse int: ");
    out.concat(debug)
}

/// The message of a float literal that did not convert, given the text that
/// `{:?}` prints for the cause.
pub fn float_failure_text(debug: &str) -> (s: String)
    ensures
        s@ == "Failed to parse float: "@ + debug@,
{
    let out = String::from_str("Failed to parse float: ");
    out.concat(debug)
}

/// An empty message buffer: all zero, nothing written.
pub open spec fn blank() -> Sink {
    Sink { bytes: Seq::new(MESSAGE_CAPACITY as nat, |i: int| 0u8), len: 0 }
}

/// Whether two message buffers hold the same bytes.
fn same_bytes(a: &[u8; 64], b: &[u8; 64]) -> (r: bool)
    ensures
        r == (*a == *b),
{
    let mut i: usize = 0;
    while i < 64
        invariant
            i <= 64,
            forall|k: int| 0 <= k < i ==> a[k] == b[k],
        decreases 64 - i,
    {
        if a[i] != b[i] {
            return false;
        }
        i += 1;
    }
    assert(*a =~= *b);
    true
}

impl Clone for ErrorKind {
    /// A copy that is equal to the kind in every part.
    fn clone(&self) -> (r: Self)
        ensures
            r == *self,
    {
        match self {
            ErrorKind::UnknownToken => ErrorKind::UnknownToken,
            ErrorKind::UnexpectedToken(token, expected) => ErrorKind::UnexpectedToken(
                *token,
                *expected,
            ),
            ErrorKind::InvalidInteger(cause) => ErrorKind::InvalidInteger(cause.clone()),
            ErrorKind::InvalidFloat(cause) => ErrorKind::InvalidFloat(cause.clone()),
            ErrorKind::TableAlreadyDefined => ErrorKind::TableAlreadyDefined,
            ErrorKind::TrailingCharacters => ErrorKind::TrailingCharacters,
            ErrorKind::MissingToken => ErrorKind::MissingToken,
            ErrorKind::Custom(bytes, len) => ErrorKind::Custom(*bytes, *len),
            ErrorKind::FailedToLex => ErrorKind::FailedToLex,
        }
    }
}

impl PartialEq for ErrorKind {
    /// Two kinds are equal when they are the same variant with equal
    /// contents. Custom messages compare by the whole buffer and the length.
    fn eq(&self, other: &Self) -> (r: bool) {
        match (self, other) {
            (ErrorKind::UnknownToken, ErrorKind::UnknownToken) => true,
            (ErrorKind::UnexpectedToken(t1, e1), ErrorKind::UnexpectedToken(t2, e2)) => *t1 == *t2
                && *e1 == *e2,
            (ErrorKind::InvalidInteger(a), ErrorKind::InvalidInteger(b)) => same_int_error(a, b),
            (ErrorKind::InvalidFloat(a), ErrorKind::InvalidFloat(b)) => same_float_error(a, b),
            (ErrorKind::TableAlreadyDefined, ErrorKind::TableAlreadyDefined) => true,
            (ErrorKind::TrailingCharacters, ErrorKind::TrailingCharacters) => true,
            (ErrorKind::MissingToken, ErrorKind::MissingToken) => true,
            (ErrorKind::Custom(b1, n1), ErrorKind::Custom(b2, n2)) => *n1 == *n2 && same_bytes(
                b1,
                b2,
            ),
            (ErrorKind::FailedToLex, ErrorKind::FailedToLex) => true,
            _ => false,
        }
    }
}

impl PartialEqSpecImpl for ErrorKind {
    open spec fn obeys_eq_spec() -> bool {
        true
    }

    open spec fn eq_spec(&self, other: &Self) -> bool {
        *self == *other
    }
}

impl Eq for ErrorKind {

}

} // verus!
