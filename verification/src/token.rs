//! The lexical units that a failure can name, and the descriptions of what
//! the reader wanted in their place.

use vstd::prelude::*;
use vstd::string::*;

verus! {

/// A lexical unit of the format. A failure only ever compares tokens and
/// prints their names.
#[derive(Clone, Copy, Debug, PartialEq, Eq, Structural)]
pub enum Token {
    Comment,
    Eol,
    Equals,
    Period,
    Comma,
    BracketOpen,
    BracketClose,
    BraceOpen,
    BraceClose,
    Bool,
    Integer,
    Float,
    BareString,
    QuotedString,
}

impl Token {
    /// The token's name as text: what `{:?}` prints for it.
    pub open spec fn debug_text(self) -> Seq<char> {
        match self {
            Token::Comment => "Comment"@,
            Token::Eol => "Eol"@,
            Token::Equals => "Equals"@,
            Token::Period => "Period"@,
            Token::Comma => "Comma"@,
            Token::BracketOpen => "BracketOpen"@,
            Token::BracketClose => "BracketClose"@,
            Token::BraceOpen => "BraceOpen"@,
            Token::BraceClose => "BraceClose"@,
            Token::Bool => "Bool"@,
            Token::Integer => "Integer"@,
            Token::Float => "Float"@,
            Token::BareString => "BareString"@,
            Token::QuotedString => "QuotedString"@,
        }
    }

    /// The token's name.
    pub fn name(&self) -> (s: &'static str)
        ensures
            s@ == self.debug_text(),
    {
        match self {
            Token::Comment => "Comment",
            Token::Eol => "Eol",
            Token::Equals => "Equals",
            Token::Period => "Period",
            Token::Comma => "Comma",
            Token::BracketOpen => "BracketOpen",
            Token::BracketClose => "BracketClose",
            Token::BraceOpen => "BraceOpen",
            Token::BraceClose => "BraceClose",
            Token::Bool => "Bool",
            Token::Integer => "Integer",
            Token::Float => "Float",
            Token::BareString => "BareString",
            Token::QuotedString => "QuotedString",
        }
    }
}

/// What the reader wanted where it met a token that it could not use.
#[derive(Clone, Copy, Debug, PartialEq, Eq, Structural)]
#[non_exhaustive]
pub enum Expected {
    /// One particular token.
    Token(Token),
    /// The start of a new line.
    LineStart,
    /// Any value.
    Value,
    /// A boolean.
    Bool,
    /// A string.
    String,
    /// The start of a map.
    MapStart,
    /// The start of a sequence.
    SeqStart,
    /// The end of the line or of the input.
    EolOrEof,
    /// The name of an enum's variant.
    Enum,
}

impl Expected {
    /// The description as text: what `{:?}` prints for it.
    pub open spec fn debug_text(self) -> Seq<char> {
        match self {
            Expected::Token(t) => "Token("@ + t.debug_text() + ")"@,
            Expected::LineStart => "LineStart"@,
            Expected::Value => "Value"@,
            Expected::Bool => "Bool"@,
            Expected::String => "String"@,
            Expected::MapStart => "MapStart"@,
            Expected::SeqStart => "SeqStart"@,
            Expected::EolOrEof => "EolOrEof"@,
            Expected::Enum => "Enum"@,
        }
    }

    /// Appends the description's text to `out`.
    pub fn write_name(&self, out: &mut String)
        ensures
            final(out)@ == old(out)@ + self.debug_text(),
    {
        match self {
            Expected::Token(t) => {
                out.append("Token(");
                out.append(t.name());
                out.append(")");
                assert(out@ =~= old(out)@ + self.debug_text());
            },
            Expected::LineStart => out.append("LineStart"),
            Expected::Value => out.append("Value"),
            Expected::Bool => out.append("Bool"),
            Expected::String => out.append("String"),
            Expected::MapStart => out.append("MapStart"),
            Expected::SeqStart => out.append("SeqStart"),
            Expected::EolOrEof => out.append("EolOrEof"),
            Expected::Enum => out.append("Enum"),
        }
    }
}

} // verus!
