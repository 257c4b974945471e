//! The failure value itself: a kind and the span of input that it is about.

use crate::kind::{blank, ErrorKind, MESSAGE_CAPACITY};
use crate::sink::{
    joined_text, lemma_all_kept_when_room, lemma_encoding_joins, lemma_run_stops_at_first_refusal,
    lemma_some_cut_when_no_room, lemma_write_all_grows, lemma_write_all_stops_at_first_misfit,
    Latch,
};
use crate::token::{Expected, Token};
use crate::writer::{format_into, part_bytes, part_texts, write_parts};
use core::ops::Range;
use vstd::prelude::*;
use vstd::std_specs::cmp::PartialEqSpec;
use vstd::std_specs::cmp::PartialEqSpecImpl;
use vstd::string::*;
use vstd::utf8::*;

verus! {

/// A failure: what went wrong, and the half-open range of input bytes where
/// it went wrong.
#[derive(Debug)]
pub struct Error {
    pub span: Range<usize>,
    pub kind: ErrorKind,
}

impl Error {
    /// A failure is well formed when its span does not end before it starts
    /// and its kind is well formed.
    pub open spec fn wf(self) -> bool {
        &&& self.span.start <= self.span.end
        &&& self.kind.wf()
    }

    /// A failure of the given kind at `span`, the lexer's current span.
    pub fn new(span: Range<usize>, kind: ErrorKind) -> (e: Self)
        ensures
            e.span == span,
            e.kind == kind,
    {
        Self { span, kind }
    }

    /// A failure at `span` that reports the token found there and what was
    /// wanted in its place.
    pub fn unexpected(span: Range<usize>, unexpected: Token, expected: Expected) -> (e: Self)
        ensures
            e.span == span,
            e.kind == ErrorKind::UnexpectedToken(unexpected, expected),
    {
        Self { span, kind: ErrorKind::UnexpectedToken(unexpected, expected) }
    }

    /// A failure of the given kind at the end of `input`: its span is empty
    /// and lies just behind the last byte.
    pub fn end(input: &[u8], kind: ErrorKind) -> (e: Self)
        ensures
            e.span.start == input@.len(),
            e.span.end == input@.len(),
            e.kind == kind,
    {
        Self { span: input.len()..input.len(), kind }
    }

    /// Whether every one of the writes is valid UTF-8, as every piece of
    /// text is.
    pub open spec fn all_text(writes: Seq<Seq<u8>>) -> bool {
        forall|i: int| 0 <= i < writes.len() ==> valid_utf8(#[trigger] writes[i])
    }

    /// Whether this is the failure that holds the message written as
    /// `writes`: its span is `0..0`, and its buffer and length are what the
    /// writes leave in an empty 64-byte buffer when they are stored in order
    /// up to the first that does not fit.
    pub open spec fn holds_writes(self, writes: Seq<Seq<u8>>) -> bool {
        &&& self.span.start == 0
        &&& self.span.end == 0
        &&& self.kind is Custom
        &&& self.kind.stored() == blank().write_all(writes)
    }

    /// Whether this is the failure that carries the message made of
    /// `parts`: the one that holds the bytes of the parts as its writes.
    pub open spec fn is_custom_of(self, parts: Seq<&str>) -> bool {
        self.holds_writes(part_bytes(parts))
    }

    /// A failure that carries a free-form message, formatted into the
    /// 64 bytes that a kind can hold. It has no position: its span is `0..0`.
    /// A message that does not fit is cut short, never refused: the failure
    /// holds the writes that the message's `Display` made, up to the first
    /// that did not fit. Which writes those are is the message's own doing,
    /// and is not stated. What is kept is valid UTF-8, and the rest of the
    /// buffer is zero.
    pub fn custom<T: core::fmt::Display>(msg: T) -> (e: Self)
        ensures
            e.span.start == 0,
            e.span.end == 0,
            e.kind is Custom,
            e.kind.stored().grown_from(blank()),
            e.wf(),
            exists|writes: Seq<Seq<u8>>| Self::all_text(writes) && #[trigger] e.holds_writes(writes),
    {
        let mut buf = [0u8; 64];
        assert(buf@ =~= blank().bytes);
        let offset = format_into(&mut buf, &msg);
        let e = Error { span: 0..0, kind: ErrorKind::Custom(buf, offset) };
        proof {
            let whole = seq![e.kind.stored().written()];
            let one = blank().write(whole[0]);
            assert(whole.drop_first() =~= Seq::<Seq<u8>>::empty());
            assert(one.write_all(whole.drop_first()) == one);
            assert(blank().write_all(whole) == one);
            assert(one.bytes =~= e.kind.stored().bytes);
            assert(e.holds_writes(whole));
        }
        e
    }

    /// A failure that carries the message made of `parts`, written in order
    /// into the 64 bytes that a kind can hold, up to the first part that does
    /// not fit. Its span is `0..0`.
    pub fn custom_parts(parts: &[&str]) -> (e: Self)
        ensures
            e.is_custom_of(parts@),
            e.wf(),
    {
        let mut buf = [0u8; 64];
        assert(buf@ =~= blank().bytes);
        let offset = write_parts(&mut buf, parts);
        proof {
            lemma_parts_are_text(parts@);
            lemma_write_all_grows(blank(), part_bytes(parts@));
        }
        Error { span: 0..0, kind: ErrorKind::Custom(buf, offset) }
    }

    /// The one-line message of the failure: that of its kind. The span is
    /// not part of it.
    pub open spec fn message_text(self) -> Seq<char> {
        self.kind.message_text()
    }

    /// Renders the failure as its one-line message.
    pub fn message(&self) -> (s: String)
        requires
            self.kind.wf(),
        ensures
            s@ == self.message_text(),
    {
        self.kind.message()
    }
}

impl Clone for Error {
    /// A copy that is equal to the failure in span and kind.
    fn clone(&self) -> (r: Self)
        ensures
            r == *self,
    {
        Error { span: self.span.start..self.span.end, kind: self.kind.clone() }
    }
}

impl PartialEq for Error {
    /// Two failures are equal when their spans and their kinds are.
    fn eq(&self, other: &Self) -> (r: bool) {
        self.span.start == other.span.start && self.span.end == other.span.end && self.kind
            == other.kind
    }
}

impl PartialEqSpecImpl for Error {
    open spec fn obeys_eq_spec() -> bool {
        true
    }

    open spec fn eq_spec(&self, other: &Self) -> bool {
        *self == *other
    }
}

impl Eq for Error {

}

/// The bytes of every part of a message are valid UTF-8.
pub proof fn lemma_parts_are_text(parts: Seq<&str>)
    ensures
        Error::all_text(part_bytes(parts)),
{
    assert forall|i: int| 0 <= i < parts.len() implies valid_utf8(
        #[trigger] part_bytes(parts)[i],
    ) by {
        encode_utf8_valid_utf8(parts[i]@);
    }
}

/// Two failures are equal exactly when their spans are equal and their
/// kinds are equal: with the same span and kind they are equal, and with
/// different spans they are not, whatever their kinds.
pub proof fn lemma_equal_by_span_and_kind(a: Error, b: Error)
    ensures
        PartialEqSpec::eq_spec(&a, &b) <==> a.span == b.span && a.kind == b.kind,
        a.span != b.span ==> !PartialEqSpec::eq_spec(&a, &b),
        a.kind != b.kind ==> !PartialEqSpec::eq_spec(&a, &b),
{
}

/// Nothing that is written after a refused write is stored: a failure
/// holds given writes exactly when its buffer and length are what a latched
/// sink over an empty 64-byte buffer holds after it was given every one of
/// them, also those that came after the first that did not fit.
pub proof fn lemma_writes_after_a_refusal_are_lost(e: Error, writes: Seq<Seq<u8>>)
    requires
        e.span.start == 0,
        e.span.end == 0,
        e.kind is Custom,
    ensures
        e.holds_writes(writes) <==> e.kind.stored() == Latch::fresh(blank()).run(writes).sink,
{
    lemma_run_stops_at_first_refusal(blank(), writes);
}

/// A message is stored the same way every time: two failures that hold the
/// same writes have the same buffer, over all of its 64 bytes, and the same
/// length.
pub proof fn lemma_custom_is_determined(a: Error, b: Error, writes: Seq<Seq<u8>>)
    requires
        a.holds_writes(writes),
        b.holds_writes(writes),
    ensures
        a == b,
        a.kind->Custom_0 == b.kind->Custom_0,
        a.kind->Custom_1 == b.kind->Custom_1,
{
    assert(a.kind->Custom_0 =~= b.kind->Custom_0);
}

/// A message of at most 64 bytes is kept whole: the failure is well formed,
/// it holds every write, one after the other, and its message is the text
/// that those bytes encode.
pub proof fn lemma_short_message_is_kept(e: Error, writes: Seq<Seq<u8>>)
    requires
        e.holds_writes(writes),
        Error::all_text(writes),
        writes.flatten().len() <= MESSAGE_CAPACITY,
    ensures
        e.wf(),
        e.kind->Custom_1 == writes.flatten().len(),
        e.kind.stored().written() == writes.flatten(),
        e.message_text() == decode_utf8(writes.flatten()),
{
    lemma_write_all_grows(blank(), writes);
    lemma_all_kept_when_room(blank(), writes);
    assert(blank().written() + writes.flatten() =~= writes.flatten());
}

/// A message made of parts that have at most 64 bytes together reads as the
/// text of the parts, one after the other.
pub proof fn lemma_short_parts_are_kept(e: Error, parts: Seq<&str>)
    requires
        e.is_custom_of(parts),
        part_bytes(parts).flatten().len() <= MESSAGE_CAPACITY,
    ensures
        e.wf(),
        e.message_text() == joined_text(part_texts(parts)),
{
    let pieces = part_bytes(parts);
    lemma_parts_are_text(parts);
    lemma_short_message_is_kept(e, pieces);
    lemma_encoding_joins(part_texts(parts));
    assert(crate::sink::encoded(part_texts(parts)) =~= pieces);
    encode_utf8_decode_utf8(joined_text(part_texts(parts)));
}

/// A message of more than 64 bytes is cut short: the failure is still well
/// formed, it holds the leading writes up to the first that does not fit and
/// fewer bytes than the message has, that write does not fit behind them, and
/// every byte of the buffer behind the stored length is zero.
pub proof fn lemma_long_message_is_cut(e: Error, writes: Seq<Seq<u8>>)
    requires
        e.holds_writes(writes),
        Error::all_text(writes),
        writes.flatten().len() > MESSAGE_CAPACITY,
    ensures
        e.wf(),
        ({
            let k = blank().kept(writes) as int;
            let len = e.kind->Custom_1 as int;
            &&& k < writes.len()
            &&& len < writes.flatten().len()
            &&& len == writes.take(k).flatten().len()
            &&& e.kind->Custom_0@.subrange(0, len) == writes.take(k).flatten()
            &&& len + writes[k].len() > MESSAGE_CAPACITY
            &&& forall|i: int| len <= i < MESSAGE_CAPACITY ==> e.kind->Custom_0@[i] == 0
        }),
{
    let after = blank().write_all(writes);
    let len = e.kind->Custom_1 as int;
    lemma_write_all_grows(blank(), writes);
    lemma_some_cut_when_no_room(blank(), writes);
    lemma_write_all_stops_at_first_misfit(blank(), writes);
    let k = blank().kept(writes) as int;
    assert(blank().written() + writes.take(k).flatten() =~= writes.take(k).flatten());
    assert forall|i: int| len <= i < MESSAGE_CAPACITY implies e.kind->Custom_0@[i] == 0 by {
        assert(after.bytes.subrange(len, MESSAGE_CAPACITY as int)[i - len]
            == blank().bytes.subrange(len, MESSAGE_CAPACITY as int)[i - len]);
    }
}

} // verus!
