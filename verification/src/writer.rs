//! Bounded sinks for formatted text. A `Wrapper` is a borrowed byte buffer
//! that stores a piece of text when it fits and refuses it, untouched, when
//! it does not. A `Latched` sink is a `Wrapper` that takes nothing more once
//! it has refused a write, so that a message is cut at the first write that
//! does not fit. Nothing is allocated, and a long message is cut short rather
//! than reported as a failure.

use crate::sink::{Latch, Sink};
use core::fmt::Write;
use vstd::prelude::*;
use vstd::string::*;
use vstd::utf8::*;

verus! {

/// `core::fmt::Error`, the unit value with which a write is refused.
#[verifier::external_type_specification]
pub struct ExFmtError(core::fmt::Error);

/// The bytes of each part of a message, in order.
pub open spec fn part_bytes(parts: Seq<&str>) -> Seq<Seq<u8>> {
    Seq::new(parts.len(), |i: int| parts[i].spec_bytes())
}

/// The text of each part of a message, in order.
pub open spec fn part_texts(parts: Seq<&str>) -> Seq<Seq<char>> {
    Seq::new(parts.len(), |i: int| parts[i]@)
}

/// Adapter that lets text be formatted into a fixed-size buffer.
pub struct Wrapper<'a> {
    buf: &'a mut [u8],
    offset: usize,
}

impl<'a> View for Wrapper<'a> {
    type V = Sink;

    closed spec fn view(&self) -> Sink {
        Sink { bytes: self.buf@, len: self.offset as nat }
    }
}

impl<'a> Wrapper<'a> {
    #[verifier::type_invariant]
    spec fn inv(&self) -> bool {
        &&& self.offset <= self.buf@.len()
        &&& valid_utf8(self.buf@.subrange(0, self.offset as int))
    }

    /// A sink over `buf` with nothing written yet.
    pub fn new(buf: &'a mut [u8]) -> (w: Self)
        ensures
            w@ == (Sink { bytes: old(buf)@, len: 0 }),
    {
        assert(buf@.subrange(0, 0) =~= Seq::<u8>::empty());
        Wrapper { buf, offset: 0 }
    }

    /// The number of bytes written so far. It never exceeds the buffer, and
    /// the bytes before it are valid UTF-8.
    pub fn offset(&self) -> (n: usize)
        ensures
            n == self@.len,
            n <= self@.bytes.len(),
            valid_utf8(self@.written()),
    {
        proof {
            use_type_invariant(self);
        }
        self.offset
    }

    /// One write, and the fact that the sink still borrows the same buffer.
    fn push(&mut self, s: &str) -> (r: core::fmt::Result)
        ensures
            r is Ok <==> old(self)@.fits(s.spec_bytes()),
            final(self)@ == old(self)@.write(s.spec_bytes()),
            final(final(self).buf)@ == final(old(self).buf)@,
    {
        proof {
            use_type_invariant(&*self);
        }
        let bytes = s.as_bytes();
        let n: usize = bytes.len();
        let cap: usize = self.buf.len();
        if cap - self.offset < n {
            return Err(core::fmt::Error);
        }
        let mut i: usize = 0;
        while i < n
            invariant
                n == bytes@.len(),
                i <= n,
                self.offset == old(self).offset,
                self.offset + n <= self.buf@.len(),
                self.buf@.len() == old(self).buf@.len(),
                self.buf@.len() == cap,
                final(self.buf)@ == final(old(self).buf)@,
                valid_utf8(self.buf@.subrange(0, self.offset as int)),
                forall|k: int| 0 <= k < self.offset ==> self.buf@[k] == old(self).buf@[k],
                forall|k: int| 0 <= k < i ==> self.buf@[self.offset + k] == bytes@[k],
                forall|k: int|
                    self.offset + n <= k < self.buf@.len() ==> self.buf@[k] == old(self).buf@[k],
            decreases n - i,
        {
            proof {
                assert(self.buf@.update(self.offset + i, bytes@[i as int]).subrange(
                    0,
                    self.offset as int,
                ) =~= self.buf@.subrange(0, self.offset as int));
            }
            self.buf[self.offset + i] = bytes[i];
            i += 1;
        }
        proof {
            let before = old(self)@;
            assert(self.buf@ =~= before.write(bytes@).bytes);
            assert(self.buf@.subrange(0, self.offset + n) =~= before.written() + bytes@);
            encode_utf8_valid_utf8(s@);
            valid_utf8_concat(before.written(), bytes@);
        }
        self.offset += n;
        Ok(())
    }
}

impl<'a> core::fmt::Write for Wrapper<'a> {
    /// Appends `s` if it fits in what is left of the buffer, and fails
    /// without touching the buffer if it does not.
    fn write_str(&mut self, s: &str) -> (r: core::fmt::Result)
        ensures
            r is Ok <==> old(self)@.fits(s.spec_bytes()),
            final(self)@ == old(self)@.write(s.spec_bytes()),
    {
        self.push(s)
    }
}

/// A sink that takes no more text once it has refused a write: what it
/// holds is the text up to the first write that did not fit, whatever is
/// written after that.
pub struct Latched<'a> {
    inner: Wrapper<'a>,
    shut: bool,
}

impl<'a> View for Latched<'a> {
    type V = Latch;

    closed spec fn view(&self) -> Latch {
        Latch { sink: self.inner@, refused: self.shut }
    }
}

impl<'a> Latched<'a> {
    /// A latched sink over `buf` with nothing written and nothing refused.
    pub fn new(buf: &'a mut [u8]) -> (l: Self)
        ensures
            l@ == Latch::fresh(Sink { bytes: old(buf)@, len: 0 }),
    {
        Latched { inner: Wrapper::new(buf), shut: false }
    }

    /// The number of bytes written so far. It never exceeds the buffer, and
    /// the bytes before it are valid UTF-8.
    pub fn offset(&self) -> (n: usize)
        ensures
            n == self@.sink.len,
            n <= self@.sink.bytes.len(),
            valid_utf8(self@.sink.written()),
    {
        self.inner.offset()
    }

    /// Whether a write has been refused.
    pub fn has_refused(&self) -> (r: bool)
        ensures
            r == self@.refused,
    {
        self.shut
    }

    /// One write, and the fact that the sink still borrows the same buffer.
    fn take(&mut self, s: &str) -> (r: core::fmt::Result)
        ensures
            r is Ok <==> old(self)@.accepts(s.spec_bytes()),
            final(self)@ == old(self)@.write(s.spec_bytes()),
            final(final(self).inner.buf)@ == final(old(self).inner.buf)@,
    {
        if self.shut {
            return Err(core::fmt::Error);
        }
        let r = self.inner.push(s);
        if r.is_err() {
            self.shut = true;
        }
        r
    }
}

impl<'a> core::fmt::Write for Latched<'a> {
    /// Appends `s` if no write has been refused before and `s` fits in what
    /// is left of the buffer. Fails without touching the buffer if not, and
    /// refuses every write from then on.
    fn write_str(&mut self, s: &str) -> (r: core::fmt::Result)
        ensures
            r is Ok <==> old(self)@.accepts(s.spec_bytes()),
            final(self)@ == old(self)@.write(s.spec_bytes()),
    {
        self.take(s)
    }
}

/// Hands `msg` to the standard library's `write!`, which formats it through
/// `Display` into `sink`. Whatever the value's `Display` does, text reaches
/// the sink only through `write_str`, piece by piece: so the sink has grown
/// by writes alone, and still borrows the same buffer. Which pieces came, and
/// how many, is not stated.
#[verifier::external_body]
fn feed<T: core::fmt::Display>(sink: &mut Latched, msg: &T)
    ensures
        final(sink)@.sink.grown_from(old(sink)@.sink),
        final(final(sink).inner.buf)@ == final(old(sink).inner.buf)@,
{
    let _ = write!(sink, "{}", msg);
}

/// Formats `msg` into `buf` from its start and returns the number of bytes
/// written. The text goes through a latched sink: it is cut off where the
/// first write that did not fit began, nothing that is written after that
/// write is stored, and no write is ever stored in part. This never fails.
pub fn format_into<T: core::fmt::Display>(buf: &mut [u8], msg: &T) -> (n: usize)
    ensures
        (Sink { bytes: final(buf)@, len: n as nat }).grown_from(
            Sink { bytes: old(buf)@, len: 0 },
        ),
{
    assert(buf@.subrange(0, 0) =~= Seq::<u8>::empty());
    let mut sink = Latched { inner: Wrapper { buf, offset: 0 }, shut: false };
    feed(&mut sink, msg);
    sink.inner.offset
}

/// Writes the parts of a message into `buf` from its start, in order, and
/// stops at the first that does not fit. Returns the number of bytes written.
pub fn write_parts(buf: &mut [u8], parts: &[&str]) -> (n: usize)
    ensures
        (Sink { bytes: final(buf)@, len: n as nat }) == (Sink {
            bytes: old(buf)@,
            len: 0,
        }).write_all(part_bytes(parts@)),
{
    let ghost start = Sink { bytes: buf@, len: 0 };
    let ghost pieces = part_bytes(parts@);
    let ghost left = final(buf)@;
    assert(buf@.subrange(0, 0) =~= Seq::<u8>::empty());
    let mut wrapper = Wrapper { buf, offset: 0 };
    let mut i: usize = 0;
    let mut room = true;
    assert(pieces.skip(0) =~= pieces);
    while room && i < parts.len()
        invariant
            i <= parts@.len(),
            pieces == part_bytes(parts@),
            room ==> wrapper@.write_all(pieces.skip(i as int)) == start.write_all(pieces),
            !room ==> wrapper@ == start.write_all(pieces),
            final(wrapper.buf)@ == left,
        decreases parts@.len() - i, room as int,
    {
        let ghost cur = wrapper@;
        assert(pieces.skip(i as int)[0] == parts@[i as int].spec_bytes());
        assert(pieces.skip(i as int).drop_first() =~= pieces.skip(i + 1));
        let r = wrapper.push(parts[i]);
        if r.is_err() {
            assert(cur.write_all(pieces.skip(i as int)) == cur);
            room = false;
        } else {
            i += 1;
        }
    }
    wrapper.offset
}

} // verus!
