//! The mathematical model of a bounded sink, and the laws of writing into
//! one: what a single write does, what a run of writes keeps, where a run is
//! cut short, and why a latched sink keeps nothing that comes after a
//! refused write.

use vstd::prelude::*;
use vstd::utf8::*;

verus! {

/// The mathematical content of a sink: its whole storage and the number of
/// leading bytes that have been written.
pub struct Sink {
    pub bytes: Seq<u8>,
    pub len: nat,
}

impl Sink {
    /// The bytes written so far.
    pub open spec fn written(self) -> Seq<u8> {
        self.bytes.subrange(0, self.len as int)
    }

    /// Whether `piece` still fits behind what is written.
    pub open spec fn fits(self, piece: Seq<u8>) -> bool {
        self.len + piece.len() <= self.bytes.len()
    }

    /// One write: the piece is placed behind what is written when it fits,
    /// and the sink is left as it is when it does not.
    pub open spec fn write(self, piece: Seq<u8>) -> Sink {
        if self.fits(piece) {
            Sink {
                bytes: self.written() + piece + self.bytes.subrange(
                    (self.len + piece.len()) as int,
                    self.bytes.len() as int,
                ),
                len: self.len + piece.len(),
            }
        } else {
            self
        }
    }

    /// Writes in order that end at the first piece that does not fit.
    pub open spec fn write_all(self, pieces: Seq<Seq<u8>>) -> Sink
        decreases pieces.len(),
    {
        if pieces.len() == 0 || !self.fits(pieces[0]) {
            self
        } else {
            self.write(pieces[0]).write_all(pieces.drop_first())
        }
    }

    /// Whether `self` can have come from `before` by writes alone: the
    /// storage has the same size, what was written still stands, what was
    /// added behind it is valid UTF-8, and the rest is untouched.
    pub open spec fn grown_from(self, before: Sink) -> bool {
        &&& self.bytes.len() == before.bytes.len()
        &&& before.len <= self.len <= self.bytes.len()
        &&& self.bytes.subrange(0, before.len as int) == before.written()
        &&& valid_utf8(self.bytes.subrange(before.len as int, self.len as int))
        &&& self.bytes.subrange(self.len as int, self.bytes.len() as int)
            == before.bytes.subrange(self.len as int, self.bytes.len() as int)
    }

    /// The number of leading pieces that a run of writes stores: all those
    /// before the first that does not fit.
    pub open spec fn kept(self, pieces: Seq<Seq<u8>>) -> nat
        decreases pieces.len(),
    {
        if pieces.len() == 0 || !self.fits(pieces[0]) {
            0
        } else {
            1 + self.write(pieces[0]).kept(pieces.drop_first())
        }
    }
}

/// The mathematical content of a latched sink: a sink, and whether it has
/// refused a write. Once it has, it takes nothing more.
pub struct Latch {
    pub sink: Sink,
    pub refused: bool,
}

impl Latch {
    /// A latch over `sink` that has refused nothing yet.
    pub open spec fn fresh(sink: Sink) -> Latch {
        Latch { sink, refused: false }
    }

    /// Whether the latch takes `piece`: it has refused nothing before, and
    /// the piece fits.
    pub open spec fn accepts(self, piece: Seq<u8>) -> bool {
        !self.refused && self.sink.fits(piece)
    }

    /// One write: the piece is stored when the latch takes it. When it does
    /// not, the sink is left as it is and the latch has refused.
    pub open spec fn write(self, piece: Seq<u8>) -> Latch {
        if self.accepts(piece) {
            Latch { sink: self.sink.write(piece), refused: false }
        } else {
            Latch { sink: self.sink, refused: true }
        }
    }

    /// Every one of the writes in order, whether or not an earlier one was
    /// refused.
    pub open spec fn run(self, pieces: Seq<Seq<u8>>) -> Latch
        decreases pieces.len(),
    {
        if pieces.len() == 0 {
            self
        } else {
            self.write(pieces[0]).run(pieces.drop_first())
        }
    }
}

/// A latch that has refused a write takes nothing more: whatever is written
/// to it afterwards, it stays as it is.
pub proof fn lemma_refused_takes_nothing(latch: Latch, pieces: Seq<Seq<u8>>)
    requires
        latch.refused,
    ensures
        latch.run(pieces) == latch,
    decreases pieces.len(),
{
    if pieces.len() > 0 {
        lemma_refused_takes_nothing(latch.write(pieces[0]), pieces.drop_first());
    }
}

/// Writing on after a refusal changes nothing: a latched sink that is given
/// every write of a run holds exactly what the run holds when it ends at the
/// first write that does not fit, and it has refused exactly when the run
/// did not store every piece.
pub proof fn lemma_run_stops_at_first_refusal(start: Sink, pieces: Seq<Seq<u8>>)
    ensures
        Latch::fresh(start).run(pieces).sink == start.write_all(pieces),
        Latch::fresh(start).run(pieces).refused == (start.kept(pieces) < pieces.len()),
    decreases pieces.len(),
{
    if pieces.len() == 0 {
    } else if start.fits(pieces[0]) {
        lemma_run_stops_at_first_refusal(start.write(pieces[0]), pieces.drop_first());
    } else {
        lemma_refused_takes_nothing(Latch::fresh(start).write(pieces[0]), pieces.drop_first());
    }
}

/// The text of each part of a message, one after the other.
pub open spec fn joined_text(parts: Seq<Seq<char>>) -> Seq<char> {
    parts.flatten()
}

/// The encodings of the parts of a message, in order.
pub open spec fn encoded(parts: Seq<Seq<char>>) -> Seq<Seq<u8>> {
    Seq::new(parts.len(), |i: int| encode_utf8(parts[i]))
}

/// A single write leaves a sink that has grown from the one before it.
pub proof fn lemma_write_grows(before: Sink, piece: Seq<u8>)
    requires
        before.len <= before.bytes.len(),
        valid_utf8(piece),
    ensures
        before.write(piece).grown_from(before),
{
    let after = before.write(piece);
    let cap = before.bytes.len() as int;
    if before.fits(piece) {
        assert(after.bytes.subrange(0, before.len as int) =~= before.written());
        assert(after.bytes.subrange(before.len as int, after.len as int) =~= piece);
        assert(after.bytes.subrange(after.len as int, cap) =~= before.bytes.subrange(
            after.len as int,
            cap,
        ));
    } else {
        assert(after.bytes.subrange(before.len as int, after.len as int) =~= Seq::<u8>::empty());
    }
}

/// Growth composes: what has grown from a sink that has grown from a third
/// has grown from the third.
pub proof fn lemma_grown_chain(a: Sink, b: Sink, c: Sink)
    requires
        b.grown_from(a),
        c.grown_from(b),
    ensures
        c.grown_from(a),
{
    let cap = a.bytes.len() as int;
    assert forall|k: int| 0 <= k < b.len implies c.bytes[k] == b.bytes[k] by {
        assert(c.bytes.subrange(0, b.len as int)[k] == b.written()[k]);
    }
    assert forall|k: int| 0 <= k < a.len implies b.bytes[k] == a.bytes[k] by {
        assert(b.bytes.subrange(0, a.len as int)[k] == a.written()[k]);
    }
    assert forall|k: int| c.len <= k < cap implies c.bytes[k] == b.bytes[k] by {
        assert(c.bytes.subrange(c.len as int, cap)[k - c.len] == b.bytes.subrange(
            c.len as int,
            cap,
        )[k - c.len]);
    }
    assert forall|k: int| b.len <= k < cap implies b.bytes[k] == a.bytes[k] by {
        assert(b.bytes.subrange(b.len as int, cap)[k - b.len] == a.bytes.subrange(
            b.len as int,
            cap,
        )[k - b.len]);
    }
    assert(c.bytes.subrange(0, a.len as int) =~= a.written());
    let mid = b.bytes.subrange(a.len as int, b.len as int);
    let tail = c.bytes.subrange(b.len as int, c.len as int);
    assert(c.bytes.subrange(a.len as int, c.len as int) =~= mid + tail);
    valid_utf8_concat(mid, tail);
    assert(c.bytes.subrange(c.len as int, cap) =~= a.bytes.subrange(c.len as int, cap));
}

/// A run of writes of valid UTF-8 leaves a sink that has grown from the one
/// before it: nothing written earlier is lost, what was added is valid
/// UTF-8, and no byte behind the new length has changed.
pub proof fn lemma_write_all_grows(before: Sink, pieces: Seq<Seq<u8>>)
    requires
        before.len <= before.bytes.len(),
        forall|i: int| 0 <= i < pieces.len() ==> valid_utf8(#[trigger] pieces[i]),
    ensures
        before.write_all(pieces).grown_from(before),
    decreases pieces.len(),
{
    if pieces.len() == 0 || !before.fits(pieces[0]) {
        lemma_write_grows(before, Seq::<u8>::empty());
        assert(before.write(Seq::<u8>::empty()).bytes =~= before.bytes);
    } else {
        let next = before.write(pieces[0]);
        let rest = pieces.drop_first();
        lemma_write_grows(before, pieces[0]);
        assert forall|i: int| 0 <= i < rest.len() implies valid_utf8(#[trigger] rest[i]) by {
            assert(rest[i] == pieces[i + 1]);
        }
        lemma_write_all_grows(next, rest);
        lemma_grown_chain(before, next, next.write_all(rest));
    }
}

/// Where a run of writes ends: it stores the leading pieces up to the first
/// that does not fit, whole and in order, and that piece, if there is one,
/// does not fit behind them. Its bytes are stored in no part: the storage
/// behind the new length is as it was.
pub proof fn lemma_write_all_stops_at_first_misfit(before: Sink, pieces: Seq<Seq<u8>>)
    requires
        before.len <= before.bytes.len(),
    ensures
        ({
            let after = before.write_all(pieces);
            let k = before.kept(pieces) as int;
            let cap = before.bytes.len() as int;
            &&& k <= pieces.len()
            &&& after.bytes.len() == cap
            &&& after.len == before.len + pieces.take(k).flatten().len()
            &&& after.len <= cap
            &&& after.written() == before.written() + pieces.take(k).flatten()
            &&& k < pieces.len() ==> !after.fits(pieces[k])
            &&& after.bytes.subrange(after.len as int, cap) == before.bytes.subrange(
                after.len as int,
                cap,
            )
        }),
    decreases pieces.len(),
{
    let cap = before.bytes.len() as int;
    if pieces.len() == 0 || !before.fits(pieces[0]) {
        assert(pieces.take(0) =~= Seq::<Seq<u8>>::empty());
        assert(before.written() + Seq::<u8>::empty() =~= before.written());
    } else {
        let next = before.write(pieces[0]);
        let rest = pieces.drop_first();
        let after = next.write_all(rest);
        let k = next.kept(rest) as int;
        lemma_write_all_stops_at_first_misfit(next, rest);
        let head = pieces.take(k + 1);
        assert(head.drop_first() =~= rest.take(k));
        assert(head.first() == pieces[0]);
        assert(head.flatten() == pieces[0] + rest.take(k).flatten());
        assert(next.written() =~= before.written() + pieces[0]);
        assert(after.written() =~= before.written() + head.flatten());
        if k < rest.len() {
            assert(rest[k] == pieces[k + 1]);
        }
        assert forall|j: int| after.len <= j < cap implies after.bytes[j] == before.bytes[j] by {
            assert(after.bytes.subrange(after.len as int, cap)[j - after.len]
                == next.bytes.subrange(after.len as int, cap)[j - after.len]);
        }
        assert(after.bytes.subrange(after.len as int, cap) =~= before.bytes.subrange(
            after.len as int,
            cap,
        ));
    }
}

/// Pieces that fit together are all stored: nothing is cut off a message
/// that is short enough.
pub proof fn lemma_all_kept_when_room(before: Sink, pieces: Seq<Seq<u8>>)
    requires
        before.len + pieces.flatten().len() <= before.bytes.len(),
    ensures
        before.kept(pieces) == pieces.len(),
        before.write_all(pieces).written() == before.written() + pieces.flatten(),
        before.write_all(pieces).len == before.len + pieces.flatten().len(),
    decreases pieces.len(),
{
    if pieces.len() == 0 {
        assert(before.written() + Seq::<u8>::empty() =~= before.written());
    } else {
        let next = before.write(pieces[0]);
        let rest = pieces.drop_first();
        assert(pieces.flatten() == pieces[0] + rest.flatten());
        lemma_all_kept_when_room(next, rest);
        assert(next.written() =~= before.written() + pieces[0]);
        assert(next.write_all(rest).written() =~= before.written() + pieces.flatten());
    }
}

/// Pieces that do not fit together are not all stored: the run stops before
/// the end, and holds fewer bytes than the whole message has.
pub proof fn lemma_some_cut_when_no_room(before: Sink, pieces: Seq<Seq<u8>>)
    requires
        before.len <= before.bytes.len(),
        before.len + pieces.flatten().len() > before.bytes.len(),
    ensures
        before.kept(pieces) < pieces.len(),
        before.write_all(pieces).len < before.len + pieces.flatten().len(),
    decreases pieces.len(),
{
    if pieces.len() == 0 {
    } else {
        let rest = pieces.drop_first();
        assert(pieces.flatten() == pieces[0] + rest.flatten());
        if before.fits(pieces[0]) {
            lemma_some_cut_when_no_room(before.write(pieces[0]), rest);
        }
    }
}

/// Encoding the joined text of the parts gives the joined encodings of the
/// parts.
pub proof fn lemma_encoding_joins(parts: Seq<Seq<char>>)
    ensures
        encode_utf8(joined_text(parts)) == encoded(parts).flatten(),
    decreases parts.len(),
{
    if parts.len() == 0 {
        assert(encoded(parts) =~= Seq::<Seq<u8>>::empty());
    } else {
        let rest = parts.drop_first();
        lemma_encoding_joins(rest);
        assert(encoded(parts).drop_first() =~= encoded(rest));
        assert(encoded(parts).first() == encode_utf8(parts[0]));
        lemma_encoding_appends(parts[0], rest.flatten());
    }
}

/// Encoding one text behind another gives one encoding behind the other.
pub proof fn lemma_encoding_appends(a: Seq<char>, b: Seq<char>)
    ensures
        encode_utf8(a + b) == encode_utf8(a) + encode_utf8(b),
    decreases a.len(),
{
    if a.len() == 0 {
        assert(a + b =~= b);
        assert(encode_utf8(a) + encode_utf8(b) =~= encode_utf8(b));
    } else {
        lemma_encoding_appends(a.drop_first(), b);
        assert((a + b).drop_first() =~= a.drop_first() + b);
        assert(encode_utf8(a + b) =~= encode_utf8(a) + encode_utf8(b));
    }
}

} // verus!
