use vstd::prelude::*;
use crate::common::error::Error;

verus! {

/// A write cursor over a caller-owned byte region of fixed capacity.
///
/// The cursor borrows the region for one encode. Every method says, besides
/// what it wrote, that the cursor still stands for the same borrowed region
/// (`final(final(self).buf)@ == final(old(self).buf)@`), so that the owner of
/// the region finds the written bytes in it once the cursor is gone.
pub struct Writer<'a> {
    pub buf: &'a mut [u8],
    pub index: usize,
}

impl<'a> Writer<'a> {
    /// The position never lies beyond the capacity.
    pub open spec fn wf(&self) -> bool {
        self.index <= self.buf@.len()
    }

    /// The size of the region.
    pub open spec fn capacity(&self) -> nat {
        self.buf@.len()
    }

    /// The bytes written so far.
    pub open spec fn written(&self) -> Seq<u8> {
        self.buf@.take(self.index as int)
    }

    /// `self` is a later state of the cursor `before`: the same capacity, and
    /// what `before` had written is still there, in front.
    pub open spec fn extends(&self, before: &Writer) -> bool {
        &&& self.wf()
        &&& self.capacity() == before.capacity()
        &&& before.index <= self.index
        &&& self.written().take(before.index as int) == before.written()
    }

    /// `self` is `before` with exactly `bytes` appended.
    pub open spec fn appended(&self, before: &Writer, bytes: Seq<u8>) -> bool {
        &&& self.wf()
        &&& self.capacity() == before.capacity()
        &&& self.index == before.index + bytes.len()
        &&& self.written() == before.written() + bytes
    }

    pub fn new(buf: &'a mut [u8]) -> (w: Self)
        ensures
            w.wf(),
            w.index == 0,
            w.buf@ == old(buf)@,
            final(buf)@ == final(w.buf)@,
    {
        Self { buf, index: 0 }
    }

    /// Writes one byte, or fails when the region is full and leaves the cursor as it was.
    pub fn push(&mut self, item: u8) -> (r: Result<(), Error>)
        requires
            old(self).wf(),
        ensures
            wrote(r, old(self), final(self), seq![item]),
            r is Err ==> *final(self) == *old(self),
            final(final(self).buf)@ == final(old(self).buf)@,
    {
        if self.index < self.buf.len() {
            self.buf[self.index] = item;
            self.index += 1;
            assert(self.written() =~= old(self).written() + seq![item]);
            assert(self.written().take(old(self).index as int) =~= old(self).written());
            Ok(())
        } else {
            assert(self.written().take(self.index as int) =~= self.written());
            Err(Error::BufferBounds)
        }
    }

    /// Appends `src` as a whole, or fails when it does not fit and leaves the cursor as it was.
    pub fn extend_from_slice(&mut self, src: &[u8]) -> (r: Result<(), Error>)
        requires
            old(self).wf(),
        ensures
            wrote(r, old(self), final(self), src@),
            r is Err ==> *final(self) == *old(self),
            final(final(self).buf)@ == final(old(self).buf)@,
    {
        let n: usize = src.len();
        let cap: usize = self.buf.len();
        if n > cap - self.index {
            assert(self.written().take(self.index as int) =~= self.written());
            return Err(Error::BufferBounds);
        }
        let start: usize = self.index;
        let mut i: usize = 0;
        while i < n
            invariant
                i <= n,
                n == src@.len(),
                start + n <= cap,
                start == old(self).index,
                self.index == start,
                start + src@.len() <= self.buf@.len(),
                self.buf@.len() == old(self).buf@.len(),
                self.buf@.take(start as int) == old(self).buf@.take(start as int),
                self.buf@.subrange(start as int, start + i) == src@.take(i as int),
                final(self.buf)@ == final(old(self).buf)@,
            decreases src@.len() - i,
        {
            let ghost prev = self.buf@;
            self.buf[start + i] = src[i];
            assert(self.buf@.take(start as int) =~= prev.take(start as int));
            assert(self.buf@.subrange(start as int, start + i + 1) =~= prev.subrange(
                start as int,
                start + i,
            ).push(src@[i as int]));
            assert(src@.take(i + 1) =~= src@.take(i as int).push(src@[i as int]));
            i += 1;
        }
        self.index = start + n;
        assert(src@.take(src@.len() as int) =~= src@);
        assert(self.written() =~= old(self).written() + src@);
        assert(self.written().take(old(self).index as int) =~= old(self).written());
        Ok(())
    }

    /// The bytes written so far.
    pub fn to_bytes(&self) -> (r: &[u8])
        requires
            self.wf(),
        ensures
            r@ == self.written(),
    {
        vstd::slice::slice_subrange(&*self.buf, 0, self.index)
    }
}

/// What a write of `bytes` does: they are appended where they fit; where they
/// do not, the write fails with `BufferBounds` and earlier bytes stay.
pub open spec fn wrote(r: Result<(), Error>, before: &Writer, after: &Writer, bytes: Seq<u8>) -> bool {
    &&& after.extends(before)
    &&& match r {
        Ok(()) => after.appended(before, bytes),
        Err(e) => e == Error::BufferBounds && before.index + bytes.len() > before.capacity(),
    }
}

/// What the write of a value does that may have no wire form in this codec:
/// without one, nothing is written and the write fails with `Unimplemented`;
/// with one, its `bytes` are written as `wrote` says.
pub open spec fn wrote_if(
    r: Result<(), Error>,
    before: &Writer,
    after: &Writer,
    encodable: bool,
    bytes: Seq<u8>,
) -> bool {
    if encodable {
        wrote(r, before, after, bytes)
    } else {
        &&& r == Err::<(), Error>(Error::Unimplemented)
        &&& after.extends(before)
        &&& after.index == before.index
    }
}

/// A later state of a later state is a later state.
pub broadcast proof fn lemma_extends_trans(w0: &Writer, w1: &Writer, w2: &Writer)
    requires
        #[trigger] w1.extends(w0),
        #[trigger] w2.extends(w1),
    ensures
        w2.extends(w0),
{
    assert(w2.written().take(w0.index as int) =~= w1.written().take(w0.index as int)) by {
        assert(w2.written().take(w1.index as int).take(w0.index as int) =~= w2.written().take(
            w0.index as int,
        ));
    }
}

/// Two appends in a row are one append of both.
pub broadcast proof fn lemma_appended_chain(
    w0: &Writer,
    w1: &Writer,
    w2: &Writer,
    a: Seq<u8>,
    b: Seq<u8>,
)
    requires
        #[trigger] w1.appended(w0, a),
        #[trigger] w2.appended(w1, b),
    ensures
        w2.appended(w0, a + b),
{
    assert(w0.written() + a + b =~= w0.written() + (a + b));
}

/// Appending nothing: a cursor is itself with no bytes appended.
pub proof fn lemma_appended_nothing(w: &Writer)
    requires
        w.wf(),
    ensures
        w.appended(w, Seq::<u8>::empty()),
        w.extends(w),
{
    assert(w.written() + Seq::<u8>::empty() =~= w.written());
    assert(w.written().take(w.index as int) =~= w.written());
}

pub broadcast group group_writer {
    lemma_extends_trans,
    lemma_appended_chain,
}

/// A read cursor: a position and an end bound over a byte region that the
/// caller owns and hands to each read.
#[derive(Debug, Clone, Copy)]
pub struct Reader {
    pub index: usize,
    pub end: usize,
}

/// The byte at `pos`, and the position behind it.
pub open spec fn spec_read_byte(s: Seq<u8>, pos: int) -> Result<(u8, int), Error> {
    if 0 <= pos < s.len() {
        Ok((s[pos], pos + 1))
    } else {
        Err(Error::BufferBounds)
    }
}

/// The `count` bytes from `pos` on, and the position behind them.
pub open spec fn spec_read_bytes(s: Seq<u8>, pos: int, count: int) -> Result<(Seq<u8>, int), Error> {
    if 0 <= pos && 0 <= count && pos + count <= s.len() {
        Ok((s.subrange(pos, pos + count), pos + count))
    } else {
        Err(Error::BufferBounds)
    }
}

/// The bytes `bytes` stand in `s` at `pos`.
pub open spec fn holds_at(s: Seq<u8>, pos: int, bytes: Seq<u8>) -> bool {
    &&& 0 <= pos
    &&& pos + bytes.len() <= s.len()
    &&& s.subrange(pos, pos + bytes.len()) == bytes
}

/// Where two runs of bytes stand one behind the other, each stands at its place.
pub proof fn lemma_holds_at_split(s: Seq<u8>, pos: int, a: Seq<u8>, b: Seq<u8>)
    requires
        holds_at(s, pos, a + b),
    ensures
        holds_at(s, pos, a),
        holds_at(s, pos + a.len(), b),
{
    let n = (a + b).len() as int;
    assert(s.subrange(pos, pos + a.len()) =~= a) by {
        assert forall|i: int| 0 <= i < a.len() implies s.subrange(pos, pos + a.len())[i] == a[i] by {
            assert(s.subrange(pos, pos + n)[i] == (a + b)[i]);
        }
    }
    assert(s.subrange(pos + a.len(), pos + a.len() + b.len()) =~= b) by {
        assert forall|i: int| 0 <= i < b.len() implies s.subrange(
            pos + a.len(),
            pos + a.len() + b.len(),
        )[i] == b[i] by {
            assert(s.subrange(pos, pos + n)[a.len() + i] == (a + b)[a.len() + i]);
        }
    }
}

/// Where two runs of bytes each stand at their place, one behind the other, both stand there as one.
pub proof fn lemma_holds_at_join(s: Seq<u8>, pos: int, a: Seq<u8>, b: Seq<u8>)
    requires
        holds_at(s, pos, a),
        holds_at(s, pos + a.len(), b),
    ensures
        holds_at(s, pos, a + b),
{
    assert(s.subrange(pos, pos + (a + b).len()) =~= a + b) by {
        assert forall|i: int| 0 <= i < (a + b).len() implies s.subrange(pos, pos + (a + b).len())[i]
            == (a + b)[i] by {
            if i < a.len() {
                assert(s.subrange(pos, pos + a.len())[i] == a[i]);
            } else {
                assert(s.subrange(pos + a.len(), pos + a.len() + b.len())[i - a.len()] == b[i
                    - a.len()]);
            }
        }
    }
}

/// Bytes that stand in a run of bytes stand in whatever that run stands in.
pub proof fn lemma_holds_at_within(s: Seq<u8>, pos: int, run: Seq<u8>, at: int, bytes: Seq<u8>)
    requires
        holds_at(s, pos, run),
        holds_at(run, at, bytes),
    ensures
        holds_at(s, pos + at, bytes),
{
    assert(s.subrange(pos + at, pos + at + bytes.len()) =~= bytes) by {
        assert forall|i: int| 0 <= i < bytes.len() implies s.subrange(
            pos + at,
            pos + at + bytes.len(),
        )[i] == bytes[i] by {
            assert(run.subrange(at, at + bytes.len())[i] == run[at + i]);
            assert(s.subrange(pos, pos + run.len())[at + i] == s[pos + at + i]);
        }
    }
}

/// What a read gives on the first `k` bytes alone, where on all the bytes
/// it gives `whole`: the same where it ends within the first `k`, and a
/// failure for want of bytes where it goes beyond them.
pub open spec fn cut_short<T>(whole: Result<(T, int), Error>, k: int) -> Result<(T, int), Error> {
    match whole {
        Ok((v, p)) => if p <= k {
            Ok((v, p))
        } else {
            Err(Error::BufferBounds)
        },
        Err(e) => Err(e),
    }
}

/// Reading one byte of bytes that are cut short.
pub proof fn lemma_read_byte_cut(s: Seq<u8>, pos: int, k: int)
    requires
        0 <= k <= s.len(),
    ensures
        spec_read_byte(s.take(k), pos) == cut_short(spec_read_byte(s, pos), k),
{
}

/// Reading a run of bytes that are cut short.
pub proof fn lemma_read_bytes_cut(s: Seq<u8>, pos: int, count: int, k: int)
    requires
        0 <= k <= s.len(),
    ensures
        spec_read_bytes(s.take(k), pos, count) == cut_short(spec_read_bytes(s, pos, count), k),
{
    if 0 <= pos && 0 <= count && pos + count <= k {
        assert(s.take(k).subrange(pos, pos + count) =~= s.subrange(pos, pos + count));
    }
}

/// Where a cursor may stand after a read: not before the place where it
/// stood, and not beyond its end unless it stood there already.
pub open spec fn moved_on(before: Reader, after: Reader) -> bool {
    &&& before.index <= after.index
    &&& after.index <= before.end || after.index == before.index
}

/// What a read does that is expected to give `expect` (a value and the
/// position behind it, or an error): it returns just that, moves the cursor
/// to that position, never moves it backwards or beyond its end, and keeps
/// its end.
pub open spec fn read_as<T>(
    r: Result<T, Error>,
    expect: Result<(T, int), Error>,
    before: Reader,
    after: Reader,
) -> bool {
    &&& after.end == before.end
    &&& moved_on(before, after)
    &&& match expect {
        Ok((v, p)) => r == Ok::<T, Error>(v) && after.index == p,
        Err(e) => r == Err::<T, Error>(e),
    }
}

/// As `read_as`, for a value that is compared by its view.
pub open spec fn read_as_view<T: View>(
    r: Result<T, Error>,
    expect: Result<(T::V, int), Error>,
    before: Reader,
    after: Reader,
) -> bool {
    &&& after.end == before.end
    &&& moved_on(before, after)
    &&& match expect {
        Ok((v, p)) => r is Ok && r->Ok_0@ == v && after.index == p,
        Err(e) => r == Err::<T, Error>(e),
    }
}

impl Reader {
    /// The bytes of `buf` that the cursor may read: those before its end.
    pub open spec fn region(&self, buf: Seq<u8>) -> Seq<u8> {
        if self.end <= buf.len() {
            buf.take(self.end as int)
        } else {
            buf
        }
    }

    pub fn eof(&self) -> (r: bool)
        ensures
            r == (self.index >= self.end),
    {
        self.index >= self.end
    }

    /// Whether nothing of `buf` is left to read.
    pub fn eof_in(&self, buf: &[u8]) -> (r: bool)
        ensures
            r == (self.index >= self.region(buf@).len()),
    {
        self.index >= self.end || self.index >= buf.len()
    }

    pub fn new_with_len(len: usize) -> (r: Self)
        ensures
            r.index == 0,
            r.end == len,
    {
        Self { index: 0, end: len }
    }

    pub fn set_len(&mut self, len: usize)
        ensures
            final(self).index == old(self).index,
            final(self).end == len,
    {
        self.end = len;
    }

    pub fn read_byte(&mut self, buf: &[u8]) -> (r: Result<u8, Error>)
        ensures
            read_as(r, spec_read_byte(old(self).region(buf@), old(self).index as int), *old(self), *final(self)),
            r is Err ==> *final(self) == *old(self),
    {
        if self.index >= self.end || self.index >= buf.len() {
            Err(Error::BufferBounds)
        } else {
            let byte = buf[self.index];
            self.index += 1;
            Ok(byte)
        }
    }

    pub fn read_bytes<const COUNT: usize>(&mut self, buf: &[u8]) -> (r: Result<[u8; COUNT], Error>)
        ensures
            read_as_view(
                r,
                spec_read_bytes(old(self).region(buf@), old(self).index as int, COUNT as int),
                *old(self),
                *final(self),
            ),
            r is Err ==> *final(self) == *old(self),
    {
        let limit: usize = if self.end <= buf.len() { self.end } else { buf.len() };
        if self.index > limit || COUNT > limit - self.index {
            Err(Error::BufferBounds)
        } else {
            let start: usize = self.index;
            let mut tmp: [u8; COUNT] = [0u8; COUNT];
            let mut i: usize = 0;
            while i < COUNT
                invariant
                    i <= COUNT,
                    start + COUNT <= limit <= buf@.len(),
                    tmp@.len() == COUNT,
                    forall|j: int| 0 <= j < i ==> tmp@[j] == buf@[start + j],
                decreases COUNT - i,
            {
                tmp[i] = buf[start + i];
                i += 1;
            }
            self.index = start + COUNT;
            assert(tmp@ =~= old(self).region(buf@).subrange(start as int, start + COUNT));
            Ok(tmp)
        }
    }

    pub fn read_slice<'b>(&mut self, len: usize, buf: &'b [u8]) -> (r: Result<&'b [u8], Error>)
        ensures
            read_as_view(
                r,
                spec_read_bytes(old(self).region(buf@), old(self).index as int, len as int),
                *old(self),
                *final(self),
            ),
            r is Err ==> *final(self) == *old(self),
    {
        let limit: usize = if self.end <= buf.len() { self.end } else { buf.len() };
        if self.index > limit || len > limit - self.index {
            Err(Error::BufferBounds)
        } else {
            let start: usize = self.index;
            let slice = vstd::slice::slice_subrange(buf, start, start + len);
            self.index = start + len;
            assert(slice@ =~= old(self).region(buf@).subrange(start as int, start + len));
            Ok(slice)
        }
    }
}

impl Default for Reader {
    /// A cursor at the start whose end lies beyond any buffer: it reads as
    /// far as the buffer it is given goes.
    fn default() -> (r: Self)
        ensures
            r.index == 0,
            r.end == usize::MAX - 1000,
    {
        Self { index: 0, end: usize::MAX - 1000 }
    }
}

} // verus!
