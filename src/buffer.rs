use vstd::prelude::*;
use crate::sink::Write;

verus! {

/// A sink over a caller-supplied, fixed-size byte region.
pub struct ArchiveBuffer<T> {
    inner: T,
    pos: usize,
}

/// Why a buffer sink refused a write.
#[derive(Debug, PartialEq, Eq, Structural)]
pub enum ArchiveBufferError {
    /// The write would run past the end of the region.
    Overflow,
}

impl<T> ArchiveBuffer<T> {
    /// The region held by the sink.
    pub closed spec fn spec_inner(&self) -> T {
        self.inner
    }

    /// The position at which the next write lands.
    pub closed spec fn spec_position(&self) -> nat {
        self.pos as nat
    }

    /// A sink that starts writing at the beginning of `inner`.
    pub fn new(inner: T) -> (r: Self)
        ensures
            r.spec_inner() == inner,
            r.spec_position() == 0,
    {
        Self::with_pos(inner, 0)
    }

    /// A sink that starts writing at `pos` in `inner`.
    pub fn with_pos(inner: T, pos: usize) -> (r: Self)
        ensures
            r.spec_inner() == inner,
            r.spec_position() == pos,
    {
        Self { inner, pos }
    }

    /// Gives the region back.
    pub fn into_inner(self) -> (r: T)
        ensures
            r == self.spec_inner(),
    {
        self.inner
    }
}

/// `buf` with the bytes of `b` put at positions `[at, at + b.len())`.
pub open spec fn spliced(buf: Seq<u8>, at: int, b: Seq<u8>) -> Seq<u8> {
    Seq::new(buf.len(), |i: int| if at <= i < at + b.len() { b[i - at] } else { buf[i] })
}

impl Write for ArchiveBuffer<Vec<u8>> {
    type Error = ArchiveBufferError;

    open spec fn spec_pos(&self) -> nat {
        self.spec_position()
    }

    open spec fn spec_bytes(&self) -> Seq<u8> {
        self.spec_inner()@
    }

    open spec fn spec_bounded(&self) -> bool {
        true
    }

    open spec fn spec_room(&self) -> int {
        self.spec_inner()@.len() - self.spec_position()
    }

    fn pos(&self) -> (r: usize) {
        self.pos
    }

    /// Copies `bytes` in at the current position when they fit in the region;
    /// otherwise fails with `Overflow` and leaves the sink as it was.
    fn write(&mut self, bytes: &[u8]) -> (r: Result<(), ArchiveBufferError>)
        ensures
            old(self).spec_pos() + bytes@.len() <= old(self).spec_bytes().len() <==> r is Ok,
            r is Ok ==> final(self).spec_bytes() == spliced(old(self).spec_bytes(), old(self).spec_pos() as int, bytes@),
            r is Ok ==> final(self).spec_inner().len() == old(self).spec_inner().len(),
            r is Err ==> r == Err::<(), ArchiveBufferError>(ArchiveBufferError::Overflow) && *final(self) == *old(self),
    {
        let cap = self.inner.len();
        if self.pos > cap || bytes.len() > cap - self.pos {
            assert(bytes@.subrange(0, 0) =~= seq![]);
            return Err(ArchiveBufferError::Overflow);
        }
        let start = self.pos;
        let ghost before = self.inner@;
        let mut i: usize = 0;
        while i < bytes.len()
            invariant
                start + bytes@.len() <= cap,
                self.pos == start,
                self.inner@.len() == cap,
                cap == before.len(),
                i <= bytes@.len(),
                forall|k: int| 0 <= k < cap ==> #[trigger] self.inner@[k] == (
                    if start <= k < start + i { bytes@[k - start] } else { before[k] }),
            decreases bytes@.len() - i,
        {
            self.inner.set(start + i, bytes[i]);
            i += 1;
        }
        self.pos = start + bytes.len();
        proof {
            assert(self.inner@ =~= spliced(before, start as int, bytes@));
            assert(bytes@.subrange(0, bytes@.len() as int) =~= bytes@);
            assert forall|k: int| 0 <= k < bytes@.len() implies self.inner@[start + k] == #[trigger] bytes@[k] by {
                assert(self.inner@[start + k] == bytes@[k]);
            }
        }
        Ok(())
    }
}

impl<const N: usize> Write for ArchiveBuffer<[u8; N]> {
    type Error = ArchiveBufferError;

    open spec fn spec_pos(&self) -> nat {
        self.spec_position()
    }

    open spec fn spec_bytes(&self) -> Seq<u8> {
        self.spec_inner()@
    }

    open spec fn spec_bounded(&self) -> bool {
        true
    }

    open spec fn spec_room(&self) -> int {
        self.spec_inner()@.len() - self.spec_position()
    }

    fn pos(&self) -> (r: usize) {
        self.pos
    }

    fn write(&mut self, bytes: &[u8]) -> (r: Result<(), ArchiveBufferError>)
        ensures
            old(self).spec_pos() + bytes@.len() <= old(self).spec_bytes().len() <==> r is Ok,
            r is Ok ==> final(self).spec_bytes() == spliced(old(self).spec_bytes(), old(self).spec_pos() as int, bytes@),
            r is Ok ==> final(self).spec_inner().len() == old(self).spec_inner().len(),
            r is Err ==> r == Err::<(), ArchiveBufferError>(ArchiveBufferError::Overflow) && *final(self) == *old(self),
    {
        let cap = N;
        if self.pos > cap || bytes.len() > cap - self.pos {
            assert(bytes@.subrange(0, 0) =~= seq![]);
            return Err(ArchiveBufferError::Overflow);
        }
        let start = self.pos;
        let ghost before = self.inner@;
        let mut i: usize = 0;
        while i < bytes.len()
            invariant
                start + bytes@.len() <= cap,
                self.pos == start,
                self.inner@.len() == cap,
                cap == before.len(),
                i <= bytes@.len(),
                forall|k: int| 0 <= k < cap ==> #[trigger] self.inner@[k] == (
                    if start <= k < start + i { bytes@[k - start] } else { before[k] }),
            decreases bytes@.len() - i,
        {
            self.inner[start + i] = bytes[i];
            i += 1;
        }
        self.pos = start + bytes.len();
        proof {
            assert(self.inner@ =~= spliced(before, start as int, bytes@));
            assert(bytes@.subrange(0, bytes@.len() as int) =~= bytes@);
            assert forall|k: int| 0 <= k < bytes@.len() implies self.inner@[start + k] == #[trigger] bytes@[k] by {
                assert(self.inner@[start + k] == bytes@[k]);
            }
        }
        Ok(())
    }
}

/// The bookkeeping of a sink over a byte stream: the stream itself and the
/// number of bytes it has accepted so far.
pub struct ArchiveWriter<W> {
    inner: W,
    pos: usize,
}

impl<W> ArchiveWriter<W> {
    /// The wrapped stream.
    pub closed spec fn spec_inner(&self) -> W {
        self.inner
    }

    /// The number of bytes counted as accepted.
    pub closed spec fn spec_position(&self) -> nat {
        self.pos as nat
    }

    /// A sink whose count starts at zero.
    pub fn new(inner: W) -> (r: Self)
        ensures
            r.spec_inner() == inner,
            r.spec_position() == 0,
    {
        Self::with_pos(inner, 0)
    }

    /// A sink whose count starts at `pos`.
    pub fn with_pos(inner: W, pos: usize) -> (r: Self)
        ensures
            r.spec_inner() == inner,
            r.spec_position() == pos,
    {
        Self { inner, pos }
    }

    /// Gives the stream back.
    pub fn into_inner(self) -> (r: W)
        ensures
            r == self.spec_inner(),
    {
        self.inner
    }

    /// The number of bytes counted as accepted.
    pub fn pos(&self) -> (r: usize)
        ensures
            r as nat == self.spec_position(),
    {
        self.pos
    }

    /// The stream, for handing it the next bytes.
    pub fn inner_mut(&mut self) -> (r: &mut W)
        ensures
            *r == old(self).spec_inner(),
            final(self).spec_inner() == *final(r),
            final(self).spec_position() == old(self).spec_position(),
    {
        &mut self.inner
    }

    /// Takes the stream's answer to one write: a count of accepted bytes
    /// advances the position by that count, an error is handed back unchanged
    /// and leaves the position as it was.
    pub fn accept<E>(&mut self, answer: Result<usize, E>) -> (r: Result<(), E>)
        requires
            answer is Ok ==> old(self).spec_position() + answer->Ok_0 <= usize::MAX,
        ensures
            final(self).spec_inner() == old(self).spec_inner(),
            answer is Ok ==> r is Ok && final(self).spec_position() == old(self).spec_position() + answer->Ok_0,
            answer is Err ==> r == Err::<(), E>(answer->Err_0) && final(self).spec_position() == old(self).spec_position(),
    {
        match answer {
            Ok(n) => {
                self.pos = self.pos + n;
                Ok(())
            },
            Err(e) => Err(e),
        }
    }
}

} // verus!
