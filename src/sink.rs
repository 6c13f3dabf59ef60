use vstd::prelude::*;
use crate::archive::{Archive, ArchiveError, ArchiveRef, Resolve, kept};
use crate::image::ByteImage;

verus! {

/// `after` holds `b` at positions `[at, at + b.len())` and agrees with
/// `before` everywhere else that `before` holds a byte.
pub open spec fn emitted(before: Seq<u8>, at: nat, b: Seq<u8>, after: Seq<u8>) -> bool {
    &&& b.len() > 0 ==> at + b.len() <= after.len()
    &&& forall|i: int| 0 <= i < at ==> after[i] == before[i]
    &&& forall|i: int| at + b.len() <= i < before.len() ==> after[i] == before[i]
    &&& forall|i: int| 0 <= i < b.len() ==> after[at + i] == #[trigger] b[i]
}

/// `n` zero bytes.
pub open spec fn zeros(n: nat) -> Seq<u8> {
    Seq::new(n, |i: int| 0u8)
}

/// The first multiple of `a` at or after `p`.
pub open spec fn aligned_pos(p: nat, a: nat) -> nat
    recommends
        a > 0,
{
    if p % a == 0 {
        p
    } else {
        (p + (a - p % a)) as nat
    }
}

pub(crate) proof fn lemma_aligned_pos(p: nat, a: nat)
    requires
        a > 0,
    ensures
        aligned_pos(p, a) % a == 0,
        p <= aligned_pos(p, a) < p + a,
{
    vstd::arithmetic::div_mod::lemma_fundamental_div_mod(p as int, a as int);
    vstd::arithmetic::div_mod::lemma_mod_multiples_basic(p as int / a as int + 1, a as int);
    vstd::arithmetic::mul::lemma_mul_is_distributive_add_other_way(a as int, p as int / a as int, 1);
    vstd::arithmetic::div_mod::lemma_mod_bound(p as int, a as int);
    if p % a != 0 {
        let q = p as int / a as int;
        assert(p + (a - p % a) == (q + 1) * a) by (nonlinear_arith)
            requires
                p == a * q + p % a,
        ;
    }
}

proof fn lemma_emitted_join(before: Seq<u8>, at: nat, a: Seq<u8>, mid: Seq<u8>, b: Seq<u8>, after: Seq<u8>)
    requires
        emitted(before, at, a, mid),
        emitted(mid, at + a.len(), b, after),
        before.len() <= mid.len() <= after.len(),
    ensures
        emitted(before, at, a + b, after),
{
    assert forall|i: int| 0 <= i < (a + b).len() implies after[at + i] == #[trigger] (a + b)[i] by {
        if i < a.len() {
            assert(after[at + i] == mid[at + i]);
        } else {
            assert(after[at + a.len() + (i - a.len())] == b[i - a.len()]);
        }
    }
}

/// `bytes` holds `image` at positions `[p, p + image.len())`.
pub open spec fn header_at(bytes: Seq<u8>, p: nat, image: Seq<u8>) -> bool {
    &&& p + image.len() <= bytes.len()
    &&& forall|i: int| 0 <= i < image.len() ==> bytes[p + i] == #[trigger] image[i]
}

/// What a successful archive of `value` leaves: the sink went from
/// (`before`, `start`) to (`after`, `end`). Stage one ended at some `q` (at
/// `start` itself for a value that owns nothing) with a resolver that refers
/// only to what lies at or before `q`; then came zero padding up to the first
/// position `p` aligned for the header, and the header that resolver made for
/// `p`, which is the last thing written.
pub open spec fn archived<T: Archive>(value: &T, before: Seq<u8>, start: nat, after: Seq<u8>, end: nat, p: nat) -> bool {
    &&& p % <T::Archived as ByteImage>::spec_align() == 0
    &&& end == p + <T::Archived as ByteImage>::spec_size()
    &&& kept(before, after, start)
    &&& exists|q: nat, res: T::Resolver|
        #![trigger res.spec_refers_before(q)]
        {
            &&& start <= q
            &&& value.spec_flat() ==> q == start
            &&& p == aligned_pos(q, <T::Archived as ByteImage>::spec_align())
            &&& res.spec_refers_before(q)
            &&& res.spec_fits(p)
            &&& forall|i: int| q <= i < p ==> after[i] == 0u8
            &&& header_at(after, p, res.spec_resolve(p, value).spec_image())
        }
}

/// What a successful archive by reference of `value` leaves: as for
/// `archived`, with stage one described by `spec_archived_ref`, which ended
/// at `q` with the bytes `mid`, all kept below `q`.
pub open spec fn archived_ref<T: ArchiveRef>(value: &T, before: Seq<u8>, start: nat, after: Seq<u8>, end: nat, p: nat) -> bool {
    &&& p % <T::Reference as ByteImage>::spec_align() == 0
    &&& end == p + <T::Reference as ByteImage>::spec_size()
    &&& kept(before, after, start)
    &&& exists|q: nat, mid: Seq<u8>, res: T::Resolver|
        #![trigger value.spec_archived_ref(res, before, start, mid, q)]
        {
            &&& start <= q
            &&& value.spec_archived_ref(res, before, start, mid, q)
            &&& kept(mid, after, q)
            &&& p == aligned_pos(q, <T::Reference as ByteImage>::spec_align())
            &&& res.spec_refers_before(q)
            &&& res.spec_fits(p)
            &&& forall|i: int| q <= i < p ==> after[i] == 0u8
            &&& header_at(after, p, res.spec_resolve(p, value).spec_image())
        }
}

/// An append-only byte sink that knows how many bytes it has taken.
///
/// `spec_bytes` is what the sink holds at each archive position; the bytes
/// below `spec_pos` are those emitted so far.
pub trait Write: Sized {
    type Error;

    spec fn spec_pos(&self) -> nat;

    spec fn spec_bytes(&self) -> Seq<u8>;

    /// How many more bytes the sink promises to accept; a negative room
    /// promises nothing, not even an empty write.
    spec fn spec_room(&self) -> int;

    /// The sink takes a write exactly when it fits in the room, and a write
    /// it refuses changes nothing.
    spec fn spec_bounded(&self) -> bool;

    fn pos(&self) -> (r: usize)
        ensures
            r as nat == self.spec_pos(),
    ;

    /// Appends `bytes`, which always succeeds within the room. On success the
    /// position advances by exactly their length. On failure the sink may
    /// have taken a first part of them, and the position advanced by that.
    fn write(&mut self, bytes: &[u8]) -> (r: Result<(), Self::Error>)
        ensures
            old(self).spec_pos() <= final(self).spec_pos() <= old(self).spec_pos() + bytes@.len(),
            old(self).spec_bytes().len() <= final(self).spec_bytes().len(),
            bytes@.len() <= old(self).spec_room() ==> r is Ok,
            r is Ok ==> final(self).spec_pos() == old(self).spec_pos() + bytes@.len(),
            r is Ok ==> final(self).spec_pos() <= final(self).spec_bytes().len(),
            r is Ok ==> final(self).spec_room() + bytes@.len() >= old(self).spec_room(),
            old(self).spec_bounded() ==> final(self).spec_bounded(),
            old(self).spec_bounded() ==> final(self).spec_bytes().len() == old(self).spec_bytes().len(),
            old(self).spec_bounded() && bytes@.len() > old(self).spec_room() ==> r is Err && *final(self) == *old(self),
            old(self).spec_bounded() && r is Ok ==> final(self).spec_room() + bytes@.len() == old(self).spec_room(),
            emitted(
                old(self).spec_bytes(),
                old(self).spec_pos(),
                bytes@.subrange(0, final(self).spec_pos() - old(self).spec_pos()),
                final(self).spec_bytes(),
            ),
    ;
}

/// Operations layered on every sink.
pub trait WriteExt: Write + Sized {
    /// Emits zero bytes, in chunks of at most sixteen, until the position is a
    /// multiple of `align`, and returns that position. An aligned sink is left
    /// as it is; a sink with room for the padding always gets it.
    fn align(&mut self, align: usize) -> (r: Result<usize, Self::Error>)
        requires
            align > 0,
        ensures
            old(self).spec_pos() <= final(self).spec_pos() <= aligned_pos(old(self).spec_pos(), align as nat),
            old(self).spec_bytes().len() <= final(self).spec_bytes().len(),
            old(self).spec_pos() % (align as nat) == 0 ==> r == Ok::<usize, Self::Error>(old(self).spec_pos() as usize)
                && *final(self) == *old(self),
            aligned_pos(old(self).spec_pos(), align as nat) - old(self).spec_pos() <= old(self).spec_room() ==> r is Ok,
            r is Ok ==> final(self).spec_room() + (final(self).spec_pos() - old(self).spec_pos()) >= old(self).spec_room(),
            old(self).spec_bounded() ==> final(self).spec_bounded(),
            old(self).spec_bounded() ==> final(self).spec_bytes().len() == old(self).spec_bytes().len(),
            old(self).spec_bounded() && r is Ok
                ==> final(self).spec_room() + (final(self).spec_pos() - old(self).spec_pos()) == old(self).spec_room(),
            old(self).spec_bounded() && old(self).spec_pos() % (align as nat) != 0
                && aligned_pos(old(self).spec_pos(), align as nat) - old(self).spec_pos() > old(self).spec_room() ==> r is Err,
            old(self).spec_bounded() && aligned_pos(old(self).spec_pos(), align as nat) - old(self).spec_pos() > old(self).spec_room()
                && aligned_pos(old(self).spec_pos(), align as nat) - old(self).spec_pos() <= 16 ==> *final(self) == *old(self),
            emitted(
                old(self).spec_bytes(),
                old(self).spec_pos(),
                zeros((final(self).spec_pos() - old(self).spec_pos()) as nat),
                final(self).spec_bytes(),
            ),
            r is Ok ==> {
                &&& r->Ok_0 as nat == final(self).spec_pos()
                &&& final(self).spec_pos() == aligned_pos(old(self).spec_pos(), align as nat)
                &&& final(self).spec_pos() % (align as nat) == 0
                &&& emitted(
                    old(self).spec_bytes(),
                    old(self).spec_pos(),
                    zeros((final(self).spec_pos() - old(self).spec_pos()) as nat),
                    final(self).spec_bytes(),
                )
            },
    {
        let start = self.pos();
        let offset = start % align;
        if offset != 0 {
            let mut zeroes: Vec<u8> = Vec::new();
            while zeroes.len() < 16
                invariant
                    zeroes.len() <= 16,
                    forall|i: int| 0 <= i < zeroes.len() ==> zeroes@[i] == 0u8,
                decreases 16 - zeroes.len(),
            {
                zeroes.push(0u8);
            }
            assert(zeroes@ =~= Seq::new(16, |i: int| 0u8));
            let total: usize = align - offset;
            let mut padding: usize = total;
            let ghost before = self.spec_bytes();
            loop
                invariant_except_break
                    0 < padding <= total,
                    total <= 16 ==> padding == total,
                invariant
                    total == align - offset,
                    start as nat == old(self).spec_pos(),
                    offset == start % align,
                    offset != 0,
                    aligned_pos(start as nat, align as nat) == start + total,
                    zeroes@ == Seq::new(16, |i: int| 0u8),
                    start as nat <= self.spec_pos(),
                    self.spec_pos() == start + (total - padding),
                    before == old(self).spec_bytes(),
                    before.len() <= self.spec_bytes().len(),
                    self.spec_room() + (total - padding) >= old(self).spec_room(),
                    old(self).spec_bounded() ==> self.spec_bounded(),
                    old(self).spec_bounded() ==> self.spec_bytes().len() == before.len(),
                    old(self).spec_bounded() ==> self.spec_room() + (total - padding) == old(self).spec_room(),
                    old(self).spec_bounded() && total - padding > 0 ==> self.spec_room() >= 0,
                    total - padding == 0 ==> *self == *old(self),
                    emitted(before, start as nat, zeros((total - padding) as nat), self.spec_bytes()),
                ensures
                    padding == 0,
                decreases padding,
            {
                let len = if padding < 16 { padding } else { 16 };
                let chunk = vstd::slice::slice_subrange(zeroes.as_slice(), 0, len);
                let ghost done = (total - padding) as nat;
                let ghost mid = self.spec_bytes();
                let ghost prior = *self;
                let written = self.write(chunk);
                proof {
                    if old(self).spec_bounded() && done == 0 && total <= 16 && total > old(self).spec_room() {
                        assert(prior == *old(self));
                        assert(chunk@.len() == total);
                        assert(written is Err && *self == prior);
                    }
                }
                proof {
                    let k = (self.spec_pos() - (start + done)) as nat;
                    assert(chunk@.subrange(0, k as int) =~= zeros(k));
                    lemma_emitted_join(before, start as nat, zeros(done), mid, zeros(k), self.spec_bytes());
                    assert(zeros(done) + zeros(k) =~= zeros(done + k));
                }
                match written {
                    Ok(()) => {},
                    Err(e) => {
                        return Err(e);
                    },
                }
                padding = padding - len;
                if padding == 0 {
                    break;
                }
            }
        }
        let end = self.pos();
        proof {
            lemma_aligned_pos(start as nat, align as nat);
            if offset == 0 {
                assert(zeros(0) =~= seq![]);
            }
        }
        Ok(end)
    }

    /// Aligns the position for a value of type `T`, as `align` does.
    fn align_for<T>(&mut self) -> (r: Result<usize, Self::Error>)
        ensures
            old(self).spec_pos() <= final(self).spec_pos() <= aligned_pos(old(self).spec_pos(), vstd::layout::align_of::<T>()),
            old(self).spec_bytes().len() <= final(self).spec_bytes().len(),
            old(self).spec_pos() % (vstd::layout::align_of::<T>()) == 0 ==> r == Ok::<usize, Self::Error>(old(self).spec_pos() as usize)
                && *final(self) == *old(self),
            aligned_pos(old(self).spec_pos(), vstd::layout::align_of::<T>()) - old(self).spec_pos() <= old(self).spec_room() ==> r is Ok,
            r is Ok ==> final(self).spec_room() + (final(self).spec_pos() - old(self).spec_pos()) >= old(self).spec_room(),
            old(self).spec_bounded() ==> final(self).spec_bounded(),
            old(self).spec_bounded() ==> final(self).spec_bytes().len() == old(self).spec_bytes().len(),
            old(self).spec_bounded() && r is Ok
                ==> final(self).spec_room() + (final(self).spec_pos() - old(self).spec_pos()) == old(self).spec_room(),
            old(self).spec_bounded() && old(self).spec_pos() % (vstd::layout::align_of::<T>()) != 0
                && aligned_pos(old(self).spec_pos(), vstd::layout::align_of::<T>()) - old(self).spec_pos() > old(self).spec_room() ==> r is Err,
            old(self).spec_bounded() && aligned_pos(old(self).spec_pos(), vstd::layout::align_of::<T>()) - old(self).spec_pos() > old(self).spec_room()
                && aligned_pos(old(self).spec_pos(), vstd::layout::align_of::<T>()) - old(self).spec_pos() <= 16 ==> *final(self) == *old(self),
            emitted(
                old(self).spec_bytes(),
                old(self).spec_pos(),
                zeros((final(self).spec_pos() - old(self).spec_pos()) as nat),
                final(self).spec_bytes(),
            ),
            r is Ok ==> {
                &&& r->Ok_0 as nat == final(self).spec_pos()
                &&& final(self).spec_pos() == aligned_pos(old(self).spec_pos(), vstd::layout::align_of::<T>())
                &&& final(self).spec_pos() % (vstd::layout::align_of::<T>()) == 0
                &&& emitted(
                    old(self).spec_bytes(),
                    old(self).spec_pos(),
                    zeros((final(self).spec_pos() - old(self).spec_pos()) as nat),
                    final(self).spec_bytes(),
                )
            },
    {
        broadcast use vstd::layout::align_nonzero;
        self.align(core::mem::align_of::<T>())
    }

    /// Stage two: makes the header for `value` at the current position and
    /// writes it. The position must already suit the header's alignment.
    fn resolve_aligned<T, R: Resolve<T>>(&mut self, value: &T, resolver: R) -> (r: Result<usize, ArchiveError<Self::Error>>)
        requires
            old(self).spec_pos() % R::Archived::spec_align() == 0,
        ensures
            old(self).spec_pos() <= final(self).spec_pos() <= old(self).spec_pos() + R::Archived::spec_size(),
            old(self).spec_bytes().len() <= final(self).spec_bytes().len(),
            !resolver.spec_fits(old(self).spec_pos()) ==> r is Err && r->Err_0 is OffsetOverflow && *final(self) == *old(self),
            resolver.spec_fits(old(self).spec_pos()) && R::Archived::spec_size() <= old(self).spec_room()
                ==> r == Ok::<usize, ArchiveError<Self::Error>>(old(self).spec_pos() as usize),
            resolver.spec_fits(old(self).spec_pos()) && r is Err ==> r->Err_0 is Write && R::Archived::spec_size() > old(self).spec_room(),
            old(self).spec_bounded() ==> final(self).spec_bounded(),
            old(self).spec_bounded() ==> final(self).spec_bytes().len() == old(self).spec_bytes().len(),
            r is Ok ==> final(self).spec_pos() <= final(self).spec_bytes().len(),
            old(self).spec_bounded() && R::Archived::spec_size() > old(self).spec_room() ==> r is Err && *final(self) == *old(self),
            old(self).spec_bounded() && r is Ok ==> final(self).spec_room() + R::Archived::spec_size() == old(self).spec_room(),
            emitted(
                old(self).spec_bytes(),
                old(self).spec_pos(),
                resolver.spec_resolve(old(self).spec_pos(), value).spec_image().subrange(0, final(self).spec_pos() - old(self).spec_pos()),
                final(self).spec_bytes(),
            ),
            r is Ok ==> {
                &&& r->Ok_0 as nat == old(self).spec_pos()
                &&& resolver.spec_fits(old(self).spec_pos())
                &&& final(self).spec_pos() == old(self).spec_pos() + R::Archived::spec_size()
                &&& final(self).spec_room() + R::Archived::spec_size() >= old(self).spec_room()
                &&& emitted(
                    old(self).spec_bytes(),
                    old(self).spec_pos(),
                    resolver.spec_resolve(old(self).spec_pos(), value).spec_image(),
                    final(self).spec_bytes(),
                )
            },
    {
        let pos = self.pos();
        if !resolver.fits(pos) {
            proof {
                assert(Seq::<u8>::empty() =~= resolver.spec_resolve(pos as nat, value).spec_image().subrange(0, 0));
            }
            return Err(ArchiveError::OffsetOverflow);
        }
        let archived = resolver.resolve(pos, value);
        proof {
            archived.lemma_layout();
        }
        let data = archived.image();
        let written = self.write(data.as_slice());
        proof {
            assert(data@.subrange(0, data@.len() as int) =~= data@);
        }
        match written {
            Ok(()) => Ok(pos),
            Err(e) => Err(ArchiveError::Write(e)),
        }
    }

    /// Archives `value`: its dependencies, then its header at the next
    /// position aligned for the header. Returns the header's position. A value
    /// that owns nothing, whose resolver fits there, is always archived when
    /// the sink has room for the padding and the header.
    fn archive<T: Archive>(&mut self, value: &T) -> (r: Result<usize, ArchiveError<Self::Error>>)
        ensures
            old(self).spec_pos() <= final(self).spec_pos(),
            old(self).spec_bytes().len() <= final(self).spec_bytes().len(),
            r is Ok ==> archived::<T>(
                value,
                old(self).spec_bytes(),
                old(self).spec_pos(),
                final(self).spec_bytes(),
                final(self).spec_pos(),
                r->Ok_0 as nat,
            ),
            r is Ok ==> final(self).spec_room() + (final(self).spec_pos() - old(self).spec_pos()) >= old(self).spec_room(),
            ({
                let p = aligned_pos(value.spec_stage_end(old(self).spec_pos()), <T::Archived as ByteImage>::spec_align());
                value.spec_sure(old(self).spec_pos(), old(self).spec_room())
                    && p + <T::Archived as ByteImage>::spec_size() - old(self).spec_pos() <= old(self).spec_room()
                    ==> r is Ok && r->Ok_0 as nat == p
            }),
            ({
                let p = aligned_pos(old(self).spec_pos(), <T::Archived as ByteImage>::spec_align());
                value.spec_flat() && (forall|res: T::Resolver| #[trigger] res.spec_fits(p)) && old(self).spec_bounded()
                    && p + <T::Archived as ByteImage>::spec_size() - old(self).spec_pos() > old(self).spec_room()
                    ==> r is Err && r->Err_0 is Write
            }),
            ({
                let p = aligned_pos(old(self).spec_pos(), <T::Archived as ByteImage>::spec_align());
                r is Err && r->Err_0 is OffsetOverflow ==> !value.spec_flat() || exists|res: T::Resolver| !#[trigger] res.spec_fits(p)
            }),
    {
        let ghost before = self.spec_bytes();
        let ghost start = self.spec_pos();
        let resolver = match value.archive(self) {
            Ok(res) => res,
            Err(e) => {
                return Err(e);
            },
        };
        let ghost mid = self.spec_bytes();
        let ghost q = self.spec_pos();
        proof {
            <T::Archived as ByteImage>::lemma_layout_of();
            lemma_aligned_pos(q, <T::Archived as ByteImage>::spec_align());
        }
        match self.align(<T::Archived as ByteImage>::align()) {
            Ok(_) => {},
            Err(e) => {
                return Err(ArchiveError::Write(e));
            },
        }
        let ghost padded = self.spec_bytes();
        let ghost p = self.spec_pos();
        let ghost res = resolver;
        let r = self.resolve_aligned(value, resolver);
        proof {
            if r is Ok {
                let a = self.spec_bytes();
                assert forall|i: int| q <= i < p implies a[i] == 0u8 by {
                    assert(a[i] == padded[i]);
                    assert(zeros((p - q) as nat)[i - q] == 0u8);
                    assert(padded[q + (i - q)] == zeros((p - q) as nat)[i - q]);
                }
                assert forall|i: int| 0 <= i < start implies a[i] == before[i] by {
                    assert(a[i] == padded[i]);
                    assert(padded[i] == mid[i]);
                }
                assert(res.spec_refers_before(q));
            }
        }
        r
    }

    /// Archives `value` by reference: what it refers to, then the reference
    /// at the next position aligned for it. Returns the reference's position.
    fn archive_ref<T: ArchiveRef>(&mut self, value: &T) -> (r: Result<usize, ArchiveError<Self::Error>>)
        ensures
            old(self).spec_pos() <= final(self).spec_pos(),
            old(self).spec_bytes().len() <= final(self).spec_bytes().len(),
            r is Ok ==> final(self).spec_room() + (final(self).spec_pos() - old(self).spec_pos()) >= old(self).spec_room(),
            ({
                let p = aligned_pos(value.spec_stage_end(old(self).spec_pos()), <T::Reference as ByteImage>::spec_align());
                value.spec_sure(old(self).spec_pos(), old(self).spec_room())
                    && p + <T::Reference as ByteImage>::spec_size() - old(self).spec_pos() <= old(self).spec_room()
                    ==> r is Ok && r->Ok_0 as nat == p
            }),
            r is Ok ==> archived_ref::<T>(
                value,
                old(self).spec_bytes(),
                old(self).spec_pos(),
                final(self).spec_bytes(),
                final(self).spec_pos(),
                r->Ok_0 as nat,
            ),
    {
        let ghost before = self.spec_bytes();
        let ghost start = self.spec_pos();
        let resolver = match value.archive_ref(self) {
            Ok(res) => res,
            Err(e) => {
                return Err(e);
            },
        };
        let ghost mid = self.spec_bytes();
        let ghost q = self.spec_pos();
        proof {
            <T::Reference as ByteImage>::lemma_layout_of();
            lemma_aligned_pos(q, <T::Reference as ByteImage>::spec_align());
        }
        match self.align(<T::Reference as ByteImage>::align()) {
            Ok(_) => {},
            Err(e) => {
                return Err(ArchiveError::Write(e));
            },
        }
        let ghost padded = self.spec_bytes();
        let ghost p = self.spec_pos();
        let ghost res = resolver;
        let r = self.resolve_aligned(value, resolver);
        proof {
            if r is Ok {
                let a = self.spec_bytes();
                assert forall|i: int| q <= i < p implies a[i] == 0u8 by {
                    assert(a[i] == padded[i]);
                    assert(zeros((p - q) as nat)[i - q] == 0u8);
                    assert(padded[q + (i - q)] == zeros((p - q) as nat)[i - q]);
                }
                assert forall|i: int| 0 <= i < q implies a[i] == mid[i] by {
                    assert(a[i] == padded[i]);
                }
                assert forall|i: int| 0 <= i < start implies a[i] == before[i] by {
                    assert(a[i] == mid[i]);
                }
                assert(value.spec_archived_ref(res, before, start, mid, q));
            }
        }
        r
    }
}

impl<W: Write> WriteExt for W {}

} // verus!
