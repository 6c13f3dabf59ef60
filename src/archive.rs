use vstd::prelude::*;
use crate::image::ByteImage;
use crate::relptr::{RelPtr, offset_fits};
use crate::sink::{Write, WriteExt, archived, header_at, aligned_pos};

verus! {

/// Why an archive operation stopped.
#[derive(Debug)]
pub enum ArchiveError<E> {
    /// The sink refused a write; its error is handed on unchanged.
    Write(E),
    /// A relative pointer would need an offset beyond 32 signed bits.
    OffsetOverflow,
}

/// `after` agrees with `before` at every position below `n`.
pub open spec fn kept(before: Seq<u8>, after: Seq<u8>, n: nat) -> bool {
    forall|i: int| 0 <= i < n ==> after[i] == before[i]
}

/// Stage two of archiving a `T`: from the header's position and the original
/// value, the fixed-size header that goes there. It writes nothing.
pub trait Resolve<T> {
    type Archived: ByteImage;

    /// Whether a header can be made at `pos`.
    spec fn spec_fits(&self, pos: nat) -> bool;

    /// The header made at `pos` for `value`.
    spec fn spec_resolve(&self, pos: nat, value: &T) -> Self::Archived;

    /// Every position that the header will refer to lies at or before `pos`.
    spec fn spec_refers_before(&self, pos: nat) -> bool;

    fn fits(&self, pos: usize) -> (r: bool)
        ensures
            r == self.spec_fits(pos as nat),
    ;

    fn resolve(self, pos: usize, value: &T) -> (r: Self::Archived)
        requires
            self.spec_fits(pos as nat),
        ensures
            r == self.spec_resolve(pos as nat, value),
    ;
}

/// Stage one of archiving a value: write what it owns, and return the
/// resolver that will make its header.
pub trait Archive: Sized {
    type Archived: ByteImage;

    type Resolver: Resolve<Self, Archived = Self::Archived>;

    /// The value owns nothing: stage one writes nothing and cannot fail.
    spec fn spec_flat(&self) -> bool;

    /// Stage one, started at `start` on a sink with `room`, is sure to
    /// succeed, with a resolver that fits at the first position after it
    /// that is aligned for the header.
    spec fn spec_sure(&self, start: nat, room: int) -> bool;

    /// Where a stage one that is sure to succeed from `start` ends.
    spec fn spec_stage_end(&self, start: nat) -> nat;

    /// Writes the value's dependencies, never its own header. Bytes written
    /// before the call stay as they were, and the resolver refers only to
    /// what has been written.
    fn archive<W: Write>(&self, writer: &mut W) -> (r: Result<Self::Resolver, ArchiveError<W::Error>>)
        ensures
            old(writer).spec_pos() <= final(writer).spec_pos(),
            old(writer).spec_bytes().len() <= final(writer).spec_bytes().len(),
            self.spec_flat() ==> r is Ok && *final(writer) == *old(writer),
            self.spec_sure(old(writer).spec_pos(), old(writer).spec_room()) ==> {
                &&& r is Ok
                &&& final(writer).spec_pos() == self.spec_stage_end(old(writer).spec_pos())
                &&& r->Ok_0.spec_fits(aligned_pos(final(writer).spec_pos(), <Self::Archived as ByteImage>::spec_align()))
            },
            r is Ok ==> final(writer).spec_room() + (final(writer).spec_pos() - old(writer).spec_pos()) >= old(writer).spec_room(),
            r is Ok ==> kept(old(writer).spec_bytes(), final(writer).spec_bytes(), old(writer).spec_pos()),
            r is Ok ==> r->Ok_0.spec_refers_before(final(writer).spec_pos()),
    ;
}

/// Archiving by reference: the header is a reference to the archived value.
pub trait ArchiveRef: Sized {
    type Archived;

    type Reference: ByteImage;

    type Resolver: Resolve<Self, Archived = Self::Reference>;

    /// What a successful stage one leaves: the sink went from (`before`,
    /// `start`) to (`after`, `end`) and gave `res`.
    spec fn spec_archived_ref(&self, res: Self::Resolver, before: Seq<u8>, start: nat, after: Seq<u8>, end: nat) -> bool;

    /// Stage one, started at `start` on a sink with `room`, is sure to
    /// succeed, with a resolver that fits at the first position after it
    /// that is aligned for the reference.
    spec fn spec_sure(&self, start: nat, room: int) -> bool;

    /// Where a stage one that is sure to succeed from `start` ends.
    spec fn spec_stage_end(&self, start: nat) -> nat;

    /// Writes what the reference will refer to, and returns its resolver.
    fn archive_ref<W: Write>(&self, writer: &mut W) -> (r: Result<Self::Resolver, ArchiveError<W::Error>>)
        ensures
            old(writer).spec_pos() <= final(writer).spec_pos(),
            old(writer).spec_bytes().len() <= final(writer).spec_bytes().len(),
            self.spec_sure(old(writer).spec_pos(), old(writer).spec_room()) ==> {
                &&& r is Ok
                &&& final(writer).spec_pos() == self.spec_stage_end(old(writer).spec_pos())
                &&& r->Ok_0.spec_fits(aligned_pos(final(writer).spec_pos(), <Self::Reference as ByteImage>::spec_align()))
            },
            r is Ok ==> final(writer).spec_room() + (final(writer).spec_pos() - old(writer).spec_pos()) >= old(writer).spec_room(),
            r is Ok ==> kept(old(writer).spec_bytes(), final(writer).spec_bytes(), old(writer).spec_pos()),
            r is Ok ==> r->Ok_0.spec_refers_before(final(writer).spec_pos()),
            r is Ok ==> self.spec_archived_ref(
                r->Ok_0,
                old(writer).spec_bytes(),
                old(writer).spec_pos(),
                final(writer).spec_bytes(),
                final(writer).spec_pos(),
            ),
    ;
}

/// A type whose archived header is its own byte image. Implementing it
/// asserts that every value of the type can be copied as bytes and read back
/// in place.
pub trait ArchiveSelf: Archive<Archived = Self, Resolver = SelfResolver> + Copy + ByteImage {
    proof fn lemma_flat(&self)
        ensures
            self.spec_flat(),
    ;
}

/// Archiving a self-archival value puts its own byte image at the first
/// position at or after the start that is aligned for it, zeros before it,
/// and nothing after it.
pub proof fn lemma_self_archival_image<T: ArchiveSelf>(
    v: T,
    before: Seq<u8>,
    start: nat,
    after: Seq<u8>,
    end: nat,
    p: nat,
)
    requires
        archived::<T>(&v, before, start, after, end, p),
    ensures
        p == aligned_pos(start, <T as ByteImage>::spec_align()),
        end == p + <T as ByteImage>::spec_size(),
        forall|i: int| start <= i < p ==> after[i] == 0u8,
        header_at(after, p, v.spec_image()),
{
    v.lemma_flat();
    let (q, res) = choose|q: nat, res: SelfResolver|
        #![trigger <SelfResolver as Resolve<T>>::spec_refers_before(&res, q)]
        {
            &&& start <= q
            &&& v.spec_flat() ==> q == start
            &&& p == aligned_pos(q, <T as ByteImage>::spec_align())
            &&& <SelfResolver as Resolve<T>>::spec_refers_before(&res, q)
            &&& <SelfResolver as Resolve<T>>::spec_fits(&res, p)
            &&& forall|i: int| q <= i < p ==> after[i] == 0u8
            &&& header_at(after, p, <SelfResolver as Resolve<T>>::spec_resolve(&res, p, &v).spec_image())
        };
    assert(<SelfResolver as Resolve<T>>::spec_resolve(&res, p, &v) == v);
}

/// The resolver of self-archival values: the header is the value itself.
pub struct SelfResolver;

impl<T: Copy + ByteImage> Resolve<T> for SelfResolver {
    type Archived = T;

    open spec fn spec_fits(&self, pos: nat) -> bool {
        true
    }

    open spec fn spec_resolve(&self, pos: nat, value: &T) -> T {
        *value
    }

    open spec fn spec_refers_before(&self, pos: nat) -> bool {
        true
    }

    fn fits(&self, pos: usize) -> (r: bool) {
        true
    }

    fn resolve(self, pos: usize, value: &T) -> (r: T) {
        *value
    }
}

/// A position already written is the resolver of a reference to it.
impl<T: Archive> Resolve<T> for usize {
    type Archived = RelPtr<T::Archived>;

    open spec fn spec_fits(&self, pos: nat) -> bool {
        offset_fits(pos as int, *self as int)
    }

    open spec fn spec_resolve(&self, pos: nat, value: &T) -> RelPtr<T::Archived> {
        RelPtr::spec_new(pos as int, *self as int)
    }

    open spec fn spec_refers_before(&self, pos: nat) -> bool {
        *self as nat <= pos
    }

    fn fits(&self, pos: usize) -> (r: bool) {
        let to = *self;
        if to >= pos {
            to - pos <= i32::MAX as usize
        } else {
            pos - to <= 0x8000_0000usize
        }
    }

    fn resolve(self, pos: usize, value: &T) -> (r: RelPtr<T::Archived>) {
        RelPtr::new(pos, self)
    }
}


/// Anything archived by value can be archived by reference: archive it, and
/// keep its position as the resolver of a relative pointer to it.
impl<T: Archive> ArchiveRef for T {
    type Archived = T::Archived;

    type Reference = RelPtr<T::Archived>;

    type Resolver = usize;

    open spec fn spec_archived_ref(&self, res: usize, before: Seq<u8>, start: nat, after: Seq<u8>, end: nat) -> bool {
        archived::<T>(self, before, start, after, end, res as nat)
    }

    open spec fn spec_sure(&self, start: nat, room: int) -> bool {
        let q = aligned_pos(self.spec_stage_end(start), <T::Archived as ByteImage>::spec_align());
        let end = q + <T::Archived as ByteImage>::spec_size();
        &&& self.spec_sure(start, room)
        &&& end - start <= room
        &&& offset_fits(aligned_pos(end, 4) as int, q as int)
    }

    open spec fn spec_stage_end(&self, start: nat) -> nat {
        aligned_pos(self.spec_stage_end(start), <T::Archived as ByteImage>::spec_align())
            + <T::Archived as ByteImage>::spec_size()
    }

    /// Archives the value and gives the position of its header.
    fn archive_ref<W: Write>(&self, writer: &mut W) -> (r: Result<usize, ArchiveError<W::Error>>)
        ensures
            ({
                let q = aligned_pos(
                    Archive::spec_stage_end(self, old(writer).spec_pos()),
                    <T::Archived as ByteImage>::spec_align(),
                );
                Archive::spec_sure(self, old(writer).spec_pos(), old(writer).spec_room())
                    && q + <T::Archived as ByteImage>::spec_size() - old(writer).spec_pos() <= old(writer).spec_room()
                    ==> r is Ok && r->Ok_0 as nat == q
            }),
            r is Ok ==> archived::<T>(
                self,
                old(writer).spec_bytes(),
                old(writer).spec_pos(),
                final(writer).spec_bytes(),
                final(writer).spec_pos(),
                r->Ok_0 as nat,
            ),
    {
        let r = writer.archive(self);
        proof {
            if Archive::spec_sure(self, old(writer).spec_pos(), old(writer).spec_room())
                && <Self as ArchiveRef>::spec_sure(self, old(writer).spec_pos(), old(writer).spec_room()) {
                let q = aligned_pos(
                    Archive::spec_stage_end(self, old(writer).spec_pos()),
                    <T::Archived as ByteImage>::spec_align(),
                );
                assert(writer.spec_pos() == q + <T::Archived as ByteImage>::spec_size());
                assert(<RelPtr<T::Archived> as ByteImage>::spec_align() == 4);
                assert(<usize as Resolve<T>>::spec_fits(&r->Ok_0, aligned_pos(writer.spec_pos(), 4)));
            }
        }
        r
    }
}

impl Archive for u8 {
    type Archived = u8;

    type Resolver = SelfResolver;

    open spec fn spec_flat(&self) -> bool {
        true
    }

    open spec fn spec_sure(&self, start: nat, room: int) -> bool {
        true
    }

    open spec fn spec_stage_end(&self, start: nat) -> nat {
        start
    }

    fn archive<W: Write>(&self, writer: &mut W) -> (r: Result<SelfResolver, ArchiveError<W::Error>>)
        ensures
            r is Ok,
            *final(writer) == *old(writer),
    {
        proof {
            assert(<SelfResolver as Resolve<u8>>::spec_refers_before(&SelfResolver, writer.spec_pos()));
        }
        Ok(SelfResolver)
    }
}

impl ArchiveSelf for u8 {
    proof fn lemma_flat(&self) {
    }
}

impl Archive for u16 {
    type Archived = u16;

    type Resolver = SelfResolver;

    open spec fn spec_flat(&self) -> bool {
        true
    }

    open spec fn spec_sure(&self, start: nat, room: int) -> bool {
        true
    }

    open spec fn spec_stage_end(&self, start: nat) -> nat {
        start
    }

    fn archive<W: Write>(&self, writer: &mut W) -> (r: Result<SelfResolver, ArchiveError<W::Error>>)
        ensures
            r is Ok,
            *final(writer) == *old(writer),
    {
        proof {
            assert(<SelfResolver as Resolve<u16>>::spec_refers_before(&SelfResolver, writer.spec_pos()));
        }
        Ok(SelfResolver)
    }
}

impl ArchiveSelf for u16 {
    proof fn lemma_flat(&self) {
    }
}

impl Archive for u32 {
    type Archived = u32;

    type Resolver = SelfResolver;

    open spec fn spec_flat(&self) -> bool {
        true
    }

    open spec fn spec_sure(&self, start: nat, room: int) -> bool {
        true
    }

    open spec fn spec_stage_end(&self, start: nat) -> nat {
        start
    }

    fn archive<W: Write>(&self, writer: &mut W) -> (r: Result<SelfResolver, ArchiveError<W::Error>>)
        ensures
            r is Ok,
            *final(writer) == *old(writer),
    {
        proof {
            assert(<SelfResolver as Resolve<u32>>::spec_refers_before(&SelfResolver, writer.spec_pos()));
        }
        Ok(SelfResolver)
    }
}

impl ArchiveSelf for u32 {
    proof fn lemma_flat(&self) {
    }
}

impl Archive for u64 {
    type Archived = u64;

    type Resolver = SelfResolver;

    open spec fn spec_flat(&self) -> bool {
        true
    }

    open spec fn spec_sure(&self, start: nat, room: int) -> bool {
        true
    }

    open spec fn spec_stage_end(&self, start: nat) -> nat {
        start
    }

    fn archive<W: Write>(&self, writer: &mut W) -> (r: Result<SelfResolver, ArchiveError<W::Error>>)
        ensures
            r is Ok,
            *final(writer) == *old(writer),
    {
        proof {
            assert(<SelfResolver as Resolve<u64>>::spec_refers_before(&SelfResolver, writer.spec_pos()));
        }
        Ok(SelfResolver)
    }
}

impl ArchiveSelf for u64 {
    proof fn lemma_flat(&self) {
    }
}

impl Archive for i32 {
    type Archived = i32;

    type Resolver = SelfResolver;

    open spec fn spec_flat(&self) -> bool {
        true
    }

    open spec fn spec_sure(&self, start: nat, room: int) -> bool {
        true
    }

    open spec fn spec_stage_end(&self, start: nat) -> nat {
        start
    }

    fn archive<W: Write>(&self, writer: &mut W) -> (r: Result<SelfResolver, ArchiveError<W::Error>>)
        ensures
            r is Ok,
            *final(writer) == *old(writer),
    {
        proof {
            assert(<SelfResolver as Resolve<i32>>::spec_refers_before(&SelfResolver, writer.spec_pos()));
        }
        Ok(SelfResolver)
    }
}

impl ArchiveSelf for i32 {
    proof fn lemma_flat(&self) {
    }
}

impl Archive for i64 {
    type Archived = i64;

    type Resolver = SelfResolver;

    open spec fn spec_flat(&self) -> bool {
        true
    }

    open spec fn spec_sure(&self, start: nat, room: int) -> bool {
        true
    }

    open spec fn spec_stage_end(&self, start: nat) -> nat {
        start
    }

    fn archive<W: Write>(&self, writer: &mut W) -> (r: Result<SelfResolver, ArchiveError<W::Error>>)
        ensures
            r is Ok,
            *final(writer) == *old(writer),
    {
        proof {
            assert(<SelfResolver as Resolve<i64>>::spec_refers_before(&SelfResolver, writer.spec_pos()));
        }
        Ok(SelfResolver)
    }
}

impl ArchiveSelf for i64 {
    proof fn lemma_flat(&self) {
    }
}

} // verus!
