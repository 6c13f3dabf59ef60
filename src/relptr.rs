use vstd::prelude::*;
use core::marker::PhantomData;
use crate::image::{ByteImage, host_image, le_image, lemma_host_image_len, lemma_le_image_len, u32_bytes, copy_bytes};

verus! {

/// Whether `to - from` can be held in a signed 32-bit offset.
pub open spec fn offset_fits(from: int, to: int) -> bool {
    i32::MIN <= to - from <= i32::MAX
}

/// The four bytes that record a self-relative `offset`.
pub open spec fn offset_image(offset: int) -> Seq<u8> {
    host_image((offset as i32 as u32) as nat, 4)
}

/// `bytes` holds, at position `at`, a relative pointer to position `to`.
pub open spec fn points_to(bytes: Seq<u8>, at: int, to: int) -> bool {
    &&& 0 <= at
    &&& at + 4 <= bytes.len()
    &&& offset_fits(at, to)
    &&& bytes.subrange(at, at + 4) == offset_image(to - at)
}

/// Relies on `u32::from_ne_bytes`: the value whose host-order bytes are `b`.
#[verifier::external_body]
fn u32_from_bytes(b: [u8; 4]) -> (r: u32)
    ensures
        host_image(r as nat, 4) == b@,
{
    u32::from_ne_bytes(b)
}

/// A reference to an archived `T`, stored as a signed 32-bit offset from the
/// position of the pointer itself to the position of its referent.
#[derive(Debug)]
pub struct RelPtr<T> {
    offset: i32,
    _phantom: PhantomData<T>,
}

impl<T> RelPtr<T> {
    /// The recorded offset.
    pub closed spec fn spec_offset(&self) -> int {
        self.offset as int
    }

    /// The pointer that `new(from, to)` gives.
    pub closed spec fn spec_new(from: int, to: int) -> Self {
        RelPtr { offset: (to - from) as i32, _phantom: PhantomData }
    }

    /// A pointer stored at `from` that refers to `to`. The offset must fit in
    /// 32 signed bits: it is never truncated.
    pub fn new(from: usize, to: usize) -> (r: Self)
        requires
            offset_fits(from as int, to as int),
        ensures
            r == Self::spec_new(from as int, to as int),
            r.spec_offset() == to - from,
    {
        let offset = if to >= from {
            (to - from) as i32
        } else {
            -((from - to) as i64) as i32
        };
        Self { offset, _phantom: PhantomData }
    }

    /// The recorded offset.
    pub fn offset(&self) -> (r: i32)
        ensures
            r as int == self.spec_offset(),
    {
        self.offset
    }

    /// Reads the relative pointer recorded at position `at` of an archive and
    /// gives the position it refers to, or `None` where fewer than four bytes
    /// remain or the referent would lie outside the addressable range.
    pub fn read(bytes: &[u8], at: usize) -> (r: Option<usize>)
        ensures
            r is Some ==> points_to(bytes@, at as int, r->Some_0 as int),
            forall|t: usize| points_to(bytes@, at as int, t as int) ==> r == Some(t),
    {
        if bytes.len() < 4 || at > bytes.len() - 4 {
            return None;
        }
        let b: [u8; 4] = [bytes[at], bytes[at + 1], bytes[at + 2], bytes[at + 3]];
        let v = u32_from_bytes(b);
        let offset: i32 = #[verifier::truncate] (v as i32);
        proof {
            assert(b@ =~= bytes@.subrange(at as int, at + 4));
            assert((offset as int as i32 as u32) == v) by (bit_vector)
                requires offset == v as i32;
            assert forall|t: usize| points_to(bytes@, at as int, t as int) implies t - at == offset by {
                let w = ((t - at) as i32 as u32);
                lemma_host_image_injective(w as nat, v as nat);
                assert(w == v);
                let d = t - at;
                assert(i32::MIN <= d <= i32::MAX);
                assert(d as i32 as int == d);
                let di: i32 = d as i32;
                assert((di as u32) as i32 == di) by (bit_vector);
            }
        }
        let target: i128 = at as i128 + offset as i128;
        if target < 0 || target > usize::MAX as i128 {
            None
        } else {
            Some(target as usize)
        }
    }
}

impl<T> ByteImage for RelPtr<T> {
    open spec fn spec_image(&self) -> Seq<u8> {
        offset_image(self.spec_offset())
    }

    open spec fn spec_size() -> nat {
        4
    }

    open spec fn spec_align() -> nat {
        4
    }

    proof fn lemma_layout(&self) {
        lemma_host_image_len((self.spec_offset() as i32 as u32) as nat, 4);
        reveal_with_fuel(vstd::arithmetic::power2::is_pow2, 4);
    }

    proof fn lemma_layout_of() {
        reveal_with_fuel(vstd::arithmetic::power2::is_pow2, 4);
    }

    fn align() -> (r: usize) {
        4
    }

    fn image(&self) -> (r: Vec<u8>) {
        let b = u32_bytes(self.offset as u32);
        copy_bytes(&b)
    }
}

/// A relative pointer made as `new(p, q)` and written at `p` refers to `q`,
/// and to no other position.
pub proof fn lemma_rel_ptr_refers<T>(bytes: Seq<u8>, p: int, q: int)
    requires
        0 <= p,
        p + 4 <= bytes.len(),
        offset_fits(p, q),
        bytes.subrange(p, p + 4) == RelPtr::<T>::spec_new(p, q).spec_image(),
    ensures
        points_to(bytes, p, q),
        forall|t: int| points_to(bytes, p, t) ==> t == q,
{
    assert(RelPtr::<T>::spec_new(p, q).spec_offset() == q - p);
    assert forall|t: int| points_to(bytes, p, t) implies t == q by {
        let a = t - p;
        let b = q - p;
        let ai: i32 = a as i32;
        let bi: i32 = b as i32;
        lemma_host_image_injective((ai as u32) as nat, (bi as u32) as nat);
        assert(ai as u32 == bi as u32 ==> ai == bi) by (bit_vector);
    }
}

proof fn lemma_le_image_injective(x: nat, y: nat, n: nat)
    requires
        le_image(x, n) == le_image(y, n),
        x < vstd::arithmetic::power::pow(256, n),
        y < vstd::arithmetic::power::pow(256, n),
    ensures
        x == y,
    decreases n,
{
    vstd::arithmetic::power::lemma_pow0(256);
    if n > 0 {
        let m = (n - 1) as nat;
        assert(le_image(x, n)[0] == (x % 256) as u8);
        assert(le_image(y, n)[0] == (y % 256) as u8);
        assert(le_image(x, n)[0] == le_image(y, n)[0]);
        assert(x % 256 == y % 256);
        lemma_le_image_len(x / 256, m);
        lemma_le_image_len(y / 256, m);
        assert(le_image(x / 256, m) =~= le_image(x, n).subrange(1, n as int));
        assert(le_image(y / 256, m) =~= le_image(y, n).subrange(1, n as int));
        vstd::arithmetic::power::lemma_pow_adds(256, 1, m);
        vstd::arithmetic::power::lemma_pow1(256);
        vstd::arithmetic::div_mod::lemma_multiply_divide_lt(x as int, 256, vstd::arithmetic::power::pow(256, m));
        vstd::arithmetic::div_mod::lemma_multiply_divide_lt(y as int, 256, vstd::arithmetic::power::pow(256, m));
        lemma_le_image_injective(x / 256, y / 256, m);
        vstd::arithmetic::div_mod::lemma_fundamental_div_mod(x as int, 256);
        vstd::arithmetic::div_mod::lemma_fundamental_div_mod(y as int, 256);
    }
}

/// Distinct 32-bit values have distinct host-order images.
proof fn lemma_host_image_injective(x: nat, y: nat)
    requires
        x <= u32::MAX,
        y <= u32::MAX,
        host_image(x, 4) == host_image(y, 4),
    ensures
        x == y,
{
    let n: nat = 4;
    lemma_le_image_len(x, n);
    lemma_le_image_len(y, n);
    match vstd::endian::endianness() {
        vstd::endian::Endian::Little => {},
        vstd::endian::Endian::Big => {
            assert(le_image(x, n) =~= host_image(x, n).reverse());
            assert(le_image(y, n) =~= host_image(y, n).reverse());
        },
    }
    reveal_with_fuel(vstd::arithmetic::power::pow, 5);
    assert(vstd::arithmetic::power::pow(256, 4) == 0x1_0000_0000);
    lemma_le_image_injective(x, y, n);
}

} // verus!
