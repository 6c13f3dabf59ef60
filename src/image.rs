use vstd::prelude::*;
use vstd::endian::{endianness, Endian};

verus! {

/// The `n` least significant bytes of `x`, least significant first.
pub open spec fn le_image(x: nat, n: nat) -> Seq<u8>
    decreases n,
{
    if n == 0 {
        seq![]
    } else {
        seq![(x % 256) as u8] + le_image(x / 256, (n - 1) as nat)
    }
}

/// The `n` least significant bytes of `x` in the byte order of the host.
pub open spec fn host_image(x: nat, n: nat) -> Seq<u8> {
    match endianness() {
        Endian::Little => le_image(x, n),
        Endian::Big => le_image(x, n).reverse(),
    }
}

/// Relies on `u16::to_ne_bytes`: the value's bytes in the host's byte order.
#[verifier::external_body]
fn u16_bytes(x: u16) -> (r: [u8; 2])
    ensures
        r@ == host_image(x as nat, 2),
{
    x.to_ne_bytes()
}

/// Relies on `u32::to_ne_bytes`: the value's bytes in the host's byte order.
#[verifier::external_body]
pub(crate) fn u32_bytes(x: u32) -> (r: [u8; 4])
    ensures
        r@ == host_image(x as nat, 4),
{
    x.to_ne_bytes()
}

/// Relies on `u64::to_ne_bytes`: the value's bytes in the host's byte order.
#[verifier::external_body]
fn u64_bytes(x: u64) -> (r: [u8; 8])
    ensures
        r@ == host_image(x as nat, 8),
{
    x.to_ne_bytes()
}

/// A type whose values have a fixed-size byte image that can be copied into an
/// archive and read back in place.
pub trait ByteImage: Sized {
    /// The bytes that make up `self` in an archive.
    spec fn spec_image(&self) -> Seq<u8>;

    /// The number of bytes in every image of this type.
    spec fn spec_size() -> nat;

    /// The alignment that an archived image of this type needs.
    spec fn spec_align() -> nat;

    proof fn lemma_layout(&self)
        ensures
            self.spec_image().len() == Self::spec_size(),
            Self::spec_align() > 0,
            vstd::arithmetic::power2::is_pow2(Self::spec_align() as int),
    ;

    proof fn lemma_layout_of()
        ensures
            Self::spec_align() > 0,
            vstd::arithmetic::power2::is_pow2(Self::spec_align() as int),
    ;

    fn align() -> (r: usize)
        ensures
            r as nat == Self::spec_align(),
    ;

    fn image(&self) -> (r: Vec<u8>)
        ensures
            r@ == self.spec_image(),
    ;
}

impl ByteImage for u8 {
    open spec fn spec_image(&self) -> Seq<u8> {
        seq![*self]
    }

    open spec fn spec_size() -> nat {
        1
    }

    open spec fn spec_align() -> nat {
        vstd::layout::align_of::<u8>()
    }

    proof fn lemma_layout(&self) {
        broadcast use vstd::layout::align_properties, vstd::layout::align_nonzero;
    }

    proof fn lemma_layout_of() {
        broadcast use vstd::layout::align_properties, vstd::layout::align_nonzero;
    }

    fn align() -> (r: usize) {
        core::mem::align_of::<u8>()
    }

    fn image(&self) -> (r: Vec<u8>) {
        vec![*self]
    }
}


pub(crate) fn copy_bytes(b: &[u8]) -> (r: Vec<u8>)
    ensures
        r@ == b@,
{
    vstd::slice::slice_to_vec(b)
}

impl ByteImage for u16 {
    open spec fn spec_image(&self) -> Seq<u8> {
        host_image(*self as nat, 2)
    }

    open spec fn spec_size() -> nat {
        2
    }

    open spec fn spec_align() -> nat {
        vstd::layout::align_of::<u16>()
    }

    proof fn lemma_layout(&self) {
        broadcast use vstd::layout::align_properties, vstd::layout::align_nonzero;
        lemma_host_image_len(*self as nat, 2);
    }

    proof fn lemma_layout_of() {
        broadcast use vstd::layout::align_properties, vstd::layout::align_nonzero;
    }

    fn align() -> (r: usize) {
        core::mem::align_of::<u16>()
    }

    fn image(&self) -> (r: Vec<u8>) {
        let b = u16_bytes(*self);
        copy_bytes(&b)
    }
}

impl ByteImage for u32 {
    open spec fn spec_image(&self) -> Seq<u8> {
        host_image(*self as nat, 4)
    }

    open spec fn spec_size() -> nat {
        4
    }

    open spec fn spec_align() -> nat {
        vstd::layout::align_of::<u32>()
    }

    proof fn lemma_layout(&self) {
        broadcast use vstd::layout::align_properties, vstd::layout::align_nonzero;
        lemma_host_image_len(*self as nat, 4);
    }

    proof fn lemma_layout_of() {
        broadcast use vstd::layout::align_properties, vstd::layout::align_nonzero;
    }

    fn align() -> (r: usize) {
        core::mem::align_of::<u32>()
    }

    fn image(&self) -> (r: Vec<u8>) {
        let b = u32_bytes(*self);
        copy_bytes(&b)
    }
}

impl ByteImage for u64 {
    open spec fn spec_image(&self) -> Seq<u8> {
        host_image(*self as nat, 8)
    }

    open spec fn spec_size() -> nat {
        8
    }

    open spec fn spec_align() -> nat {
        vstd::layout::align_of::<u64>()
    }

    proof fn lemma_layout(&self) {
        broadcast use vstd::layout::align_properties, vstd::layout::align_nonzero;
        lemma_host_image_len(*self as nat, 8);
    }

    proof fn lemma_layout_of() {
        broadcast use vstd::layout::align_properties, vstd::layout::align_nonzero;
    }

    fn align() -> (r: usize) {
        core::mem::align_of::<u64>()
    }

    fn image(&self) -> (r: Vec<u8>) {
        let b = u64_bytes(*self);
        copy_bytes(&b)
    }
}

impl ByteImage for i32 {
    open spec fn spec_image(&self) -> Seq<u8> {
        host_image((*self as u32) as nat, 4)
    }

    open spec fn spec_size() -> nat {
        4
    }

    open spec fn spec_align() -> nat {
        vstd::layout::align_of::<i32>()
    }

    proof fn lemma_layout(&self) {
        broadcast use vstd::layout::align_properties, vstd::layout::align_nonzero;
        lemma_host_image_len((*self as u32) as nat, 4);
    }

    proof fn lemma_layout_of() {
        broadcast use vstd::layout::align_properties, vstd::layout::align_nonzero;
    }

    fn align() -> (r: usize) {
        core::mem::align_of::<i32>()
    }

    fn image(&self) -> (r: Vec<u8>) {
        let b = u32_bytes(*self as u32);
        copy_bytes(&b)
    }
}

impl ByteImage for i64 {
    open spec fn spec_image(&self) -> Seq<u8> {
        host_image((*self as u64) as nat, 8)
    }

    open spec fn spec_size() -> nat {
        8
    }

    open spec fn spec_align() -> nat {
        vstd::layout::align_of::<i64>()
    }

    proof fn lemma_layout(&self) {
        broadcast use vstd::layout::align_properties, vstd::layout::align_nonzero;
        lemma_host_image_len((*self as u64) as nat, 8);
    }

    proof fn lemma_layout_of() {
        broadcast use vstd::layout::align_properties, vstd::layout::align_nonzero;
    }

    fn align() -> (r: usize) {
        core::mem::align_of::<i64>()
    }

    fn image(&self) -> (r: Vec<u8>) {
        let b = u64_bytes(*self as u64);
        copy_bytes(&b)
    }
}

pub proof fn lemma_le_image_len(x: nat, n: nat)
    ensures
        le_image(x, n).len() == n,
    decreases n,
{
    if n > 0 {
        lemma_le_image_len(x / 256, (n - 1) as nat);
    }
}

pub proof fn lemma_host_image_len(x: nat, n: nat)
    ensures
        host_image(x, n).len() == n,
{
    lemma_le_image_len(x, n);
}

} // verus!
