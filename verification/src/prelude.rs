use vstd::prelude::*;

use crate::error::Error;

verus! {

/// The value of a byte sequence read as a big-endian unsigned integer.
pub open spec fn be_bytes_nat(s: Seq<u8>) -> nat
    decreases s.len(),
{
    if s.len() == 0 {
        0
    } else {
        (be_bytes_nat(s.drop_last()) * 256 + s.last()) as nat
    }
}

/// The little-endian byte encoding of a 64-bit integer, as fed into the
/// hash stream by `HashAlgo::update_u64`.
pub open spec fn le64(x: u64) -> Seq<u8> {
    vstd::bytes::spec_u64_to_le_bytes(x)
}

/// A fixed-width unsigned integer that can be built from digest bytes;
/// the mixing phase reduces such a value modulo the space cost to pick a
/// pseudo-random block index.
pub trait FixedUint: Sized {
    /// The numeric value this integer holds.
    spec fn as_nat(&self) -> nat;

    /// Reads the first 32 bytes of `slice` as a big-endian 256-bit value.
    fn from_slice(slice: &[u8]) -> (r: Self)
        requires
            slice@.len() >= 32,
        ensures
            r.as_nat() == be_bytes_nat(slice@.take(32)),
    ;

    /// The remainder of `self` divided by `divisor`, free of modulo bias.
    fn modulo(&self, divisor: u64) -> (r: u64)
        requires
            divisor > 0,
        ensures
            r == self.as_nat() % (divisor as nat),
    ;
}

/// A fixed-size digest: the output of one finalized hash primitive and
/// the block type of the working buffer.
pub trait FixedHash<U: FixedUint>: Sized {
    /// The digest bytes.
    spec fn view_bytes(&self) -> Seq<u8>;

    /// The digest bytes, for feeding into further hash steps.
    fn as_bytes(&self) -> (r: &[u8])
        ensures
            r@ == self.view_bytes(),
    ;

    /// Converts the digest to the associated unsigned integer by reading
    /// its first 32 bytes as a big-endian value.
    fn to_int(&self) -> (r: U)
        requires
            self.view_bytes().len() >= 32,
        ensures
            r.as_nat() == be_bytes_nat(self.view_bytes().take(32)),
    {
        U::from_slice(self.as_bytes())
    }
}

/// A single-use hash primitive: create a fresh instance, absorb input,
/// finalize exactly once.
///
/// `digest_of` is the digest an implementation produces for a whole
/// absorbed byte stream; `absorbed` is the stream taken in so far. Every
/// digest must be at least 32 bytes long, so that it can seed a
/// `FixedUint`.
pub trait HashAlgo<U: FixedUint, H: FixedHash<U>>: Sized {
    /// The byte stream absorbed so far.
    spec fn absorbed(&self) -> Seq<u8>;

    /// The digest this primitive produces for a given absorbed stream.
    spec fn digest_of(input: Seq<u8>) -> Seq<u8>;

    /// A fresh instance that has absorbed nothing.
    fn create() -> (r: Self)
        ensures
            r.absorbed() == Seq::<u8>::empty(),
    ;

    /// Absorbs `data`; on success the stream grows by exactly `data`.
    fn update(&mut self, data: &[u8]) -> (r: Result<(), Error>)
        ensures
            r is Ok ==> final(self).absorbed() == old(self).absorbed() + data@,
    ;

    /// Consumes the instance and returns the digest of the absorbed
    /// stream.
    fn finalize(self) -> (r: Result<H, Error>)
        ensures
            r is Ok ==> (r->Ok_0).view_bytes() == Self::digest_of(self.absorbed()),
            r is Ok ==> (r->Ok_0).view_bytes().len() >= 32,
    ;

    /// The same digest as `finalize`, written into caller-provided
    /// storage.
    fn finalize_into(self, dst: &mut H) -> (r: Result<(), Error>)
        ensures
            r is Ok ==> final(dst).view_bytes() == Self::digest_of(self.absorbed()),
            r is Ok ==> final(dst).view_bytes().len() >= 32,
    ;

    /// Absorbs the eight little-endian bytes of `uint64`; this is the
    /// sole way integer indices and counters enter the hash stream.
    fn update_u64(&mut self, uint64: u64) -> (r: Result<(), Error>)
        ensures
            r is Ok ==> final(self).absorbed() == old(self).absorbed() + le64(uint64),
    {
        let bytes = vstd::bytes::u64_to_le_bytes(uint64);
        self.update(bytes.as_slice())
    }
}

} // verus!
