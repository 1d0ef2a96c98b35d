use vstd::prelude::*;

use vstd::arithmetic::div_mod::{
    lemma_add_mod_noop, lemma_fundamental_div_mod, lemma_fundamental_div_mod_converse,
    lemma_mod_bound, lemma_mod_multiples_basic, lemma_mul_mod_noop_general,
};

use crate::balloon::Balloon;
use crate::balloon::BalloonBuilder;
use crate::error::Error;
use crate::prelude::be_bytes_nat;
use crate::prelude::FixedHash;
use crate::prelude::FixedUint;
use crate::prelude::HashAlgo;

verus! {

/// A 256-bit unsigned integer held as four 64-bit limbs, least
/// significant limb first.
#[derive(Debug)]
pub struct U256(pub [u64; 4]);

/// 2 raised to the 64th power: the weight of one limb.
pub open spec fn limb_base() -> nat {
    0x1_0000_0000_0000_0000
}

/// 256 raised to the `n`th power: the weight of the leading byte of an
/// `n`-byte big-endian value.
pub open spec fn pow256(n: nat) -> nat
    decreases n,
{
    if n == 0 {
        1
    } else {
        256 * pow256((n - 1) as nat)
    }
}

/// Reading bytes `off .. off + 8` of `s` big-endian gives the byte-wise
/// weighted sum.
proof fn lemma_be_unfold8(s: Seq<u8>, off: int)
    requires
        0 <= off,
        off + 8 <= s.len(),
    ensures
        be_bytes_nat(s.subrange(off, off + 8)) == ((((((s[off] * 256 + s[off + 1]) * 256 + s[off
            + 2]) * 256 + s[off + 3]) * 256 + s[off + 4]) * 256 + s[off + 5]) * 256 + s[off + 6])
            * 256 + s[off + 7],
{
    let s0 = s.subrange(off, off + 0);
    let s1 = s.subrange(off, off + 1);
    let s2 = s.subrange(off, off + 2);
    let s3 = s.subrange(off, off + 3);
    let s4 = s.subrange(off, off + 4);
    let s5 = s.subrange(off, off + 5);
    let s6 = s.subrange(off, off + 6);
    let s7 = s.subrange(off, off + 7);
    let s8 = s.subrange(off, off + 8);
    assert(s0 =~= Seq::<u8>::empty());
    assert(be_bytes_nat(s0) == 0);
    assert(s1.drop_last() =~= s0 && s1.last() == s[off]);
    assert(s2.drop_last() =~= s1 && s2.last() == s[off + 1]);
    assert(s3.drop_last() =~= s2 && s3.last() == s[off + 2]);
    assert(s4.drop_last() =~= s3 && s4.last() == s[off + 3]);
    assert(s5.drop_last() =~= s4 && s5.last() == s[off + 4]);
    assert(s6.drop_last() =~= s5 && s6.last() == s[off + 5]);
    assert(s7.drop_last() =~= s6 && s7.last() == s[off + 6]);
    assert(s8.drop_last() =~= s7 && s8.last() == s[off + 7]);
    assert(be_bytes_nat(s1) == be_bytes_nat(s0) * 256 + s[off]);
    assert(be_bytes_nat(s2) == be_bytes_nat(s1) * 256 + s[off + 1]);
    assert(be_bytes_nat(s3) == be_bytes_nat(s2) * 256 + s[off + 2]);
    assert(be_bytes_nat(s4) == be_bytes_nat(s3) * 256 + s[off + 3]);
    assert(be_bytes_nat(s5) == be_bytes_nat(s4) * 256 + s[off + 4]);
    assert(be_bytes_nat(s6) == be_bytes_nat(s5) * 256 + s[off + 5]);
    assert(be_bytes_nat(s7) == be_bytes_nat(s6) * 256 + s[off + 6]);
    assert(be_bytes_nat(s8) == be_bytes_nat(s7) * 256 + s[off + 7]);
}

/// Splitting a big-endian byte string: the left part is shifted up by
/// one factor of 256 for every byte on the right.
proof fn lemma_be_concat(a: Seq<u8>, b: Seq<u8>)
    ensures
        be_bytes_nat(a + b) == be_bytes_nat(a) * pow256(b.len()) + be_bytes_nat(b),
    decreases b.len(),
{
    if b.len() == 0 {
        assert(a + b =~= a);
        assert(pow256(0) == 1);
        assert(be_bytes_nat(a) * 1 == be_bytes_nat(a));
    } else {
        lemma_be_concat(a, b.drop_last());
        assert((a + b).drop_last() =~= a + b.drop_last());
        assert((a + b).last() == b.last());
        let x = be_bytes_nat(a);
        let p = pow256((b.len() - 1) as nat);
        let y = be_bytes_nat(b.drop_last());
        let z = b.last() as nat;
        assert(be_bytes_nat(a + b) == (x * p + y) * 256 + z);
        assert(pow256(b.len()) == 256 * p);
        assert((x * p + y) * 256 + z == x * (256 * p) + (y * 256 + z)) by (nonlinear_arith);
        assert(be_bytes_nat(b) == y * 256 + z);
    }
}

/// Reads bytes `off .. off + 8` of `slice` as a big-endian 64-bit
/// integer.
fn be_u64_at(slice: &[u8], off: usize) -> (r: u64)
    requires
        off + 8 <= slice@.len(),
    ensures
        r as nat == be_bytes_nat(slice@.subrange(off as int, off as int + 8)),
{
    let b0 = slice[off] as u64;
    let b1 = slice[off + 1] as u64;
    let b2 = slice[off + 2] as u64;
    let b3 = slice[off + 3] as u64;
    let b4 = slice[off + 4] as u64;
    let b5 = slice[off + 5] as u64;
    let b6 = slice[off + 6] as u64;
    let b7 = slice[off + 7] as u64;
    let r = b0 * 0x0100_0000_0000_0000 + b1 * 0x0001_0000_0000_0000 + b2 * 0x0000_0100_0000_0000
        + b3 * 0x0000_0001_0000_0000 + b4 * 0x0000_0000_0100_0000 + b5 * 0x0000_0000_0001_0000
        + b6 * 0x0000_0000_0000_0100 + b7;
    proof {
        lemma_be_unfold8(slice@, off as int);
    }
    r
}

impl U256 {
    /// The numeric value: limbs weighted by increasing powers of 2^64.
    pub open spec fn spec_value(&self) -> nat {
        (self.0[0] + self.0[1] * limb_base() + self.0[2] * (limb_base() * limb_base()) + self.0[3]
            * (limb_base() * limb_base() * limb_base())) as nat
    }
}

impl FixedUint for U256 {
    open spec fn as_nat(&self) -> nat {
        self.spec_value()
    }

    fn from_slice(slice: &[u8]) -> (r: Self) {
        let w3 = be_u64_at(slice, 0);
        let w2 = be_u64_at(slice, 8);
        let w1 = be_u64_at(slice, 16);
        let w0 = be_u64_at(slice, 24);
        let r = U256([w0, w1, w2, w3]);
        proof {
            let s = slice@;
            let t = s.take(32);
            let c0 = s.subrange(0, 8);
            let c1 = s.subrange(8, 16);
            let c2 = s.subrange(16, 24);
            let c3 = s.subrange(24, 32);
            assert(c0 + c1 =~= s.subrange(0, 16));
            assert(s.subrange(0, 16) + c2 =~= s.subrange(0, 24));
            assert(s.subrange(0, 24) + c3 =~= t);
            lemma_be_concat(c0, c1);
            lemma_be_concat(s.subrange(0, 16), c2);
            lemma_be_concat(s.subrange(0, 24), c3);
            assert(pow256(8) == limb_base()) by {
                reveal_with_fuel(pow256, 9);
            }
            let k = limb_base();
            let a = w3 as nat;
            let b = w2 as nat;
            let c = w1 as nat;
            let d = w0 as nat;
            assert(be_bytes_nat(t) == ((a * k + b) * k + c) * k + d);
            assert(((a * k + b) * k + c) * k + d == d + c * k + b * (k * k) + a * (k * k * k))
                by (nonlinear_arith);
            assert(r.spec_value() == be_bytes_nat(t));
        }
        r
    }

    fn modulo(&self, divisor: u64) -> (r: u64) {
        let m_2_64: u64 = {
            let x = u64::MAX % divisor + 1;
            if x == divisor {
                0
            } else {
                x
            }
        };
        proof {
            lemma_two_64_mod(divisor, m_2_64);
        }
        let d = divisor as u128;
        let rr = m_2_64 as u128;
        let tmp3: u128 = (self.0[3] % divisor) as u128;
        proof {
            lemma_horner_mod(self.0[3] as nat, self.0[2] as nat, divisor as nat);
            lemma_mul_fits(tmp3 as nat, rr as nat, self.0[2] as nat, divisor as nat);
        }
        let tmp2 = (tmp3 * rr + self.0[2] as u128) % d;
        proof {
            let v2 = self.0[3] as nat * limb_base() + self.0[2] as nat;
            lemma_horner_mod(v2, self.0[1] as nat, divisor as nat);
            lemma_mul_fits(tmp2 as nat, rr as nat, self.0[1] as nat, divisor as nat);
        }
        let tmp1 = (tmp2 * rr + self.0[1] as u128) % d;
        proof {
            let v2 = self.0[3] as nat * limb_base() + self.0[2] as nat;
            let v1 = v2 * limb_base() + self.0[1] as nat;
            lemma_horner_mod(v1, self.0[0] as nat, divisor as nat);
            lemma_mul_fits(tmp1 as nat, rr as nat, self.0[0] as nat, divisor as nat);
        }
        let tmp0 = (tmp1 * rr + self.0[0] as u128) % d;
        proof {
            let k = limb_base();
            let l3 = self.0[3] as nat;
            let l2 = self.0[2] as nat;
            let l1 = self.0[1] as nat;
            let l0 = self.0[0] as nat;
            assert(((l3 * k + l2) * k + l1) * k + l0 == l0 + l1 * k + l2 * (k * k) + l3 * (k * k
                * k)) by (nonlinear_arith);
            lemma_mod_bound((((l3 * k + l2) * k + l1) * k + l0) as int, divisor as int);
        }
        tmp0 as u64
    }
}

/// `m` equals 2^64 modulo `d`, as the unbiased-reduction setup computes
/// it from `u64::MAX % d + 1`.
proof fn lemma_two_64_mod(d: u64, m: u64)
    requires
        d > 0,
        ({
            let x = (u64::MAX % d + 1) as u64;
            m == if x == d {
                0u64
            } else {
                x
            }
        }),
    ensures
        m as nat == limb_base() % (d as nat),
        m < d,
{
    let k = limb_base() as int;
    let di = d as int;
    lemma_fundamental_div_mod(k - 1, di);
    let q = (k - 1) / di;
    let r = (k - 1) % di;
    assert(k == di * q + (r + 1));
    if r + 1 == d {
        assert(k == di * (q + 1)) by (nonlinear_arith)
            requires
                k == di * q + (r + 1),
                r + 1 == di,
        ;
        lemma_mod_multiples_basic(q + 1, di);
    } else {
        lemma_fundamental_div_mod_converse(k, di, q, r + 1);
    }
}

/// One Horner step under the modulus: folding in the next limb through
/// the reduced accumulator and the reduced base keeps the remainder.
proof fn lemma_horner_mod(v: nat, l: nat, d: nat)
    requires
        d > 0,
    ensures
        ((v % d) * (limb_base() % d) + l) % d == (v * limb_base() + l) % d,
{
    let k = limb_base() as int;
    let vi = v as int;
    let li = l as int;
    let di = d as int;
    lemma_mul_mod_noop_general(vi, k, di);
    assert(((vi % di) * (k % di)) % di == (vi * k) % di);
    lemma_add_mod_noop((vi % di) * (k % di), li, di);
    lemma_add_mod_noop(vi * k, li, di);
    lemma_mod_bound(li, di);
    assert(((vi % di) * (k % di) + li) % di == (((vi % di) * (k % di)) % di + li % di) % di);
    assert((vi * k + li) % di == ((vi * k) % di + li % di) % di);
}

/// The 128-bit intermediate of one Horner step cannot overflow.
proof fn lemma_mul_fits(acc: nat, r: nat, l: nat, d: nat)
    requires
        acc < d,
        r < d,
        d <= 0xffff_ffff_ffff_ffff,
        l <= 0xffff_ffff_ffff_ffff,
    ensures
        acc * r + l < 0x1_0000_0000_0000_0000_0000_0000_0000_0000,
{
    assert(acc * r + l < 0x1_0000_0000_0000_0000_0000_0000_0000_0000) by (nonlinear_arith)
        requires
            acc < d,
            r < d,
            d <= 0xffff_ffff_ffff_ffff,
            l <= 0xffff_ffff_ffff_ffff,
    ;
}

/// A 32-byte digest: the output of one keyed BLAKE2b-256 call and the
/// block type of the working buffer.
#[derive(Debug)]
pub struct H256(pub [u8; 32]);

impl FixedHash<U256> for H256 {
    open spec fn view_bytes(&self) -> Seq<u8> {
        self.0@
    }

    fn as_bytes(&self) -> (r: &[u8]) {
        &self.0
    }
}

/// The digest the keyed BLAKE2b-256 primitive produces for a given
/// input stream.
pub uninterp spec fn blake2b256_of(data: Seq<u8>) -> Seq<u8>;

/// Relies on blake2b_rs::blake2b: a BLAKE2b digest of `dst.len()` bytes
/// under the given key; with the key fixed it is a pure function of the
/// input bytes.
#[verifier::external_body]
fn blake2b256_digest(data: &[u8]) -> (r: [u8; 32])
    ensures
        r@ == blake2b256_of(data@),
        r@.len() == 32,
{
    let mut dst = [0u8; 32];
    blake2b_rs::blake2b(b"balloon-blake2b256", data, &mut dst);
    dst
}

/// A keyed BLAKE2b-256 hash primitive. Input is buffered and digested
/// when the instance is finalized, which yields the same digest as
/// streaming it into the underlying hasher piece by piece.
pub struct Blake2b256 {
    data: Vec<u8>,
}

impl HashAlgo<U256, H256> for Blake2b256 {
    closed spec fn absorbed(&self) -> Seq<u8> {
        self.data@
    }

    open spec fn digest_of(input: Seq<u8>) -> Seq<u8> {
        blake2b256_of(input)
    }

    fn create() -> (r: Self) {
        Blake2b256 { data: Vec::new() }
    }

    fn update(&mut self, data: &[u8]) -> (r: Result<(), Error>) {
        proof {
            assert(self.data@ + data@.take(0) =~= self.data@);
        }
        let mut k: usize = 0;
        while k < data.len()
            invariant
                k <= data@.len(),
                self.data@ == old(self).data@ + data@.take(k as int),
            decreases data@.len() - k,
        {
            self.data.push(data[k]);
            proof {
                assert(old(self).data@ + data@.take(k as int) + seq![data@[k as int]] =~= old(
                    self,
                ).data@ + data@.take(k as int + 1));
            }
            k += 1;
        }
        proof {
            assert(data@.take(data@.len() as int) =~= data@);
        }
        Ok(())
    }

    fn finalize(self) -> (r: Result<H256, Error>) {
        Ok(H256(blake2b256_digest(self.data.as_slice())))
    }

    fn finalize_into(self, dst: &mut H256) -> (r: Result<(), Error>) {
        dst.0 = blake2b256_digest(self.data.as_slice());
        Ok(())
    }
}

/// Balloon Hashing based on keyed BLAKE2b-256.
///
/// Built by a `Blake2b256BalloonBuilder`.
pub type Blake2b256Balloon = Balloon<U256, H256, Blake2b256>;

/// The builder of `Blake2b256Balloon`.
pub struct Blake2b256BalloonBuilder(BalloonBuilder);

impl Blake2b256BalloonBuilder {
    /// The space cost this builder holds.
    pub closed spec fn spec_space_cost(&self) -> u64 {
        self.0.spec_space_cost()
    }

    /// The time cost this builder holds.
    pub closed spec fn spec_time_cost(&self) -> u64 {
        self.0.spec_time_cost()
    }

    /// The delta this builder holds.
    pub closed spec fn spec_delta(&self) -> u64 {
        self.0.spec_delta()
    }

    /// A builder holding the default costs.
    pub fn new() -> (r: Self)
        ensures
            r.spec_space_cost() == 16,
            r.spec_time_cost() == 20,
            r.spec_delta() == 4,
    {
        Blake2b256BalloonBuilder(BalloonBuilder::new())
    }

    /// Overwrites the space cost; nothing is validated until use.
    pub fn space_cost(&mut self, space_cost: u64)
        ensures
            final(self).spec_space_cost() == space_cost,
            final(self).spec_time_cost() == old(self).spec_time_cost(),
            final(self).spec_delta() == old(self).spec_delta(),
    {
        self.0.space_cost(space_cost);
    }

    /// Overwrites the time cost; nothing is validated until use.
    pub fn time_cost(&mut self, time_cost: u64)
        ensures
            final(self).spec_space_cost() == old(self).spec_space_cost(),
            final(self).spec_time_cost() == time_cost,
            final(self).spec_delta() == old(self).spec_delta(),
    {
        self.0.time_cost(time_cost);
    }

    /// Overwrites the delta; nothing is validated until use.
    pub fn delta(&mut self, delta: u64)
        ensures
            final(self).spec_space_cost() == old(self).spec_space_cost(),
            final(self).spec_time_cost() == old(self).spec_time_cost(),
            final(self).spec_delta() == delta,
    {
        self.0.delta(delta);
    }

    /// Copies the three costs into a BLAKE2b-256 balloon hasher.
    pub fn build(&self) -> (r: Blake2b256Balloon)
        ensures
            r.space_cost() == self.spec_space_cost(),
            r.time_cost() == self.spec_time_cost(),
            r.delta() == self.spec_delta(),
    {
        self.0.build()
    }
}

impl Default for Blake2b256BalloonBuilder {
    /// The same builder as `Blake2b256BalloonBuilder::new`.
    fn default() -> (r: Self)
        ensures
            r.spec_space_cost() == 16,
            r.spec_time_cost() == 20,
            r.spec_delta() == 4,
    {
        Blake2b256BalloonBuilder::new()
    }
}

} // verus!
