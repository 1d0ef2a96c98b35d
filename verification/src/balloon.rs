use core::marker::PhantomData;

use vstd::arithmetic::mul::lemma_mul_inequality;
use vstd::pervasive::VecAdditionalExecFns;
use vstd::prelude::*;

use crate::error::Error;
use crate::prelude::be_bytes_nat;
use crate::prelude::le64;
use crate::prelude::FixedHash;
use crate::prelude::FixedUint;
use crate::prelude::HashAlgo;

verus! {

/// The digest bytes of buffer block `idx` right after the expand phase:
/// block 0 hashes the password and the salt, every later block hashes
/// its own index and its left neighbour.
pub open spec fn expand_block<U: FixedUint, H: FixedHash<U>, A: HashAlgo<U, H>>(
    passwd: Seq<u8>,
    salt: Seq<u8>,
    idx: int,
) -> Seq<u8>
    decreases idx,
{
    if idx <= 0 {
        A::digest_of(le64(0) + passwd + salt)
    } else {
        A::digest_of(le64(idx as u64) + expand_block::<U, H, A>(passwd, salt, idx - 1))
    }
}

/// The whole working buffer right after the expand phase.
pub open spec fn expand_buf<U: FixedUint, H: FixedHash<U>, A: HashAlgo<U, H>>(
    passwd: Seq<u8>,
    salt: Seq<u8>,
    space: nat,
) -> Seq<Seq<u8>> {
    Seq::new(space, |i: int| expand_block::<U, H, A>(passwd, salt, i))
}

/// The value of the domain-separation counter when the mix phase
/// reaches round `t`, block `m`: the counter starts at `space` and every
/// block visit before that point consumed `1 + 2 * delta` values.
pub open spec fn cnt_at(space: nat, delta: nat, t: nat, m: nat) -> nat {
    space + (t * space + m) * (1 + 2 * delta)
}

/// One pseudo-random dependency step (phase 2b, iteration `i`) applied
/// to block `m` of `buf` in round `t`.
pub open spec fn mix_dep_once<U: FixedUint, H: FixedHash<U>, A: HashAlgo<U, H>>(
    salt: Seq<u8>,
    space: nat,
    delta: nat,
    t: nat,
    m: nat,
    i: nat,
    buf: Seq<Seq<u8>>,
) -> Seq<Seq<u8>> {
    let c = cnt_at(space, delta, t, m) + 1 + 2 * i;
    let ints_block = A::digest_of(le64(t as u64) + le64(m as u64) + le64(i as u64));
    let hash_idx = A::digest_of(le64(c as u64) + salt + ints_block);
    let other = be_bytes_nat(hash_idx.take(32)) % space;
    buf.update(m as int, A::digest_of(le64((c + 1) as u64) + buf[m as int] + buf[other as int]))
}

/// The first `i` dependency steps of phase 2b for round `t`, block `m`.
pub open spec fn mix_deps<U: FixedUint, H: FixedHash<U>, A: HashAlgo<U, H>>(
    salt: Seq<u8>,
    space: nat,
    delta: nat,
    t: nat,
    m: nat,
    i: nat,
    buf: Seq<Seq<u8>>,
) -> Seq<Seq<u8>>
    decreases i,
{
    if i == 0 {
        buf
    } else {
        mix_dep_once::<U, H, A>(
            salt,
            space,
            delta,
            t,
            m,
            (i - 1) as nat,
            mix_deps::<U, H, A>(salt, space, delta, t, m, (i - 1) as nat, buf),
        )
    }
}

/// One whole visit of block `m` in round `t`: the sequential step
/// (phase 2a, hashing the previous and the current block) followed by
/// `delta` pseudo-random dependency steps.
pub open spec fn mix_block<U: FixedUint, H: FixedHash<U>, A: HashAlgo<U, H>>(
    salt: Seq<u8>,
    space: nat,
    delta: nat,
    t: nat,
    m: nat,
    buf: Seq<Seq<u8>>,
) -> Seq<Seq<u8>> {
    let c = cnt_at(space, delta, t, m);
    let prev = if m == 0 {
        (space - 1) as nat
    } else {
        (m - 1) as nat
    };
    let b1 = buf.update(
        m as int,
        A::digest_of(le64(c as u64) + buf[prev as int] + buf[m as int]),
    );
    mix_deps::<U, H, A>(salt, space, delta, t, m, delta, b1)
}

/// The first `m` block visits of round `t`.
pub open spec fn mix_blocks<U: FixedUint, H: FixedHash<U>, A: HashAlgo<U, H>>(
    salt: Seq<u8>,
    space: nat,
    delta: nat,
    t: nat,
    m: nat,
    buf: Seq<Seq<u8>>,
) -> Seq<Seq<u8>>
    decreases m,
{
    if m == 0 {
        buf
    } else {
        mix_block::<U, H, A>(
            salt,
            space,
            delta,
            t,
            (m - 1) as nat,
            mix_blocks::<U, H, A>(salt, space, delta, t, (m - 1) as nat, buf),
        )
    }
}

/// The first `t` full mixing rounds over the buffer.
pub open spec fn mix_rounds<U: FixedUint, H: FixedHash<U>, A: HashAlgo<U, H>>(
    salt: Seq<u8>,
    space: nat,
    delta: nat,
    t: nat,
    buf: Seq<Seq<u8>>,
) -> Seq<Seq<u8>>
    decreases t,
{
    if t == 0 {
        buf
    } else {
        mix_blocks::<U, H, A>(
            salt,
            space,
            delta,
            (t - 1) as nat,
            space,
            mix_rounds::<U, H, A>(salt, space, delta, (t - 1) as nat, buf),
        )
    }
}

/// The digest that `Balloon::hash` returns: the last block of the
/// buffer after expanding it and running every mixing round.
pub open spec fn balloon_digest<U: FixedUint, H: FixedHash<U>, A: HashAlgo<U, H>>(
    space: nat,
    time: nat,
    delta: nat,
    passwd: Seq<u8>,
    salt: Seq<u8>,
) -> Seq<u8> {
    mix_rounds::<U, H, A>(salt, space, delta, time, expand_buf::<U, H, A>(passwd, salt, space))[
        space as int - 1]
}

/// The digest bytes of each block of a buffer.
pub open spec fn digest_views<U: FixedUint, H: FixedHash<U>>(s: Seq<H>) -> Seq<Seq<u8>> {
    Seq::new(s.len(), |i: int| s[i].view_bytes())
}

/// The dependency steps of one block visit never change how many blocks
/// the buffer holds.
pub proof fn lemma_mix_deps_len<U: FixedUint, H: FixedHash<U>, A: HashAlgo<U, H>>(
    salt: Seq<u8>,
    space: nat,
    delta: nat,
    t: nat,
    m: nat,
    i: nat,
    buf: Seq<Seq<u8>>,
)
    requires
        m < buf.len(),
    ensures
        mix_deps::<U, H, A>(salt, space, delta, t, m, i, buf).len() == buf.len(),
    decreases i,
{
    if i > 0 {
        lemma_mix_deps_len::<U, H, A>(salt, space, delta, t, m, (i - 1) as nat, buf);
    }
}

/// One block visit never changes how many blocks the buffer holds.
pub proof fn lemma_mix_block_len<U: FixedUint, H: FixedHash<U>, A: HashAlgo<U, H>>(
    salt: Seq<u8>,
    space: nat,
    delta: nat,
    t: nat,
    m: nat,
    buf: Seq<Seq<u8>>,
)
    requires
        m < buf.len(),
    ensures
        mix_block::<U, H, A>(salt, space, delta, t, m, buf).len() == buf.len(),
{
    let c = cnt_at(space, delta, t, m);
    let prev = if m == 0 {
        (space - 1) as nat
    } else {
        (m - 1) as nat
    };
    let b1 = buf.update(
        m as int,
        A::digest_of(le64(c as u64) + buf[prev as int] + buf[m as int]),
    );
    lemma_mix_deps_len::<U, H, A>(salt, space, delta, t, m, delta, b1);
}

/// A partial mixing round never changes how many blocks the buffer
/// holds.
pub proof fn lemma_mix_blocks_len<U: FixedUint, H: FixedHash<U>, A: HashAlgo<U, H>>(
    salt: Seq<u8>,
    space: nat,
    delta: nat,
    t: nat,
    m: nat,
    buf: Seq<Seq<u8>>,
)
    requires
        m <= buf.len(),
    ensures
        mix_blocks::<U, H, A>(salt, space, delta, t, m, buf).len() == buf.len(),
    decreases m,
{
    if m > 0 {
        lemma_mix_blocks_len::<U, H, A>(salt, space, delta, t, (m - 1) as nat, buf);
        lemma_mix_block_len::<U, H, A>(
            salt,
            space,
            delta,
            t,
            (m - 1) as nat,
            mix_blocks::<U, H, A>(salt, space, delta, t, (m - 1) as nat, buf),
        );
    }
}

/// The working buffer holds exactly as many blocks after any number of
/// mixing rounds as it held before them.
pub proof fn lemma_mix_rounds_len<U: FixedUint, H: FixedHash<U>, A: HashAlgo<U, H>>(
    salt: Seq<u8>,
    space: nat,
    delta: nat,
    t: nat,
    buf: Seq<Seq<u8>>,
)
    requires
        space <= buf.len(),
    ensures
        mix_rounds::<U, H, A>(salt, space, delta, t, buf).len() == buf.len(),
    decreases t,
{
    if t > 0 {
        lemma_mix_rounds_len::<U, H, A>(salt, space, delta, (t - 1) as nat, buf);
        lemma_mix_blocks_len::<U, H, A>(
            salt,
            space,
            delta,
            (t - 1) as nat,
            space,
            mix_rounds::<U, H, A>(salt, space, delta, (t - 1) as nat, buf),
        );
    }
}

/// Finishing one block visit advances the counter to the next block's
/// starting value, which never passes the final counter value.
proof fn lemma_cnt_block_bound(space: nat, delta: nat, time: nat, t: nat, m: nat)
    requires
        t < time,
        m < space,
    ensures
        cnt_at(space, delta, t, m) + 1 + 2 * delta == cnt_at(space, delta, t, m + 1),
        cnt_at(space, delta, t, m + 1) <= cnt_at(space, delta, time, 0),
{
    assert((t * space + m + 1) * (1 + 2 * delta) == (t * space + m) * (1 + 2 * delta) + (1 + 2
        * delta)) by (nonlinear_arith);
    assert(t * space + m + 1 <= time * space) by (nonlinear_arith)
        requires
            t < time,
            m < space,
    ;
    lemma_mul_inequality((t * space + m + 1) as int, (time * space) as int, (1 + 2 * delta) as int);
}

/// Finishing the last block of a round leaves the counter at the next
/// round's starting value.
proof fn lemma_cnt_round_end(space: nat, delta: nat, t: nat)
    ensures
        cnt_at(space, delta, t, space) == cnt_at(space, delta, t + 1, 0),
{
    assert((t * space + space) * (1 + 2 * delta) == ((t + 1) * space + 0) * (1 + 2 * delta))
        by (nonlinear_arith);
}

/// An abstract implementation of Balloon Hashing over any hash
/// primitive meeting the `HashAlgo` contract.
///
/// Built by a `BalloonBuilder`.
pub struct Balloon<U, H, A> where U: FixedUint, H: FixedHash<U>, A: HashAlgo<U, H> {
    space_cost: u64,
    time_cost: u64,
    delta: u64,
    _u: PhantomData<U>,
    _h: PhantomData<H>,
    _a: PhantomData<A>,
}

impl<U, H, A> Balloon<U, H, A> where U: FixedUint, H: FixedHash<U>, A: HashAlgo<U, H> {
    /// Space cost: how many blocks the working buffer holds.
    pub closed spec fn space_cost(&self) -> u64 {
        self.space_cost
    }

    /// Time cost: how many mixing rounds run over the buffer.
    pub closed spec fn time_cost(&self) -> u64 {
        self.time_cost
    }

    /// Delta: how many pseudo-random dependencies each block visit adds.
    pub closed spec fn delta(&self) -> u64 {
        self.delta
    }

    /// Derives the digest of `passwd` under `salt` by expanding the
    /// working buffer, mixing it for `time_cost` rounds and extracting
    /// its last block. The digest equals the functional model
    /// `balloon_digest`, so it depends on nothing but the three costs,
    /// the password, the salt and the hash primitive.
    #[verifier::loop_isolation(false)]
    pub fn hash(&self, passwd: &[u8], salt: &[u8]) -> (r: Result<H, Error>)
        requires
            self.space_cost() >= 1,
            self.space_cost() <= usize::MAX,
            self.space_cost() + self.time_cost() * self.space_cost() * (1 + 2 * self.delta())
                <= u64::MAX,
        ensures
            r is Ok ==> (r->Ok_0).view_bytes() == balloon_digest::<U, H, A>(
                self.space_cost() as nat,
                self.time_cost() as nat,
                self.delta() as nat,
                passwd@,
                salt@,
            ),
    {
        let ghost space = self.space_cost() as nat;
        let ghost delta_g = self.delta() as nat;
        let ghost time_g = self.time_cost() as nat;
        let len: usize = self.space_cost as usize;
        let mut cnt: u64 = self.space_cost;

        // Phase 1: expand the password and the salt into the buffer.
        let mut buffer: Vec<H> = Vec::with_capacity(len);
        let h0 = hash_tag_two::<U, H, A>(0, passwd, salt)?;
        buffer.push(h0);
        let mut idx: usize = 1;
        while idx < len
            invariant
                1 <= idx <= len,
                buffer@.len() == idx,
                forall|j: int|
                    0 <= j < idx ==> #[trigger] buffer@[j].view_bytes() == expand_block::<
                        U,
                        H,
                        A,
                    >(passwd@, salt@, j),
            decreases len - idx,
        {
            let h = hash_tag_one::<U, H, A>(idx as u64, buffer[idx - 1].as_bytes())?;
            buffer.push(h);
            idx = idx + 1;
        }
        let ghost buf0 = digest_views::<U, H>(buffer@);
        proof {
            assert(buf0 =~= expand_buf::<U, H, A>(passwd@, salt@, space));
            assert((0 * space + 0) * (1 + 2 * delta_g) == 0) by (nonlinear_arith);
            assert(cnt_at(space, delta_g, 0, 0) == space);
            assert(cnt_at(space, delta_g, time_g, 0) <= u64::MAX);
        }

        // Phase 2: mix the buffer for `time_cost` rounds.
        let mut t: u64 = 0;
        while t < self.time_cost
            invariant
                t <= self.time_cost,
                buffer@.len() == len,
                cnt as nat == cnt_at(space, delta_g, t as nat, 0),
                digest_views::<U, H>(buffer@) == mix_rounds::<U, H, A>(
                    salt@,
                    space,
                    delta_g,
                    t as nat,
                    buf0,
                ),
            decreases self.time_cost - t,
        {
            let ghost round_start = digest_views::<U, H>(buffer@);
            let mut m: usize = 0;
            while m < len
                invariant
                    m <= len,
                    t < self.time_cost,
                    buffer@.len() == len,
                    cnt as nat == cnt_at(space, delta_g, t as nat, m as nat),
                    digest_views::<U, H>(buffer@) == mix_blocks::<U, H, A>(
                        salt@,
                        space,
                        delta_g,
                        t as nat,
                        m as nat,
                        round_start,
                    ),
                decreases len - m,
            {
                proof {
                    lemma_cnt_block_bound(space, delta_g, time_g, t as nat, m as nat);
                }
                let ghost bs = digest_views::<U, H>(buffer@);

                // Phase 2a: fold the previous block into the current one.
                let prev = if m == 0 {
                    len - 1
                } else {
                    m - 1
                };
                let c0 = cnt;
                let ha = hash_tag_two::<U, H, A>(
                    c0,
                    buffer[prev].as_bytes(),
                    buffer[m].as_bytes(),
                )?;
                cnt = cnt + 1;
                buffer.set(m, ha);
                proof {
                    assert(digest_views::<U, H>(buffer@) =~= bs.update(m as int, ha.view_bytes()));
                }
                let ghost afters = digest_views::<U, H>(buffer@);

                // Phase 2b: fold in `delta` pseudo-randomly chosen blocks.
                let mut i: u64 = 0;
                while i < self.delta
                    invariant
                        i <= self.delta,
                        m < len,
                        t < self.time_cost,
                        buffer@.len() == len,
                        cnt as nat == cnt_at(space, delta_g, t as nat, m as nat) + 1 + 2 * (
                        i as nat),
                        digest_views::<U, H>(buffer@) == mix_deps::<U, H, A>(
                            salt@,
                            space,
                            delta_g,
                            t as nat,
                            m as nat,
                            i as nat,
                            afters,
                        ),
                    decreases self.delta - i,
                {
                    let ghost cur = digest_views::<U, H>(buffer@);
                    let ints_block = hash_tag_trio::<U, H, A>(t, m as u64, i)?;
                    let c1 = cnt;
                    let hash_idx = hash_tag_two::<U, H, A>(c1, salt, ints_block.as_bytes())?;
                    cnt = cnt + 1;
                    let other = hash_idx.to_int().modulo(self.space_cost) as usize;
                    let c2 = cnt;
                    let hb = hash_tag_two::<U, H, A>(
                        c2,
                        buffer[m].as_bytes(),
                        buffer[other].as_bytes(),
                    )?;
                    cnt = cnt + 1;
                    buffer.set(m, hb);
                    proof {
                        assert(digest_views::<U, H>(buffer@) =~= cur.update(
                            m as int,
                            hb.view_bytes(),
                        ));
                        assert(digest_views::<U, H>(buffer@) == mix_dep_once::<U, H, A>(
                            salt@,
                            space,
                            delta_g,
                            t as nat,
                            m as nat,
                            i as nat,
                            cur,
                        ));
                    }
                    i = i + 1;
                }
                proof {
                    assert(digest_views::<U, H>(buffer@) == mix_block::<U, H, A>(
                        salt@,
                        space,
                        delta_g,
                        t as nat,
                        m as nat,
                        bs,
                    ));
                }
                m = m + 1;
            }
            proof {
                lemma_cnt_round_end(space, delta_g, t as nat);
            }
            t = t + 1;
        }

        // Phase 3: extract the last block as the digest.
        let out = buffer.remove(len - 1);
        Ok(out)
    }
}

/// The builder of `Balloon`: holds the three costs, starting from the
/// documented defaults, and copies them into a hasher on `build`.
pub struct BalloonBuilder {
    space_cost: u64,
    time_cost: u64,
    delta: u64,
}

impl BalloonBuilder {
    /// The space cost this builder holds.
    pub closed spec fn spec_space_cost(&self) -> u64 {
        self.space_cost
    }

    /// The time cost this builder holds.
    pub closed spec fn spec_time_cost(&self) -> u64 {
        self.time_cost
    }

    /// The delta this builder holds.
    pub closed spec fn spec_delta(&self) -> u64 {
        self.delta
    }

    /// A builder holding the default costs.
    pub fn new() -> (r: Self)
        ensures
            r.spec_space_cost() == 16,
            r.spec_time_cost() == 20,
            r.spec_delta() == 4,
    {
        BalloonBuilder { space_cost: 16, time_cost: 20, delta: 4 }
    }

    /// Overwrites the space cost; nothing is validated until use.
    pub fn space_cost(&mut self, space_cost: u64)
        ensures
            final(self).spec_space_cost() == space_cost,
            final(self).spec_time_cost() == old(self).spec_time_cost(),
            final(self).spec_delta() == old(self).spec_delta(),
    {
        self.space_cost = space_cost;
    }

    /// Overwrites the time cost; nothing is validated until use.
    pub fn time_cost(&mut self, time_cost: u64)
        ensures
            final(self).spec_space_cost() == old(self).spec_space_cost(),
            final(self).spec_time_cost() == time_cost,
            final(self).spec_delta() == old(self).spec_delta(),
    {
        self.time_cost = time_cost;
    }

    /// Overwrites the delta; nothing is validated until use.
    pub fn delta(&mut self, delta: u64)
        ensures
            final(self).spec_space_cost() == old(self).spec_space_cost(),
            final(self).spec_time_cost() == old(self).spec_time_cost(),
            final(self).spec_delta() == delta,
    {
        self.delta = delta;
    }

    /// Copies the three costs into an immutable hasher configuration.
    pub fn build<U, H, A>(&self) -> (r: Balloon<U, H, A>) where
        U: FixedUint,
        H: FixedHash<U>,
        A: HashAlgo<U, H>,

        ensures
            r.space_cost() == self.spec_space_cost(),
            r.time_cost() == self.spec_time_cost(),
            r.delta() == self.spec_delta(),
    {
        let BalloonBuilder { space_cost, time_cost, delta } = *self;
        Balloon {
            space_cost,
            time_cost,
            delta,
            _u: PhantomData,
            _h: PhantomData,
            _a: PhantomData,
        }
    }
}

impl Default for BalloonBuilder {
    /// The same builder as `BalloonBuilder::new`.
    fn default() -> (r: Self)
        ensures
            r.spec_space_cost() == 16,
            r.spec_time_cost() == 20,
            r.spec_delta() == 4,
    {
        BalloonBuilder::new()
    }
}

/// Determinism: for one choice of costs, primitive, password and salt,
/// the balloon digest is one value; two results that both meet the
/// contract of `hash` are equal.
pub proof fn lemma_hash_deterministic<U: FixedUint, H: FixedHash<U>, A: HashAlgo<U, H>>(
    d1: Seq<u8>,
    d2: Seq<u8>,
    space: nat,
    time: nat,
    delta: nat,
    passwd: Seq<u8>,
    salt: Seq<u8>,
)
    requires
        d1 == balloon_digest::<U, H, A>(space, time, delta, passwd, salt),
        d2 == balloon_digest::<U, H, A>(space, time, delta, passwd, salt),
    ensures
        d1 == d2,
{
}

/// Chaining: feeding the digest of one call back in as the next call's
/// password reproduces the same digest sequence, run after run.
pub proof fn lemma_chain_deterministic<U: FixedUint, H: FixedHash<U>, A: HashAlgo<U, H>>(
    first1: Seq<u8>,
    first2: Seq<u8>,
    next1: Seq<u8>,
    next2: Seq<u8>,
    space: nat,
    time: nat,
    delta: nat,
    passwd: Seq<u8>,
    salt: Seq<u8>,
)
    requires
        first1 == balloon_digest::<U, H, A>(space, time, delta, passwd, salt),
        first2 == balloon_digest::<U, H, A>(space, time, delta, passwd, salt),
        next1 == balloon_digest::<U, H, A>(space, time, delta, first1, salt),
        next2 == balloon_digest::<U, H, A>(space, time, delta, first2, salt),
    ensures
        first1 == first2,
        next1 == next2,
{
}

/// A zero time cost performs no mixing round at all: the digest is the
/// last block exactly as the expand phase wrote it.
pub proof fn lemma_time_cost_zero<U: FixedUint, H: FixedHash<U>, A: HashAlgo<U, H>>(
    space: nat,
    delta: nat,
    passwd: Seq<u8>,
    salt: Seq<u8>,
)
    requires
        space >= 1,
    ensures
        balloon_digest::<U, H, A>(space, 0, delta, passwd, salt) == expand_block::<U, H, A>(
            passwd,
            salt,
            space as int - 1,
        ),
{
}

/// A zero delta skips phase 2b entirely: a block visit is then exactly
/// the one sequential hash of the previous and the current block.
pub proof fn lemma_delta_zero_block<U: FixedUint, H: FixedHash<U>, A: HashAlgo<U, H>>(
    salt: Seq<u8>,
    space: nat,
    t: nat,
    m: nat,
    buf: Seq<Seq<u8>>,
)
    requires
        space >= 1,
    ensures
        mix_block::<U, H, A>(salt, space, 0, t, m, buf) == buf.update(
            m as int,
            A::digest_of(
                le64(cnt_at(space, 0, t, m) as u64) + buf[if m == 0 {
                    space as int - 1
                } else {
                    m as int - 1
                }] + buf[m as int],
            ),
        ),
{
}

/// The mix phase with every pseudo-random dependency stripped: one
/// block visit hashes just the counter, the previous block and the
/// current block.
pub open spec fn sequential_block<U: FixedUint, H: FixedHash<U>, A: HashAlgo<U, H>>(
    space: nat,
    t: nat,
    m: nat,
    buf: Seq<Seq<u8>>,
) -> Seq<Seq<u8>> {
    let c = cnt_at(space, 0, t, m);
    let prev = if m == 0 {
        (space - 1) as nat
    } else {
        (m - 1) as nat
    };
    buf.update(m as int, A::digest_of(le64(c as u64) + buf[prev as int] + buf[m as int]))
}

/// The first `m` sequential-only block visits of round `t`.
pub open spec fn sequential_blocks<U: FixedUint, H: FixedHash<U>, A: HashAlgo<U, H>>(
    space: nat,
    t: nat,
    m: nat,
    buf: Seq<Seq<u8>>,
) -> Seq<Seq<u8>>
    decreases m,
{
    if m == 0 {
        buf
    } else {
        sequential_block::<U, H, A>(
            space,
            t,
            (m - 1) as nat,
            sequential_blocks::<U, H, A>(space, t, (m - 1) as nat, buf),
        )
    }
}

/// The first `t` sequential-only mixing rounds.
pub open spec fn sequential_rounds<U: FixedUint, H: FixedHash<U>, A: HashAlgo<U, H>>(
    space: nat,
    t: nat,
    buf: Seq<Seq<u8>>,
) -> Seq<Seq<u8>>
    decreases t,
{
    if t == 0 {
        buf
    } else {
        sequential_blocks::<U, H, A>(
            space,
            (t - 1) as nat,
            space,
            sequential_rounds::<U, H, A>(space, (t - 1) as nat, buf),
        )
    }
}

proof fn lemma_delta_zero_blocks<U: FixedUint, H: FixedHash<U>, A: HashAlgo<U, H>>(
    salt: Seq<u8>,
    space: nat,
    t: nat,
    m: nat,
    buf: Seq<Seq<u8>>,
)
    requires
        space >= 1,
    ensures
        mix_blocks::<U, H, A>(salt, space, 0, t, m, buf) == sequential_blocks::<U, H, A>(
            space,
            t,
            m,
            buf,
        ),
    decreases m,
{
    if m > 0 {
        lemma_delta_zero_blocks::<U, H, A>(salt, space, t, (m - 1) as nat, buf);
        lemma_delta_zero_block::<U, H, A>(
            salt,
            space,
            t,
            (m - 1) as nat,
            mix_blocks::<U, H, A>(salt, space, 0, t, (m - 1) as nat, buf),
        );
    }
}

proof fn lemma_delta_zero_rounds<U: FixedUint, H: FixedHash<U>, A: HashAlgo<U, H>>(
    salt: Seq<u8>,
    space: nat,
    t: nat,
    buf: Seq<Seq<u8>>,
)
    requires
        space >= 1,
    ensures
        mix_rounds::<U, H, A>(salt, space, 0, t, buf) == sequential_rounds::<U, H, A>(
            space,
            t,
            buf,
        ),
    decreases t,
{
    if t > 0 {
        lemma_delta_zero_rounds::<U, H, A>(salt, space, (t - 1) as nat, buf);
        lemma_delta_zero_blocks::<U, H, A>(
            salt,
            space,
            (t - 1) as nat,
            space,
            mix_rounds::<U, H, A>(salt, space, 0, (t - 1) as nat, buf),
        );
    }
}

/// A zero delta performs phase 2a alone, every round: the digest is
/// that of the sequential-only mix, which never touches the
/// pseudo-random dependency machinery (and reads the salt only during
/// the expand phase).
pub proof fn lemma_delta_zero_digest<U: FixedUint, H: FixedHash<U>, A: HashAlgo<U, H>>(
    space: nat,
    time: nat,
    passwd: Seq<u8>,
    salt: Seq<u8>,
)
    requires
        space >= 1,
    ensures
        balloon_digest::<U, H, A>(space, time, 0, passwd, salt) == sequential_rounds::<U, H, A>(
            space,
            time,
            expand_buf::<U, H, A>(passwd, salt, space),
        )[space as int - 1],
{
    lemma_delta_zero_rounds::<U, H, A>(
        salt,
        space,
        time,
        expand_buf::<U, H, A>(passwd, salt, space),
    );
}

/// Every pseudo-random index the mix phase derives lies inside the
/// buffer: reducing a digest value modulo `space` stays below `space`.
pub proof fn lemma_mix_index_in_range(space: nat, digest: Seq<u8>)
    requires
        space >= 1,
    ensures
        be_bytes_nat(digest.take(32)) % space < space,
{
}

/// One hashing step over a tag and one byte string.
fn hash_tag_one<U: FixedUint, H: FixedHash<U>, A: HashAlgo<U, H>>(tag: u64, x: &[u8]) -> (r:
    Result<H, Error>)
    ensures
        r is Ok ==> (r->Ok_0).view_bytes() == A::digest_of(le64(tag) + x@),
        r is Ok ==> (r->Ok_0).view_bytes().len() >= 32,
{
    let mut algo = A::create();
    algo.update_u64(tag)?;
    algo.update(x)?;
    let h = algo.finalize()?;
    proof {
        assert(Seq::<u8>::empty() + le64(tag) + x@ =~= le64(tag) + x@);
    }
    Ok(h)
}

/// One hashing step over a tag and two byte strings.
fn hash_tag_two<U: FixedUint, H: FixedHash<U>, A: HashAlgo<U, H>>(tag: u64, x: &[u8], y: &[u8]) -> (r:
    Result<H, Error>)
    ensures
        r is Ok ==> (r->Ok_0).view_bytes() == A::digest_of(le64(tag) + x@ + y@),
        r is Ok ==> (r->Ok_0).view_bytes().len() >= 32,
{
    let mut algo = A::create();
    algo.update_u64(tag)?;
    algo.update(x)?;
    algo.update(y)?;
    let h = algo.finalize()?;
    proof {
        assert(Seq::<u8>::empty() + le64(tag) + x@ + y@ =~= le64(tag) + x@ + y@);
    }
    Ok(h)
}

/// One hashing step over three integers.
fn hash_tag_trio<U: FixedUint, H: FixedHash<U>, A: HashAlgo<U, H>>(a: u64, b: u64, c: u64) -> (r:
    Result<H, Error>)
    ensures
        r is Ok ==> (r->Ok_0).view_bytes() == A::digest_of(le64(a) + le64(b) + le64(c)),
        r is Ok ==> (r->Ok_0).view_bytes().len() >= 32,
{
    let mut algo = A::create();
    algo.update_u64(a)?;
    algo.update_u64(b)?;
    algo.update_u64(c)?;
    let h = algo.finalize()?;
    proof {
        assert(Seq::<u8>::empty() + le64(a) + le64(b) + le64(c) =~= le64(a) + le64(b) + le64(c));
    }
    Ok(h)
}

} // verus!
