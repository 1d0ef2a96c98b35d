use balloons::BalloonBuilder;
use balloons::Blake2b256;
use balloons::Blake2b256BalloonBuilder;
use balloons::Error;
use balloons::HashAlgo;
use balloons::H256;
use balloons::U256;

/// A keyed BLAKE2b-256 digest computed with an independent
/// implementation, for cross-checking single hashing steps.
fn keyed_blake2b(parts: &[&[u8]]) -> [u8; 32] {
    let mut params = blake2b_simd::Params::new();
    params.hash_length(32);
    params.key(b"balloon-blake2b256");
    let mut state = params.to_state();
    for p in parts {
        state.update(p);
    }
    let mut out = [0u8; 32];
    out.copy_from_slice(state.finalize().as_bytes());
    out
}

fn build(space: u64, time: u64, delta: u64) -> balloons::Blake2b256Balloon {
    let mut builder = Blake2b256BalloonBuilder::new();
    builder.space_cost(space);
    builder.time_cost(time);
    builder.delta(delta);
    builder.build()
}

#[test]
fn hash_is_deterministic() {
    let b1 = build(4, 3, 2);
    let b2 = build(4, 3, 2);
    let d1 = b1.hash(b"passwd", b"salt").unwrap();
    let d2 = b1.hash(b"passwd", b"salt").unwrap();
    let d3 = b2.hash(b"passwd", b"salt").unwrap();
    assert_eq!(d1.0, d2.0);
    assert_eq!(d1.0, d3.0);
}

#[test]
fn hash_is_sensitive_to_every_input() {
    let base = build(4, 2, 1).hash(b"passwd", b"salt").unwrap();
    let other_passwd = build(4, 2, 1).hash(b"passwe", b"salt").unwrap();
    let other_salt = build(4, 2, 1).hash(b"passwd", b"galt").unwrap();
    let other_space = build(5, 2, 1).hash(b"passwd", b"salt").unwrap();
    let other_time = build(4, 3, 1).hash(b"passwd", b"salt").unwrap();
    let other_delta = build(4, 2, 2).hash(b"passwd", b"salt").unwrap();
    assert_ne!(base.0, other_passwd.0);
    assert_ne!(base.0, other_salt.0);
    assert_ne!(base.0, other_space.0);
    assert_ne!(base.0, other_time.0);
    assert_ne!(base.0, other_delta.0);
}

#[test]
fn time_cost_zero_runs_expand_only() {
    let got = build(2, 0, 4).hash(b"passwd", b"salt").unwrap();
    let b0 = keyed_blake2b(&[&0u64.to_le_bytes(), b"passwd", b"salt"]);
    let b1 = keyed_blake2b(&[&1u64.to_le_bytes(), &b0]);
    assert_eq!(got.0, b1);
}

#[test]
fn delta_zero_runs_sequential_step_only() {
    // space 2, time 1, delta 0: expand both blocks, then one round of
    // phase 2a alone, with the wraparound dependency for block 0.
    let got = build(2, 1, 0).hash(b"passwd", b"salt").unwrap();
    let b0 = keyed_blake2b(&[&0u64.to_le_bytes(), b"passwd", b"salt"]);
    let b1 = keyed_blake2b(&[&1u64.to_le_bytes(), &b0]);
    let b0m = keyed_blake2b(&[&2u64.to_le_bytes(), &b1, &b0]);
    let b1m = keyed_blake2b(&[&3u64.to_le_bytes(), &b0m, &b1]);
    assert_eq!(got.0, b1m);
}

#[test]
fn single_block_mixing_follows_the_counter() {
    // space 1, time 1, delta 1: the pseudo-random index can only be 0,
    // so the whole run is computable step by step.
    let got = build(1, 1, 1).hash(b"passwd", b"salt").unwrap();
    let b0 = keyed_blake2b(&[&0u64.to_le_bytes(), b"passwd", b"salt"]);
    let b0a = keyed_blake2b(&[&1u64.to_le_bytes(), &b0, &b0]);
    let ints = keyed_blake2b(&[&0u64.to_le_bytes(), &0u64.to_le_bytes(), &0u64.to_le_bytes()]);
    let _idx_digest = keyed_blake2b(&[&2u64.to_le_bytes(), b"salt", &ints]);
    let b0b = keyed_blake2b(&[&3u64.to_le_bytes(), &b0a, &b0a]);
    assert_eq!(got.0, b0b);
}

#[test]
fn chaining_reproduces_the_same_sequence() {
    let balloon = build(4, 3, 2);
    let mut first = Vec::new();
    let mut digest = balloon.hash(b"passwd", b"salt").unwrap();
    for _ in 0..5 {
        digest = balloon.hash(&digest.0, b"salt").unwrap();
        first.push(digest.0);
    }
    let mut second = Vec::new();
    let mut digest = balloon.hash(b"passwd", b"salt").unwrap();
    for _ in 0..5 {
        digest = balloon.hash(&digest.0, b"salt").unwrap();
        second.push(digest.0);
    }
    assert_eq!(first, second);
}

#[test]
fn default_costs_match_explicit_ones() {
    let defaulted = Blake2b256BalloonBuilder::new().build();
    let explicit = build(16, 20, 4);
    let d1 = defaulted.hash(b"passwd", b"salt").unwrap();
    let d2 = explicit.hash(b"passwd", b"salt").unwrap();
    assert_eq!(d1.0, d2.0);
}

#[test]
fn generic_builder_matches_concrete_builder() {
    let mut generic = BalloonBuilder::new();
    generic.space_cost(3);
    generic.time_cost(2);
    generic.delta(1);
    let balloon = generic.build::<U256, H256, Blake2b256>();
    let d1 = balloon.hash(b"passwd", b"salt").unwrap();
    let d2 = build(3, 2, 1).hash(b"passwd", b"salt").unwrap();
    assert_eq!(d1.0, d2.0);
}

#[test]
fn end_to_end_reference_digest() {
    let digest = Blake2b256BalloonBuilder::new().build().hash(b"passwd", b"salt").unwrap();
    let again = Blake2b256BalloonBuilder::new().build().hash(b"passwd", b"salt").unwrap();
    assert_eq!(digest.0, again.0);
    let expected: [u8; 32] = [
        112, 166, 128, 175, 36, 248, 207, 109, 102, 113, 221, 12, 69, 160, 53, 63, 110, 118, 164,
        206, 93, 172, 87, 232, 253, 77, 89, 50, 101, 194, 228, 70,
    ];
    assert_eq!(digest.0, expected);
}

#[test]
fn primitive_finalize_into_matches_finalize() {
    let mut a1 = Blake2b256::create();
    a1.update(b"some input").unwrap();
    let d1 = a1.finalize().unwrap();
    let mut a2 = Blake2b256::create();
    a2.update(b"some input").unwrap();
    let mut dst = H256([0u8; 32]);
    a2.finalize_into(&mut dst).unwrap();
    assert_eq!(d1.0, dst.0);
}

#[test]
fn primitive_update_u64_is_little_endian() {
    let mut a1 = Blake2b256::create();
    a1.update_u64(0x0123_4567_89ab_cdef).unwrap();
    let d1 = a1.finalize().unwrap();
    let mut a2 = Blake2b256::create();
    a2.update(&0x0123_4567_89ab_cdefu64.to_le_bytes()).unwrap();
    let d2 = a2.finalize().unwrap();
    assert_eq!(d1.0, d2.0);
    assert_eq!(d1.0, keyed_blake2b(&[&[0xef, 0xcd, 0xab, 0x89, 0x67, 0x45, 0x23, 0x01]]));
}

#[test]
fn primitive_digest_depends_on_input() {
    let mut a1 = Blake2b256::create();
    a1.update(b"one").unwrap();
    let d1 = a1.finalize().unwrap();
    let mut a2 = Blake2b256::create();
    a2.update(b"two").unwrap();
    let d2 = a2.finalize().unwrap();
    assert_ne!(d1.0, d2.0);
    assert_ne!(&d1.0[..], &b"one"[..]);
}

#[test]
fn error_custom_wraps_the_message() {
    let err = Error::custom(String::from("primitive failure"));
    let Error::Custom(msg) = err;
    assert_eq!(msg, "primitive failure");
}
