use balloons::FixedHash;
use balloons::FixedUint;
use balloons::H256;
use balloons::U256;

fn sample_bytes() -> [u8; 32] {
    [
        0x12, 0x34, 0x56, 0x78, 0x9a, 0xbc, 0xde, 0xf0, 0x13, 0x57, 0x9b, 0xdf, 0x24, 0x68, 0xac,
        0xe0, 0x11, 0x22, 0x33, 0x44, 0x55, 0x66, 0x77, 0x88, 0x99, 0xaa, 0xbb, 0xcc, 0xdd, 0xee,
        0xff, 0x00,
    ]
}

#[test]
fn u256_from_slice() {
    let slice = sample_bytes();
    let ffu = U256::from_slice(&slice);
    assert_eq!(ffu.0[0], 0x99aa_bbcc_ddee_ff00);
    assert_eq!(ffu.0[1], 0x1122_3344_5566_7788);
    assert_eq!(ffu.0[2], 0x1357_9bdf_2468_ace0);
    assert_eq!(ffu.0[3], 0x1234_5678_9abc_def0);
}

#[test]
fn u256_modulo() {
    let slice = sample_bytes();
    let ffu = U256::from_slice(&slice);
    assert_eq!(ffu.modulo(!0), 0xd058_e168_f27b_0258);
}

#[test]
fn u256_modulo_by_one_is_zero() {
    let ffu = U256::from_slice(&sample_bytes());
    assert_eq!(ffu.modulo(1), 0);
}

#[test]
fn u256_modulo_by_byte_powers_keeps_low_bytes() {
    let ffu = U256::from_slice(&sample_bytes());
    assert_eq!(ffu.modulo(0x100), 0x00);
    assert_eq!(ffu.modulo(0x1_0000), 0xff00);
    assert_eq!(ffu.modulo(0x1_0000_0000), 0xddee_ff00);
}

#[test]
fn u256_modulo_stays_below_divisor() {
    let ffu = U256::from_slice(&sample_bytes());
    for d in [1u64, 2, 3, 5, 16, 255, 1 << 20, u64::MAX - 1, u64::MAX] {
        assert!(ffu.modulo(d) < d);
    }
}

#[test]
fn u256_from_slice_uses_first_32_bytes() {
    let mut longer = [0u8; 40];
    longer[..32].copy_from_slice(&sample_bytes());
    longer[32..].copy_from_slice(&[0xde; 8]);
    let ffu = U256::from_slice(&longer);
    assert_eq!(ffu.0[0], 0x99aa_bbcc_ddee_ff00);
    assert_eq!(ffu.0[3], 0x1234_5678_9abc_def0);
}

#[test]
fn h256_to_int_reads_big_endian() {
    let digest = H256(sample_bytes());
    let ffu = digest.to_int();
    assert_eq!(ffu.0[0], 0x99aa_bbcc_ddee_ff00);
    assert_eq!(ffu.0[1], 0x1122_3344_5566_7788);
    assert_eq!(ffu.0[2], 0x1357_9bdf_2468_ace0);
    assert_eq!(ffu.0[3], 0x1234_5678_9abc_def0);
}

#[test]
fn h256_as_bytes_round_trip() {
    let digest = H256(sample_bytes());
    assert_eq!(digest.as_bytes(), &sample_bytes()[..]);
}
