use sha2::Digest;
use zksync_os::primitives::Bytes32;
use zksync_os::blob::{calculate_evaluation_point, evaluate_polynomial, versioned_hash_for_kzg};
use zksync_os::commitment::{
    Blake2sCommitmentGenerator, Blake2sGetProofHasher, DACommitmentGenerator, NopCommitmentGenerator,
};
use zksync_os::crypto::{init_lib, parse_u256_be, parse_u256_le, u256_to_be, BigIntOps};
use zksync_os::u256::U256;

fn sha256(data: &[u8]) -> Bytes32 {
    Bytes32 { bytes: sha2::Sha256::digest(data).into() }
}

fn blake2s256(data: &[u8]) -> Bytes32 {
    Bytes32 { bytes: blake2::Blake2s256::digest(data).into() }
}


#[test]
fn parse_big_and_little_endian() {
    assert_eq!(parse_u256_be(&[0x01, 0x02]), U256::from_u64(0x0102));
    assert_eq!(parse_u256_le(&[0x01, 0x02]), U256::from_u64(0x0201));
    let mut bytes = [0u8; 32];
    bytes[0] = 0x80;
    bytes[31] = 0x01;
    assert_eq!(parse_u256_be(&bytes), U256::from_limbs([1, 0, 0, 0x8000_0000_0000_0000]));
    assert_eq!(parse_u256_le(&bytes), U256::from_limbs([0x80, 0, 0, 0x0100_0000_0000_0000]));
    assert_eq!(parse_u256_be(&[0u8; 0]), U256::zero());
}

#[test]
fn to_be_bytes_round_trips() {
    let v = U256::from_limbs([1, 2, 3, 4]);
    let b = u256_to_be(v);
    assert_eq!(parse_u256_be(&b), v);
    assert_eq!(b[31], 1);
    assert_eq!(b[7], 4);
}

#[test]
fn bigint_op_codes() {
    init_lib();
    assert_eq!(BigIntOps::Add.code(), 0);
    assert_eq!(BigIntOps::Eq.code(), 5);
    assert_eq!(BigIntOps::MemCpy.code(), 7);
}

#[test]
fn versioned_hash_replaces_first_byte() {
    let h = versioned_hash_for_kzg(&[0u8; 48]);
    let s = sha256(&[0u8; 48]);
    assert_eq!(h.bytes[0], 1);
    assert_eq!(h.bytes[1..], s.bytes[1..]);
}

#[test]
fn versioned_hash_of_empty_input_is_the_known_digest() {
    let expected: [u8; 32] = [
        0x01, 0xb0, 0xc4, 0x42, 0x98, 0xfc, 0x1c, 0x14, 0x9a, 0xfb, 0xf4, 0xc8, 0x99, 0x6f, 0xb9,
        0x24, 0x27, 0xae, 0x41, 0xe4, 0x64, 0x9b, 0x93, 0x4c, 0xa4, 0x95, 0x99, 0x1b, 0x78, 0x52,
        0xb8, 0x55,
    ];
    assert_eq!(versioned_hash_for_kzg(&[]).bytes, expected);
}

#[test]
fn get_proof_hasher_of_empty_input_is_the_known_digest() {
    let expected: [u8; 32] = [
        0x69, 0x21, 0x7a, 0x30, 0x79, 0x90, 0x80, 0x94, 0xe1, 0x11, 0x21, 0xd0, 0x42, 0x35, 0x4a,
        0x7c, 0x1f, 0x55, 0xb6, 0x48, 0x2c, 0xa1, 0xa5, 0x1e, 0x1b, 0x25, 0x0d, 0xfd, 0x1e, 0xd0,
        0xee, 0xf9,
    ];
    let mut h = Blake2sGetProofHasher::new();
    assert_eq!(h.finalize_reset(), expected);
}

#[test]
fn evaluation_point_is_last_half_of_hash() {
    let vh = [1u8; 32];
    let data = [2u8; 5];
    let mut input = vh.to_vec();
    input.extend_from_slice(&data);
    let h = blake2s256(&input);
    let mut tail = [0u8; 16];
    tail.copy_from_slice(&h.bytes[16..]);
    assert_eq!(calculate_evaluation_point(&data, &vh), parse_u256_be(&tail));
}

#[test]
fn polynomial_evaluation_uses_horner_over_chunks() {
    // two chunks: c0 = 1 (as 31 bytes), c1 = 2; value at x = 3 is c0 * 3 + c1 = 5
    let mut data = vec![0u8; 62];
    data[30] = 1;
    data[61] = 2;
    data.push(0xff); // partial trailing chunk is ignored
    let v = evaluate_polynomial(&data, &U256::from_u64(3));
    assert_eq!(v, U256::from_u64(5));
    assert_eq!(evaluate_polynomial(&[], &U256::from_u64(3)), U256::zero());
}

#[test]
fn polynomial_evaluation_reduces_modulo_the_field() {
    // one chunk of all 0xff bytes times x = 2^200, reduced modulo the BLS12-381 order
    let data = vec![0xffu8; 62];
    let x = U256::from_limbs([0, 0, 0, 1 << 8]);
    let v = evaluate_polynomial(&data, &x);
    let r = U256::from_limbs([
        0xffffffff00000001,
        0x53bda402fffe5bfe,
        0x3339d80809a1d805,
        0x73eda753299d7d48,
    ]);
    assert!(v.lt(&r));
}

#[test]
fn commitment_generators() {
    let mut nop = NopCommitmentGenerator;
    nop.write(&[1, 2, 3]);
    assert_eq!(nop.da_commitment().bytes, [0u8; 32]);

    let mut g = Blake2sCommitmentGenerator::new();
    g.write(&[1, 2]);
    g.write(&[3]);
    assert_eq!(g.da_commitment(), blake2s256(&[1, 2, 3]));
    assert_eq!(g.da_commitment(), blake2s256(&[]));

    let mut h = Blake2sGetProofHasher::new();
    h.update(&[4, 5]);
    assert_eq!(h.finalize_reset(), blake2s256(&[4, 5]).bytes);
    assert_eq!(h.finalize_reset(), blake2s256(&[]).bytes);
}

#[test]
fn little_endian_is_reversed_big_endian() {
    let le = [1u8, 2, 3, 0xff];
    let be = [0xffu8, 3, 2, 1];
    assert_eq!(parse_u256_le(&le), parse_u256_be(&be));
}

#[test]
fn big_endian_round_trip() {
    let mut b = [0u8; 32];
    for (i, x) in b.iter_mut().enumerate() {
        *x = (i as u8).wrapping_mul(37);
    }
    assert_eq!(u256_to_be(parse_u256_be(&b)), b);
}
