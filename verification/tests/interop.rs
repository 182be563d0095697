use sha3::Digest;
use zksync_os::interop::{
    calculate_interop_roots_rolling_hash, encode_interop_root_import_calldata,
    encode_interop_roots_setting_batch_call, InteropRoot,
};
use zksync_os::primitives::Bytes32;

fn keccak256(data: &[u8]) -> Bytes32 {
    Bytes32 { bytes: sha3::Keccak256::digest(data).into() }
}


fn word(v: u64) -> Vec<u8> {
    let mut w = vec![0u8; 24];
    w.extend_from_slice(&v.to_be_bytes());
    w
}

/// The ABI encoding of `addInteropRootsInBatch((uint256,uint256,bytes32[])[])`, written
/// out word by word.
fn expected_call(roots: &[(u64, u64, [u8; 32])]) -> Vec<u8> {
    let mut out = vec![0xCC, 0xA2, 0xF7, 0xBC];
    out.extend(word(32));
    out.extend(word(roots.len() as u64));
    for i in 0..roots.len() {
        out.extend(word((roots.len() * 32 + i * 160) as u64));
    }
    for (chain_id, block, root) in roots {
        out.extend(word(*chain_id));
        out.extend(word(*block));
        out.extend(word(96));
        out.extend(word(1));
        out.extend_from_slice(root);
    }
    out
}

#[test]
fn test_check_encoding_single_root() {
    let root = InteropRoot {
        chain_id: 1,
        block_or_batch_number: 100,
        root: Bytes32::from_array([0x42; 32]),
    };

    let our_encoded = encode_interop_roots_setting_batch_call(&[root]);

    let expected = expected_call(&[(1, 100, [0x42; 32])]);
    assert_eq!(our_encoded, expected);
    assert_eq!(our_encoded.len(), 260);
    assert_eq!(our_encoded[35], 32);
    assert_eq!(our_encoded[67], 1);
    assert_eq!(our_encoded[99], 32);
    assert_eq!(our_encoded[163], 100);
}

#[test]
fn test_check_encoding_multiple_roots() {
    let roots = vec![
        InteropRoot {
            chain_id: 1,
            block_or_batch_number: 100,
            root: Bytes32::from_array([0x42; 32]),
        },
        InteropRoot {
            chain_id: 2,
            block_or_batch_number: 200,
            root: Bytes32::from_array([0x84; 32]),
        },
        InteropRoot {
            chain_id: 3,
            block_or_batch_number: 300,
            root: Bytes32::from_array([0x84; 32]),
        },
    ];

    let our_encoded = encode_interop_roots_setting_batch_call(&roots);

    let expected = expected_call(&[
        (1, 100, [0x42; 32]),
        (2, 200, [0x84; 32]),
        (3, 300, [0x84; 32]),
    ]);
    assert_eq!(our_encoded, expected);
    assert_eq!(our_encoded.len(), 68 + 3 * 192);
}

#[test]
fn encoding_of_no_roots_is_selector_offset_and_zero_length() {
    let encoded = encode_interop_roots_setting_batch_call(&[]);
    assert_eq!(encoded, expected_call(&[]));
    assert_eq!(encoded.len(), 68);
}

#[test]
fn rolling_hash_of_no_roots_is_the_old_hash() {
    let old = Bytes32::from_array([7u8; 32]);
    assert_eq!(calculate_interop_roots_rolling_hash(old, &[]), old);
}

#[test]
fn rolling_hash_folds_each_root() {
    let old = Bytes32::from_array([7u8; 32]);
    let roots = [
        InteropRoot { chain_id: 5, block_or_batch_number: 9, root: Bytes32::from_array([1u8; 32]) },
        InteropRoot { chain_id: 6, block_or_batch_number: 10, root: Bytes32::from_array([2u8; 32]) },
    ];
    let mut h = old;
    for r in &roots {
        let mut data = h.bytes.to_vec();
        data.extend(word(r.chain_id));
        data.extend(word(r.block_or_batch_number));
        data.extend_from_slice(&r.root.bytes);
        h = keccak256(&data);
    }
    let got = calculate_interop_roots_rolling_hash(old, &roots);
    assert_eq!(got, h);
    assert_ne!(got, old);
}

#[test]
fn keccak_of_empty_input_is_the_known_digest() {
    let h = keccak256(&[]);
    let expected: [u8; 32] = [
        0xc5, 0xd2, 0x46, 0x01, 0x86, 0xf7, 0x23, 0x3c, 0x92, 0x7e, 0x7d, 0xb2, 0xdc, 0xc7, 0x03,
        0xc0, 0xe5, 0x00, 0xb6, 0x53, 0xca, 0x82, 0x27, 0x3b, 0x7b, 0xfa, 0xd8, 0x04, 0x5d, 0x85,
        0xa4, 0x70,
    ];
    assert_eq!(h.bytes, expected);
}

#[test]
fn import_calldata_matches_the_bootloader_encoding() {
    let roots = vec![
        InteropRoot { chain_id: 7, block_or_batch_number: 8, root: Bytes32::from_array([0x11; 32]) },
        InteropRoot { chain_id: 9, block_or_batch_number: 10, root: Bytes32::from_array([0x22; 32]) },
    ];
    let imported = encode_interop_root_import_calldata(roots.clone());
    assert_eq!(imported, encode_interop_roots_setting_batch_call(&roots));
    assert_eq!(imported, expected_call(&[(7, 8, [0x11; 32]), (9, 10, [0x22; 32])]));
    assert_eq!(encode_interop_root_import_calldata(vec![]), expected_call(&[]));
}
