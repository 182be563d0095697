use zksync_os::abi::{encode_set_settlement_layer_chain_id_calldata, encode_tx, EncodedTx};
use zksync_os::u256::U256;

fn word_u128(v: u128) -> Vec<u8> {
    let mut w = vec![0u8; 16];
    w.extend_from_slice(&v.to_be_bytes());
    w
}

fn word_usize(v: usize) -> Vec<u8> {
    word_u128(v as u128)
}

fn address(a: [u8; 20]) -> Vec<u8> {
    let mut w = vec![0u8; 12];
    w.extend_from_slice(&a);
    w
}

fn tail(d: &[u8]) -> Vec<u8> {
    let mut w = word_usize(d.len());
    w.extend_from_slice(d);
    while w.len() % 32 != 0 {
        w.push(0);
    }
    w
}

fn bytes_of(tx: EncodedTx) -> Vec<u8> {
    match tx {
        EncodedTx::Abi(b) => b,
        EncodedTx::Rlp(..) => panic!("expected an ABI encoding"),
    }
}

#[test]
fn encode_tx_eip1559_layout() {
    let mut value = [0u8; 32];
    value[31] = 9;
    let data = vec![0xaa, 0xbb, 0xcc];
    let signature = vec![0x11u8; 65];
    let out = bytes_of(encode_tx(
        2,
        [1u8; 20],
        Some([2u8; 20]),
        100,
        None,
        7,
        None,
        None,
        5,
        value,
        data.clone(),
        signature.clone(),
        None,
        None,
        false,
    ));

    let mut expected = Vec::new();
    expected.extend(word_u128(2));
    expected.extend(address([1u8; 20]));
    expected.extend(address([2u8; 20]));
    expected.extend(word_u128(100));
    expected.extend(word_u128(0));
    expected.extend(word_u128(7));
    expected.extend(word_u128(7));
    expected.extend(address([0u8; 20]));
    expected.extend(word_u128(5));
    expected.extend_from_slice(&value);
    expected.extend(word_u128(0));
    expected.extend(word_u128(0));
    expected.extend(word_u128(0));
    expected.extend(word_u128(0));
    let o1 = 19 * 32;
    let o2 = o1 + tail(&data).len();
    let o3 = o2 + tail(&signature).len();
    let o4 = o3 + 32;
    let o5 = o4 + 32;
    for o in [o1, o2, o3, o4, o5] {
        expected.extend(word_usize(o));
    }
    expected.extend(tail(&data));
    expected.extend(tail(&signature));
    expected.extend(word_u128(0));
    expected.extend(tail(&[]));
    expected.extend(tail(&[]));

    assert_eq!(out.len(), 19 * 32 + 64 + 128 + 32 + 32 + 32);
    assert_eq!(out, expected);
}

#[test]
fn encode_tx_upgrade_deposit_word() {
    let out = bytes_of(encode_tx(
        0x7f,
        [3u8; 20],
        None,
        1_000,
        Some(800),
        25,
        Some(1),
        Some([4u8; 20]),
        0,
        [0u8; 32],
        vec![],
        vec![],
        Some(vec![0x55]),
        Some(vec![0x66, 0x77]),
        false,
    ));
    // Words 3..=6 hold the gas fields, word 7 the paymaster.
    assert_eq!(&out[4 * 32..5 * 32], &word_u128(800)[..]);
    assert_eq!(&out[6 * 32..7 * 32], &word_u128(1)[..]);
    assert_eq!(&out[7 * 32..8 * 32], &address([4u8; 20])[..]);
    // The first reserved word is the deposited amount, the second flags contract creation.
    assert_eq!(&out[10 * 32..11 * 32], &word_u128(25_000)[..]);
    assert_eq!(&out[11 * 32..12 * 32], &word_u128(1)[..]);
    // The tails of the paymaster input and the reserved bytes close the encoding.
    let n = out.len();
    assert_eq!(&out[n - 64..], &tail(&[0x66, 0x77])[..]);
    assert_eq!(&out[n - 128..n - 64], &tail(&[0x55])[..]);
}

#[test]
fn encode_tx_legacy_eip155_flag() {
    let enc = |eip155: bool| {
        bytes_of(encode_tx(
            0,
            [5u8; 20],
            Some([6u8; 20]),
            21_000,
            None,
            3,
            Some(2),
            None,
            1,
            [0u8; 32],
            vec![],
            vec![0u8; 65],
            None,
            None,
            eip155,
        ))
    };
    assert_eq!(&enc(true)[10 * 32..11 * 32], &word_u128(1)[..]);
    assert_eq!(&enc(false)[10 * 32..11 * 32], &word_u128(0)[..]);
    assert_eq!(&enc(true)[11 * 32..12 * 32], &word_u128(0)[..]);
}

#[test]
fn settlement_layer_chain_id_calldata() {
    let out = encode_set_settlement_layer_chain_id_calldata(U256::from_u64(0x1234));
    let mut expected = vec![0x04, 0x02, 0x03, 0xe6];
    expected.extend(word_u128(0x1234));
    assert_eq!(out, expected);

    let big = U256::from_limbs([1, 2, 3, 4]);
    let out = encode_set_settlement_layer_chain_id_calldata(big);
    assert_eq!(out.len(), 36);
    assert_eq!(&out[0..4], &[0x04, 0x02, 0x03, 0xe6]);
    assert_eq!(&out[4..12], &4u64.to_be_bytes());
    assert_eq!(&out[28..36], &1u64.to_be_bytes());
}
