use zksync_os::primitives::Bytes32;
use sha3::Digest;
use zksync_os::block_header::{
    check_gas_limit, eip1559_expected_base_fee, eip4844_expected_excess_blob_gas,
    rlp_ordering_and_key_for_index, BlobParameters, PectraForkHeader, PectraForkHeaderReflection,
    BPO1_TIME, BPO2_TIME, GAS_PER_BLOB, OSAKA_TIME,
};
use zksync_os::block_header::{
    verify_chain, ChainError, HeaderAndHistory, TargetHeaderError, EIP_7825_SINGLE_TX_GAS_LIMIT,
    EIP_7934_MAX_RLP_BLOCK_SIZE,
};
use zksync_os::u256::U256;

fn keccak256(data: &[u8]) -> Bytes32 {
    Bytes32 { bytes: sha3::Keccak256::digest(data).into() }
}


#[test]
fn blob_parameters_follow_the_fork_schedule() {
    let prague = BlobParameters { target: 6, max: 9, base_fee_update_fraction: 5007716 };
    assert_eq!(BlobParameters::for_block_timestamp(0), prague);
    assert_eq!(BlobParameters::for_block_timestamp(OSAKA_TIME), prague);
    assert_eq!(
        BlobParameters::for_block_timestamp(BPO1_TIME),
        BlobParameters { target: 10, max: 15, base_fee_update_fraction: 8346193 }
    );
    assert_eq!(
        BlobParameters::for_block_timestamp(BPO2_TIME - 1),
        BlobParameters { target: 10, max: 15, base_fee_update_fraction: 8346193 }
    );
    assert_eq!(
        BlobParameters::for_block_timestamp(1767747671),
        BlobParameters { target: 14, max: 21, base_fee_update_fraction: 11684671 }
    );
}

#[test]
fn base_fee_moves_towards_target() {
    // at target: unchanged
    assert_eq!(eip1559_expected_base_fee(30_000_000, 15_000_000, 1000), 1000);
    // full block: +1/8
    assert_eq!(eip1559_expected_base_fee(30_000_000, 30_000_000, 1000), 1125);
    // empty block: -1/8
    assert_eq!(eip1559_expected_base_fee(30_000_000, 0, 1000), 875);
    // tiny increase rounds up to one
    assert_eq!(eip1559_expected_base_fee(30_000_000, 15_000_001, 1000), 1001);
}

#[test]
fn gas_limit_must_stay_within_slack() {
    assert!(check_gas_limit(30_000_000, 30_000_000));
    let slack = 30_000_000 / 1024;
    assert!(!check_gas_limit(30_000_000 + slack, 30_000_000));
    assert!(check_gas_limit(30_000_000 + slack - 1, 30_000_000));
    assert!(!check_gas_limit(30_000_000 - slack, 30_000_000));
    assert!(!check_gas_limit(4999, 5000));
}

#[test]
fn excess_blob_gas_follows_eip_7918() {
    let p = BlobParameters { target: 6, max: 9, base_fee_update_fraction: 5007716 };
    let target = 6 * GAS_PER_BLOB;
    // below target: reset
    assert_eq!(eip4844_expected_excess_blob_gas(0, target - 1, 10, &U256::from_u64(1), p), 0);
    // normal: excess + used - target
    assert_eq!(
        eip4844_expected_excess_blob_gas(100, target + 5, 1, &U256::from_u64(1), p),
        105
    );
    // execution reserve price dominates: only the share above target accumulates
    assert_eq!(
        eip4844_expected_excess_blob_gas(100, 9 * GAS_PER_BLOB, 1_000_000, &U256::from_u64(1), p),
        100 + 9 * GAS_PER_BLOB * 3 / 9
    );
}

#[test]
fn rlp_keys_of_indices() {
    assert_eq!(rlp_ordering_and_key_for_index(0), (0x80, ([0x80, 0, 0, 0], 1)));
    assert_eq!(rlp_ordering_and_key_for_index(1), (1, ([1, 0, 0, 0], 1)));
    assert_eq!(rlp_ordering_and_key_for_index(0x7f), (0x7f, ([0x7f, 0, 0, 0], 1)));
    assert_eq!(rlp_ordering_and_key_for_index(0x80), (0x100, ([0x81, 0x80, 0, 0], 2)));
    assert_eq!(rlp_ordering_and_key_for_index(0x1234), (0x12b4, ([0x82, 0x12, 0x34, 0], 3)));
}

#[test]
fn header_from_reflection_pads_extra_data_and_reads_difficulty() {
    let r = PectraForkHeaderReflection {
        parent_hash: [1; 32],
        ommers_hash: [2; 32],
        beneficiary: [3; 20],
        state_root: [4; 32],
        transactions_root: [5; 32],
        receipts_root: [6; 32],
        logs_bloom: [7; 256],
        difficulty: vec![0x01, 0x00],
        number: 22431085,
        gas_limit: 30_000_000,
        gas_used: 1,
        timestamp: 1_700_000_000,
        extra_data: vec![0xab, 0xcd],
        mix_hash: [8; 32],
        nonce: [9; 8],
        base_fee_per_gas: 7,
        withdrawals_root: [10; 32],
        blob_gas_used: 0,
        excess_blob_gas: 0,
        parent_beacon_block_root: [11; 32],
        requests_hash: [12; 32],
    };
    let h = PectraForkHeader::from_relection(&r);
    assert_eq!(h.parent_hash.bytes, [1; 32]);
    assert_eq!(h.beneficiary.bytes, [3; 20]);
    assert_eq!(h.difficulty, U256::from_u64(256));
    assert_eq!(h.extra_data.1, 2);
    let mut padded = [0u8; 32];
    padded[0] = 0xab;
    padded[1] = 0xcd;
    assert_eq!(h.extra_data.0.bytes, padded);
    assert_eq!(h.requests_hash.bytes, [12; 32]);
    assert_eq!(h.number, 22431085);
}

fn reflection(number: u64) -> PectraForkHeaderReflection {
    PectraForkHeaderReflection {
        parent_hash: [0x11; 32],
        ommers_hash: [0; 32],
        beneficiary: [0; 20],
        state_root: [0x22; 32],
        transactions_root: [0; 32],
        receipts_root: [0; 32],
        logs_bloom: [0; 256],
        difficulty: vec![],
        number,
        gas_limit: 30_000_000,
        gas_used: 15_000_000,
        timestamp: 1_700_000_000,
        extra_data: vec![],
        mix_hash: [0; 32],
        nonce: [0; 8],
        base_fee_per_gas: 1000,
        withdrawals_root: [0; 32],
        blob_gas_used: 0,
        excess_blob_gas: 0,
        parent_beacon_block_root: [0; 32],
        requests_hash: [0; 32],
    }
}

fn be_trimmed(v: u64) -> Vec<u8> {
    v.to_be_bytes().iter().copied().skip_while(|b| *b == 0).collect()
}

fn rlp_string(b: &[u8]) -> Vec<u8> {
    if b.len() == 1 && b[0] < 0x80 {
        return b.to_vec();
    }
    let mut out = if b.len() < 56 {
        vec![0x80 + b.len() as u8]
    } else {
        let l = be_trimmed(b.len() as u64);
        let mut v = vec![0xb7 + l.len() as u8];
        v.extend(l);
        v
    };
    out.extend_from_slice(b);
    out
}

fn rlp_u64(v: u64) -> Vec<u8> {
    rlp_string(&be_trimmed(v))
}

fn rlp_list(items: &[Vec<u8>]) -> Vec<u8> {
    let payload: Vec<u8> = items.concat();
    let mut out = if payload.len() < 56 {
        vec![0xc0 + payload.len() as u8]
    } else {
        let l = be_trimmed(payload.len() as u64);
        let mut v = vec![0xf7 + l.len() as u8];
        v.extend(l);
        v
    };
    out.extend(payload);
    out
}

fn header_fields(r: &PectraForkHeaderReflection) -> Vec<Vec<u8>> {
    vec![
        rlp_string(&r.parent_hash),
        rlp_string(&r.ommers_hash),
        rlp_string(&r.beneficiary),
        rlp_string(&r.state_root),
        rlp_string(&r.transactions_root),
        rlp_string(&r.receipts_root),
        rlp_string(&r.logs_bloom),
        rlp_string(&r.difficulty),
        rlp_u64(r.number),
        rlp_u64(r.gas_limit),
        rlp_u64(r.gas_used),
        rlp_u64(r.timestamp),
        rlp_string(&r.extra_data),
        rlp_string(&r.mix_hash),
        rlp_string(&r.nonce),
        rlp_u64(r.base_fee_per_gas),
        rlp_string(&r.withdrawals_root),
        rlp_u64(r.blob_gas_used),
        rlp_u64(r.excess_blob_gas),
        rlp_string(&r.parent_beacon_block_root),
        rlp_string(&r.requests_hash),
    ]
}

fn encode_header(r: &PectraForkHeaderReflection) -> Vec<u8> {
    rlp_list(&header_fields(r))
}

fn same_reflection(a: &PectraForkHeaderReflection, b: &PectraForkHeaderReflection) -> bool {
    encode_header(a) == encode_header(b)
}

#[test]
fn header_parses_back_from_its_encoding() {
    let mut r = reflection(22431090);
    r.difficulty = vec![0x01, 0x00];
    r.extra_data = vec![0xde, 0xad];
    r.timestamp = 0;
    r.blob_gas_used = 0x7f;
    r.excess_blob_gas = 0x80;
    let bytes = encode_header(&r);
    assert_eq!(bytes[0], 0xf9);
    let parsed = PectraForkHeaderReflection::try_parse_slice_in_full(&bytes).unwrap();
    assert!(same_reflection(&parsed, &r));
    assert_eq!(parsed.number, 22431090);
    assert_eq!(parsed.gas_limit, 30_000_000);
    assert_eq!(parsed.timestamp, 0);
    assert_eq!(parsed.blob_gas_used, 0x7f);
    assert_eq!(parsed.excess_blob_gas, 0x80);
    assert_eq!(parsed.extra_data, vec![0xde, 0xad]);
    assert_eq!(parsed.state_root, [0x22; 32]);

    let (again, end) = PectraForkHeaderReflection::try_parse(&bytes, 0).unwrap();
    assert_eq!(end, bytes.len());
    assert!(same_reflection(&again, &r));
}

#[test]
fn header_parser_refuses_malformed_encodings() {
    let r = reflection(22431090);
    let good = encode_header(&r);

    // Trailing bytes after the header item.
    let mut trailing = good.clone();
    trailing.push(0);
    assert!(PectraForkHeaderReflection::try_parse_slice_in_full(&trailing).is_err());
    let (_, end) = PectraForkHeaderReflection::try_parse(&trailing, 0).unwrap();
    assert_eq!(end, good.len());

    // Truncated.
    assert!(PectraForkHeaderReflection::try_parse_slice_in_full(&good[..good.len() - 1]).is_err());

    // A field too few or too many.
    let mut fields = header_fields(&r);
    fields.pop();
    assert!(PectraForkHeaderReflection::try_parse_slice_in_full(&rlp_list(&fields)).is_err());
    let mut fields = header_fields(&r);
    fields.push(rlp_u64(1));
    assert!(PectraForkHeaderReflection::try_parse_slice_in_full(&rlp_list(&fields)).is_err());

    // A hash of the wrong length.
    let mut fields = header_fields(&r);
    fields[0] = rlp_string(&[0x11; 31]);
    assert!(PectraForkHeaderReflection::try_parse_slice_in_full(&rlp_list(&fields)).is_err());

    // A scalar with a leading zero, and one of nine bytes.
    let mut fields = header_fields(&r);
    fields[8] = rlp_string(&[0x00, 0x01]);
    assert!(PectraForkHeaderReflection::try_parse_slice_in_full(&rlp_list(&fields)).is_err());
    let mut fields = header_fields(&r);
    fields[9] = rlp_string(&[1; 9]);
    assert!(PectraForkHeaderReflection::try_parse_slice_in_full(&rlp_list(&fields)).is_err());

    // A one-byte value below 0x80 written with a length prefix.
    let mut fields = header_fields(&r);
    fields[10] = vec![0x81, 0x05];
    assert!(PectraForkHeaderReflection::try_parse_slice_in_full(&rlp_list(&fields)).is_err());

    // Extra data longer than 32 bytes.
    let mut long_extra = r.clone();
    long_extra.extra_data = vec![7; 33];
    assert!(PectraForkHeaderReflection::try_parse_slice_in_full(&encode_header(&long_extra)).is_err());

    // A list where a string belongs.
    let mut fields = header_fields(&r);
    fields[7] = rlp_list(&[]);
    assert!(PectraForkHeaderReflection::try_parse_slice_in_full(&rlp_list(&fields)).is_err());

    // The whole header as a string.
    let payload: Vec<u8> = header_fields(&r).concat();
    assert!(PectraForkHeaderReflection::try_parse_slice_in_full(&rlp_string(&payload)).is_err());

    // A long-form list length with a leading zero byte.
    let mut padded_len = vec![0xfa, 0x00];
    padded_len.extend_from_slice(&good[1..]);
    assert!(PectraForkHeaderReflection::try_parse_slice_in_full(&padded_len).is_err());

    assert!(PectraForkHeaderReflection::try_parse_slice_in_full(&[]).is_err());
}

#[test]
fn verify_chain_accepts_a_consistent_history() {
    let current = 22431100;
    let parent = reflection(current - 1);
    let parent_encoding = encode_header(&parent);
    let parent_hash = keccak256(&parent_encoding);
    let mut child = reflection(current);
    child.parent_hash = parent_hash.bytes;
    let header = PectraForkHeader::from_relection(&child);
    let history = vec![parent_encoding.clone()];
    let fee = U256::from_u64(1);

    let root = verify_chain(&header, current, 1, &history, &[parent_hash], &fee).unwrap();
    assert_eq!(root.bytes, [0x22; 32]);
}

#[test]
fn verify_chain_walks_two_ancestors() {
    let current = 22431100;
    let grandparent = reflection(current - 2);
    let grandparent_encoding = encode_header(&grandparent);
    let grandparent_hash = keccak256(&grandparent_encoding);
    let mut parent = reflection(current - 1);
    parent.parent_hash = grandparent_hash.bytes;
    parent.state_root = [0x33; 32];
    let parent_encoding = encode_header(&parent);
    let parent_hash = keccak256(&parent_encoding);
    let mut child = reflection(current);
    child.parent_hash = parent_hash.bytes;
    let header = PectraForkHeader::from_relection(&child);
    let fee = U256::from_u64(1);
    let history = vec![parent_encoding, grandparent_encoding];

    let root = verify_chain(&header, current, 2, &history, &[parent_hash, grandparent_hash], &fee).unwrap();
    assert_eq!(root.bytes, [0x33; 32]);
    // Checking one ancestor of the same chain gives the same parent state root.
    let root1 = verify_chain(&header, current, 1, &history, &[parent_hash], &fee).unwrap();
    assert_eq!(root1.bytes, [0x33; 32]);
}

#[test]
fn verify_chain_names_the_broken_link() {
    let current = 22431100;
    let parent = reflection(current - 1);
    let parent_encoding = encode_header(&parent);
    let parent_hash = keccak256(&parent_encoding);
    let mut child = reflection(current);
    child.parent_hash = parent_hash.bytes;
    let header = PectraForkHeader::from_relection(&child);
    let history = vec![parent_encoding.clone()];
    let fee = U256::from_u64(1);

    let wrong_cache = Bytes32::from_array([9; 32]);
    assert_eq!(
        verify_chain(&header, current, 1, &history, &[wrong_cache], &fee),
        Err(ChainError::CachedHashMismatch)
    );
    let mut orphan = reflection(current);
    orphan.parent_hash = [1; 32];
    let orphan = PectraForkHeader::from_relection(&orphan);
    assert_eq!(
        verify_chain(&orphan, current, 1, &history, &[parent_hash], &fee),
        Err(ChainError::ParentHashMismatch)
    );
    assert_eq!(
        verify_chain(&header, current, 1, &vec![vec![0xc0]], &[parent_hash], &fee),
        Err(ChainError::MalformedHeader)
    );
}

#[test]
fn header_and_history_reads_the_target_header() {
    let mut r = reflection(22431100);
    r.beneficiary = [0x44; 20];
    r.mix_hash = [0x55; 32];
    r.difficulty = vec![0x02, 0x00];
    let encoding = encode_header(&r);
    let cache: Vec<Bytes32> = (0..256u32).map(|i| Bytes32::from_array([i as u8; 32])).collect();
    let fee = U256::from_u64(3);
    let h = HeaderAndHistory::new(&encoding, cache, fee).unwrap();
    assert_eq!(h.chain_id(), 1);
    assert_eq!(h.block_number(), 22431100);
    assert_eq!(h.computed_header_hash, keccak256(&encoding));
    assert_eq!(h.coinbase().bytes, [0x44; 20]);
    assert_eq!(h.block_randomness(), Some(Bytes32::from_array([0x55; 32])));
    assert_eq!(h.block_gas_limit(), 30_000_000);
    assert_eq!(h.block_timestamp(), 1_700_000_000);
    assert_eq!(h.eip1559_basefee(), U256::from_u64(1000));
    assert_eq!(h.header.difficulty, U256::from_u64(512));
    assert_eq!(h.individual_tx_gas_limit(), EIP_7825_SINGLE_TX_GAS_LIMIT);
    assert_eq!(h.max_blobs(), 9);
    assert_eq!(h.blobs_gas_limit(), 9 * GAS_PER_BLOB);
    assert_eq!(h.blob_base_fee_per_gas(), fee);
    assert_eq!(h.block_historical_hash(0), Some(Bytes32::from_array([0; 32])));
    assert_eq!(h.block_historical_hash(255), Some(Bytes32::from_array([255; 32])));
    assert_eq!(h.block_historical_hash(256), None);
}

#[test]
fn header_and_history_refuses_bad_headers() {
    let r = reflection(22431100);
    let fee = U256::from_u64(1);
    assert!(matches!(HeaderAndHistory::new(&[0xc0], vec![], fee), Err(TargetHeaderError::Malformed)));

    let mut big_difficulty = r.clone();
    big_difficulty.difficulty = vec![1; 33];
    assert!(matches!(
        HeaderAndHistory::new(&encode_header(&big_difficulty), vec![], fee),
        Err(TargetHeaderError::Malformed)
    ));

    let too_large = vec![0u8; EIP_7934_MAX_RLP_BLOCK_SIZE + 1];
    assert!(matches!(HeaderAndHistory::new(&too_large, vec![], fee), Err(TargetHeaderError::TooLarge)));
}
