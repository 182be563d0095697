use std::collections::VecDeque;

use zksync_os::api::{
    code_from_preimage, get_balance, get_code, get_nonce, get_unpadded_code, set_properties_balance,
    set_properties_nonce, AccountProperties, PreimageSource,
};
use zksync_os::batch::{
    BatchBlockMetadataResponder, BatchCursor, BatchPreimageSource, BatchTxSource, NextTxResponse,
    TxSource,
};
use zksync_os::memory::{read_memory_as_u64, read_memory_as_u8, WordMemory};
use zksync_os::oracles::{
    answer_size, CsrBasedIOOracle, DummyCSRImpl, DummyStorageNonDetermenismSource, TxDataError,
    TxDataResponder, VecDequeNonDetermenismSource,
};
use zksync_os::primitives::Bytes32;
use zksync_os::storage_layer::StorageLayer;
use zksync_os::u256::U256;

fn memory() -> WordMemory {
    WordMemory { words: vec![0x04030201, 0x08070605, 0x0c0b0a09] }
}

#[test]
fn reads_bytes_across_words() {
    let m = memory();
    assert_eq!(read_memory_as_u8(&m, 0, 6), Ok(vec![1, 2, 3, 4, 5, 6]));
    assert_eq!(read_memory_as_u8(&m, 2, 5), Ok(vec![3, 4, 5, 6, 7]));
    assert_eq!(read_memory_as_u8(&m, 1, 2), Ok(vec![2, 3]));
    assert_eq!(read_memory_as_u8(&m, 8, 4), Ok(vec![9, 10, 11, 12]));
    assert_eq!(read_memory_as_u8(&m, 4, 0), Ok(vec![]));
    assert_eq!(read_memory_as_u8(&m, u32::MAX - 1, 4), Err(()));
}

#[test]
fn reads_bytes_at_unaligned_offsets_past_the_first_word() {
    let m = memory();
    assert_eq!(read_memory_as_u8(&m, 5, 6), Ok(vec![6, 7, 8, 9, 10, 11]));
    assert_eq!(read_memory_as_u8(&m, 7, 1), Ok(vec![8]));
    assert_eq!(read_memory_as_u8(&m, 6, 2), Ok(vec![7, 8]));
}

#[test]
fn reads_u64_words() {
    let m = memory();
    assert_eq!(read_memory_as_u64(&m, 0, 1), Ok(vec![0x0807060504030201]));
    assert_eq!(read_memory_as_u64(&m, 4, 1), Ok(vec![0x0c0b0a0908070605]));
    assert_eq!(read_memory_as_u64(&m, 2, 1), Err(()));
    assert_eq!(read_memory_as_u64(&m, u32::MAX - 1, 1), Err(()));
}

struct Source {
    txs: VecDeque<Vec<u8>>,
}

impl TxSource for Source {
    fn get_next_tx(&mut self) -> NextTxResponse {
        let r = self.next_response();
        self.txs.pop_front();
        r
    }

    fn next_response(&self) -> NextTxResponse {
        match self.txs.front() {
            Some(t) => NextTxResponse::Tx(t.clone()),
            None => NextTxResponse::SealBlock,
        }
    }
}

#[test]
fn batch_cursor_is_shared_and_stops_at_last_block() {
    let cursor = BatchCursor::new(2);
    let other = cursor.clone();
    assert_eq!(cursor.current(), 0);
    other.advance();
    assert_eq!(cursor.current(), 1);
    cursor.advance();
    assert_eq!(other.current(), 1);
}

#[test]
fn batch_sources_follow_the_cursor() {
    let cursor = BatchCursor::new(2);
    let mut txs = BatchTxSource::new(
        vec![Source { txs: VecDeque::from(vec![vec![1u8]]) }, Source { txs: VecDeque::from(vec![vec![2u8]]) }],
        cursor.clone(),
    );
    match txs.get_next_tx() {
        NextTxResponse::Tx(t) => assert_eq!(t, vec![1]),
        _ => panic!("expected a transaction"),
    }
    cursor.advance();
    match txs.get_next_tx() {
        NextTxResponse::Tx(t) => assert_eq!(t, vec![2]),
        _ => panic!("expected a transaction"),
    }
    let meta = BatchBlockMetadataResponder::new(vec![10u64, 20u64], cursor.clone());
    assert_eq!(*meta.current_metadata(), 20);
}

struct Preimages {
    requests: Vec<Bytes32>,
}

impl PreimageSource for Preimages {
    fn get_preimage(&mut self, hash: Bytes32) -> Option<Vec<u8>> {
        self.requests.push(hash);
        self.preimage_of(hash)
    }

    fn requested_hashes(&self) -> Vec<Bytes32> {
        self.requests.clone()
    }

    fn preimage_of(&self, hash: Bytes32) -> Option<Vec<u8>> {
        if hash.bytes[0] == 1 {
            Some(vec![9, 8, 7, 6, 0, 0])
        } else {
            None
        }
    }
}

fn account(hash_byte: u8, code_len: u32) -> AccountProperties {
    AccountProperties {
        versioning_data: 0,
        nonce: 3,
        balance: U256::from_u64(100),
        bytecode_hash: Bytes32::from_array([hash_byte; 32]),
        unpadded_code_len: code_len,
        artifacts_len: 0,
        observable_bytecode_hash: Bytes32::zero(),
        observable_bytecode_len: code_len,
    }
}

#[test]
fn account_getters_and_setters() {
    let mut a = account(1, 4);
    assert_eq!(get_nonce(&a), 3);
    assert_eq!(get_balance(&a), U256::from_u64(100));
    set_properties_nonce(&mut a, 4);
    set_properties_balance(&mut a, U256::from_u64(5));
    assert_eq!(get_nonce(&a), 4);
    assert_eq!(get_balance(&a), U256::from_u64(5));
    assert_eq!(get_unpadded_code(&[1, 2, 3, 4, 5], &a), &[1, 2, 3, 4]);
}

#[test]
fn code_comes_from_the_preimage() {
    let mut source = Preimages { requests: vec![] };
    assert_eq!(get_code(&mut source, &account(1, 4)), Some(vec![9, 8, 7, 6]));
    assert_eq!(source.requests.len(), 1);
    assert_eq!(get_code(&mut source, &account(2, 4)), Some(vec![]));
    assert_eq!(get_code(&mut source, &account(1, 10)), None);
    assert_eq!(source.requests.len(), 3);
    assert_eq!(code_from_preimage(None, &account(1, 4)), Some(vec![]));
    let mut batch = BatchPreimageSource::new(vec![Preimages { requests: vec![] }], BatchCursor::new(1));
    assert_eq!(batch.get_preimage(Bytes32::from_array([1; 32])), Some(vec![9, 8, 7, 6, 0, 0]));
}

#[test]
fn vecdeque_source_reads_zero_when_exhausted() {
    let mut s = VecDequeNonDetermenismSource { oracle: VecDeque::from(vec![5, 6]) };
    assert_eq!(s.read(), 5);
    s.write_with_memory_access(77);
    assert_eq!(s.read(), 6);
    assert_eq!(s.read(), 0);
}

#[test]
fn dummy_storage_source_answers_requests() {
    let mut s = DummyStorageNonDetermenismSource::new();
    s.set(1, 42);
    s.write_with_memory_access(1);
    s.write_with_memory_access(2);
    assert_eq!(s.read(), 42);
    assert_eq!(s.read(), 0);
}

#[test]
fn csr_oracle_with_dummy_csr_answers_nothing() {
    let mut oracle = CsrBasedIOOracle::<DummyCSRImpl>::init();
    let mut it = oracle.raw_query(7, &[1, 2, 3]);
    assert_eq!(it.len(), 0);
    assert_eq!(it.next(), None);
}

#[test]
fn tx_data_responder_hands_out_size_then_data() {
    let mut r = TxDataResponder {
        tx_source: Source { txs: VecDeque::from(vec![vec![1u8, 2, 3], vec![4u8]]) },
        next_tx: None,
    };
    assert_eq!(r.next_tx_size(), Ok(3));
    assert_eq!(r.next_tx_size(), Ok(3));
    assert_eq!(r.take_tx_data(), Ok(vec![1, 2, 3]));
    assert_eq!(r.next_tx_size(), Ok(1));
    assert_eq!(r.take_tx_data(), Ok(vec![4]));
    assert_eq!(r.next_tx_size(), Ok(0));
    assert_eq!(r.next_tx, None);
}

#[test]
fn size_answers_from_the_source() {
    assert_eq!(answer_size(NextTxResponse::SealBlock), (Ok(0), None));
    assert_eq!(answer_size(NextTxResponse::Tx(vec![])), (Err(TxDataError::EmptyTransaction), None));
    assert_eq!(answer_size(NextTxResponse::Tx(vec![5, 6])), (Ok(2), Some(vec![5, 6])));
}

struct CountingSlots {
    requests: Vec<u32>,
}

impl zksync_os::storage_layer::StorageSlotOracle for CountingSlots {
    fn slot_answer(&self, index: u32) -> u32 {
        index * 10 + 1
    }

    fn requested_slots(&self) -> Vec<u32> {
        self.requests.clone()
    }

    fn request_storage_slot(&mut self, index: u32) -> u32 {
        self.requests.push(index);
        self.slot_answer(index)
    }
}

#[test]
fn storage_layer_caches_reads_and_commits_the_sum() {
    let mut oracle = CountingSlots { requests: vec![] };
    let mut storage = StorageLayer::new_in();
    let a = storage.get(0, &mut oracle);
    let b = storage.get(1, &mut oracle);
    assert_eq!((a, b), (1, 11));
    assert_eq!(storage.get(1, &mut oracle), 11);
    assert_eq!(oracle.requests, vec![0, 1]);
    storage.set(2, a + b);
    assert_eq!(storage.get(2, &mut oracle), 12);
    assert_eq!(oracle.requests, vec![0, 1]);
    assert_eq!(storage.commit(), 24);
}
