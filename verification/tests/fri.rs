use zksync_os::primitives::Bytes32;
use sha3::Digest;
use zksync_os::bootloader::{
    run_block, Block, Bootloader, FriProofTx, RegularTx, SystemInterface, Transaction,
    TransactionOutput, TxContext,
};
use zksync_os::errors::{BootloaderError, InvalidTransaction};
use zksync_os::fri::{
    check_fri_proof_ordering, encode_result, execute, fri_verifier_precompile,
    get_precompile_handler, process_fri_proof_pre_loop, register_precompiles, verify_fri_proof,
    BlockTx, FriProofBlockContext, FriProofPayload, PrecompileError, PrecompileHandler,
    PrecompileResult, VerifiedFriProofs, FRI_BASE_GAS_COST, FRI_PROOF_VERIFIER_ADDRESS,
    FRI_VERIFIER_ADDRESS, MAX_FRI_PROOF_TXS_PER_BLOCK,
};

fn keccak256(data: &[u8]) -> Bytes32 {
    Bytes32 { bytes: sha3::Keccak256::digest(data).into() }
}


#[test]
fn fri_proof_after_regular_tx_is_out_of_order() {
    assert_eq!(
        check_fri_proof_ordering(0x7c, true),
        Err(InvalidTransaction::FriProofTxOutOfOrder)
    );
    assert_eq!(check_fri_proof_ordering(0x7c, false), Ok(()));
    assert_eq!(check_fri_proof_ordering(0x02, true), Ok(()));
}

#[test]
fn context_stores_entries_in_order() {
    let mut ctx = FriProofBlockContext::new();
    assert_eq!(ctx.len(), 0);
    ctx.insert(0, vec![1, 2]);
    ctx.insert(1, vec![3]);
    assert_eq!(ctx.len(), 2);
    assert_eq!(ctx.get(0).unwrap().payload, vec![1, 2]);
    assert_eq!(ctx.get(1).unwrap().payload, vec![3]);
    assert!(ctx.get(2).is_none());
}

fn fri_tx(payload: Option<Vec<u8>>) -> BlockTx {
    BlockTx { tx_type: 0x7c, fri_proof_payload: payload }
}

fn regular_tx() -> BlockTx {
    BlockTx { tx_type: 0x02, fri_proof_payload: None }
}

#[test]
fn pre_loop_consumes_head_fri_txs_only() {
    let txs = vec![fri_tx(Some(vec![1])), fri_tx(Some(vec![2])), regular_tx(), fri_tx(Some(vec![3]))];
    let mut ctx = FriProofBlockContext::new();
    assert_eq!(process_fri_proof_pre_loop(&txs, &mut ctx), Ok(2));
    assert_eq!(ctx.len(), 2);
    assert_eq!(ctx.get(1).unwrap().payload, vec![2]);
}

#[test]
fn pre_loop_refuses_more_than_the_maximum() {
    let txs: Vec<BlockTx> = (0..MAX_FRI_PROOF_TXS_PER_BLOCK + 1).map(|i| fri_tx(Some(vec![i as u8]))).collect();
    let mut ctx = FriProofBlockContext::new();
    assert_eq!(
        process_fri_proof_pre_loop(&txs, &mut ctx),
        Err(BootloaderError::TooManyFriProofTxs)
    );
    assert_eq!(ctx.len(), MAX_FRI_PROOF_TXS_PER_BLOCK);

    let txs: Vec<BlockTx> = (0..MAX_FRI_PROOF_TXS_PER_BLOCK).map(|i| fri_tx(Some(vec![i as u8]))).collect();
    let mut ctx = FriProofBlockContext::new();
    assert_eq!(process_fri_proof_pre_loop(&txs, &mut ctx), Ok(MAX_FRI_PROOF_TXS_PER_BLOCK));
}

#[test]
fn pre_loop_refuses_fri_tx_without_payload() {
    let txs = vec![fri_tx(Some(vec![1])), fri_tx(None), fri_tx(Some(vec![3]))];
    let mut ctx = FriProofBlockContext::new();
    assert_eq!(
        process_fri_proof_pre_loop(&txs, &mut ctx),
        Err(BootloaderError::MalformedFriProofTx)
    );
    assert_eq!(ctx.len(), 1);
}

fn word(v: u64) -> Vec<u8> {
    let mut w = vec![0u8; 24];
    w.extend_from_slice(&v.to_be_bytes());
    w
}

#[test]
fn result_encoding_is_abi_bool_and_bytes() {
    let out = encode_result(true, &[0xaa, 0xbb]);
    let mut expected = word(1);
    expected.extend(word(64));
    expected.extend(word(2));
    expected.extend_from_slice(&[0xaa, 0xbb]);
    expected.extend(vec![0u8; 30]);
    assert_eq!(out, expected);
    assert_eq!(out.len(), 128);

    let empty = encode_result(false, &[]);
    let mut expected = word(0);
    expected.extend(word(64));
    expected.extend(word(0));
    assert_eq!(empty, expected);
}

fn index_calldata(i: u32) -> Vec<u8> {
    let mut input = vec![0u8; 28];
    input.extend_from_slice(&i.to_be_bytes());
    input
}

#[test]
fn precompile_handles_short_calldata_missing_proofs_and_versions() {
    let mut ctx = FriProofBlockContext::new();
    ctx.insert(0, vec![0x01, 0x55]);
    ctx.insert(1, vec![0x02, 0x55]);

    match execute(&[0u8; 10], &ctx) {
        PrecompileResult::Revert(m) => assert_eq!(m, b"FriProofVerifier: short calldata".to_vec()),
        _ => panic!("expected revert"),
    }
    match execute(&index_calldata(7), &ctx) {
        PrecompileResult::Success(out) => assert_eq!(out, encode_result(false, &[])),
        _ => panic!("expected success"),
    }
    match execute(&index_calldata(1), &ctx) {
        PrecompileResult::Revert(m) => {
            assert_eq!(m, b"FriProofVerifier: unknown payload version".to_vec())
        }
        _ => panic!("expected revert"),
    }
    match execute(&index_calldata(0), &ctx) {
        PrecompileResult::Success(out) => assert_eq!(out, encode_result(true, &[])),
        _ => panic!("expected success"),
    }
}

#[test]
fn verified_proof_is_keyed_by_hash_of_encoding() {
    let payload = FriProofPayload { proof_data: vec![1, 2, 3], public_inputs: vec![4, 5] };
    let v = verify_fri_proof(&payload, &[9, 9, 9]);
    assert!(v.is_valid);
    assert_eq!(v.proof_id, keccak256(&[9, 9, 9]));
    assert_eq!(v.public_inputs_hash, keccak256(&[4, 5]));
    assert_ne!(v.proof_id.bytes, [9u8; 32]);
}

#[test]
fn verifier_precompile_looks_up_proofs_on_gateway_only() {
    let payload = FriProofPayload { proof_data: vec![1], public_inputs: vec![4, 5] };
    let v = verify_fri_proof(&payload, &[1, 2]);
    let mut proofs = VerifiedFriProofs::new();
    proofs.insert(v.proof_id, v);

    assert_eq!(
        fri_verifier_precompile(false, &proofs, &v.proof_id.bytes),
        Err(PrecompileError::NotSupported)
    );
    assert_eq!(fri_verifier_precompile(true, &proofs, &[0u8; 31]), Err(PrecompileError::InvalidInput));
    assert_eq!(fri_verifier_precompile(true, &proofs, &[0u8; 32]), Err(PrecompileError::ProofNotFound));
    let (gas, out) = fri_verifier_precompile(true, &proofs, &v.proof_id.bytes).unwrap();
    assert_eq!(gas, FRI_BASE_GAS_COST);
    let mut expected = vec![1u8];
    expected.extend_from_slice(&v.public_inputs_hash.bytes);
    assert_eq!(out, expected);
}

#[test]
fn precompile_handler_and_registration() {
    assert_eq!(get_precompile_handler(FRI_VERIFIER_ADDRESS), Some(PrecompileHandler::FriVerifier));
    assert_eq!(get_precompile_handler(0x02), None);
    let mut registry = Vec::new();
    register_precompiles(false, &mut registry);
    assert!(registry.is_empty());
    register_precompiles(true, &mut registry);
    assert_eq!(registry, vec![FRI_PROOF_VERIFIER_ADDRESS]);
}

fn fri_transaction(tag: u8) -> Transaction {
    Transaction::FriProof(FriProofTx {
        payload: FriProofPayload { proof_data: vec![tag], public_inputs: vec![tag, tag] },
        encoded_payload: vec![tag; 4],
    })
}

#[test]
fn block_outputs_skip_fri_proof_transactions() {
    let block = Block {
        transactions: vec![
            fri_transaction(1),
            Transaction::Regular(RegularTx { gas_limit: 21000 }),
            Transaction::Regular(RegularTx { gas_limit: 50000 }),
        ],
    };
    let (out, ctx) = run_block(true, &block).unwrap();
    assert_eq!(
        out.transaction_outputs,
        vec![
            TransactionOutput { success: true, gas_used: 21000 },
            TransactionOutput { success: true, gas_used: 50000 },
        ]
    );
    let id = keccak256(&[1u8; 4]);
    let p = ctx.verified_fri_proofs.get(&id).unwrap();
    assert!(p.is_valid);
    assert_eq!(p.public_inputs_hash, keccak256(&[1, 1]));
}

#[test]
fn fri_proofs_are_refused_off_gateway() {
    let block = Block { transactions: vec![fri_transaction(1)] };
    assert_eq!(run_block(false, &block).err(), Some(BootloaderError::UnsupportedTransactionType));
    let regular = Block { transactions: vec![Transaction::Regular(RegularTx { gas_limit: 1 })] };
    assert!(run_block(false, &regular).is_ok());
}

struct TestSystem {
    gateway: bool,
    context: Option<TxContext>,
}

impl SystemInterface for TestSystem {
    fn is_gateway_mode(&self) -> bool {
        self.gateway
    }

    fn set_tx_context(&mut self, tx_context: TxContext) {
        self.context = Some(tx_context);
    }
}

#[test]
fn bootloader_executes_blocks_through_the_system() {
    let mut bootloader = Bootloader::new(TestSystem { gateway: true, context: None });
    let block = Block {
        transactions: vec![fri_transaction(2), Transaction::Regular(RegularTx { gas_limit: 7 })],
    };
    let out = bootloader.execute_block(block).unwrap();
    assert_eq!(out.transaction_outputs, vec![TransactionOutput { success: true, gas_used: 7 }]);

    let mut l2 = Bootloader::new(TestSystem { gateway: false, context: None });
    let block = Block { transactions: vec![fri_transaction(2)] };
    assert_eq!(l2.execute_block(block).err(), Some(BootloaderError::UnsupportedTransactionType));
}
