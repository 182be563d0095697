//! FRI proof transactions (type `0x7c`): their ordering in a block, the block-scoped
//! store of their payloads, the verifier precompile that reads it, and the block
//! driver that verifies all proofs before executing the other transactions.
use vstd::prelude::*;
use vstd::string::{StrSliceExecFns, StringSliceAdditionalSpecFns};

use crate::errors::{BootloaderError, InvalidTransaction};
use crate::hashing::{keccak256, keccak256_of};
use crate::interop::{push_word, word};
use crate::primitives::Bytes32;

verus! {

/// The transaction type of FRI proof transactions.
pub const FRI_PROOF_TX_TYPE: u8 = 0x7c;

/// Maximum number of FRI proof transactions allowed per block.
pub const MAX_FRI_PROOF_TXS_PER_BLOCK: usize = 8;

/// Enforces that a `0x7c` transaction does not appear after a non-`0x7c` one; call it
/// once per transaction with whether a regular transaction was seen already.
pub fn check_fri_proof_ordering(tx_type: u8, regular_tx_seen: bool) -> (r: Result<
    (),
    InvalidTransaction,
>)
    ensures
        r == if tx_type == FRI_PROOF_TX_TYPE && regular_tx_seen {
            Err::<(), InvalidTransaction>(InvalidTransaction::FriProofTxOutOfOrder)
        } else {
            Ok(())
        },
{
    if tx_type == FRI_PROOF_TX_TYPE && regular_tx_seen {
        Err(InvalidTransaction::FriProofTxOutOfOrder)
    } else {
        Ok(())
    }
}

/// A single FRI proof payload stored for in-block lookup.
#[derive(Clone, Debug)]
pub struct FriProofEntry {
    /// Raw encoded proof payload from the `0x7c` transaction.
    pub payload: Vec<u8>,
}

/// Block-scoped storage for all FRI proof entries, indexed by arrival order.
#[derive(Debug)]
pub struct FriProofBlockContext {
    entries: Vec<FriProofEntry>,
}

impl View for FriProofBlockContext {
    /// The payloads, in arrival order.
    type V = Seq<Seq<u8>>;

    closed spec fn view(&self) -> Seq<Seq<u8>> {
        self.entries@.map_values(|e: FriProofEntry| e.payload@)
    }
}

impl FriProofBlockContext {
    pub fn new() -> (r: Self)
        ensures
            r@ == Seq::<Seq<u8>>::empty(),
    {
        let r = FriProofBlockContext { entries: Vec::new() };
        assert(r@ =~= Seq::<Seq<u8>>::empty());
        r
    }

    /// Stores a new entry at `index`; entries arrive in order.
    pub fn insert(&mut self, index: usize, payload: Vec<u8>)
        requires
            index == old(self)@.len(),
        ensures
            final(self)@ == old(self)@.push(payload@),
    {
        let ghost p = payload@;
        self.entries.push(FriProofEntry { payload });
        assert(self@ =~= old(self)@.push(p));
    }

    /// The entry at `index`; `None` past the end.
    pub fn get(&self, index: usize) -> (r: Option<&FriProofEntry>)
        ensures
            index < self@.len() <==> r is Some,
            r matches Some(e) ==> e.payload@ == self@[index as int],
    {
        if index < self.entries.len() {
            Some(&self.entries[index])
        } else {
            None
        }
    }

    pub fn len(&self) -> (r: usize)
        ensures
            r == self@.len(),
    {
        self.entries.len()
    }
}

/// Access to the FRI proof store of a block-data keeper.
pub trait IOSubsystemFriExt {
    /// Stores a FRI proof entry during the pre-transaction loop.
    fn add_fri_proof_entry(&mut self, index: usize, payload: Vec<u8>);

    /// Retrieves a stored FRI proof entry (used by the precompile).
    fn get_fri_proof_entry(&self, index: usize) -> Option<&FriProofEntry>;
}

/// What the pre-transaction loop reads of a block transaction.
#[derive(Clone, Debug)]
pub struct BlockTx {
    pub tx_type: u8,
    /// The proof payload, for a well-formed `0x7c` transaction.
    pub fri_proof_payload: Option<Vec<u8>>,
}

/// The number of `0x7c` transactions at the head of `txs`.
pub open spec fn fri_run_len(txs: Seq<BlockTx>) -> nat
    decreases txs.len(),
{
    if txs.len() == 0 || txs[0].tx_type != FRI_PROOF_TX_TYPE {
        0
    } else {
        1 + fri_run_len(txs.drop_first())
    }
}

/// The payloads of the first `k` transactions.
pub open spec fn payloads(txs: Seq<BlockTx>, k: nat) -> Seq<Seq<u8>> {
    Seq::new(k, |j: int| txs[j].fri_proof_payload.unwrap()@)
}

/// The head run of `0x7c` transactions, as counted.
proof fn lemma_fri_run(txs: Seq<BlockTx>)
    ensures
        fri_run_len(txs) <= txs.len(),
        forall|j: int| 0 <= j < fri_run_len(txs) ==> #[trigger] txs[j].tx_type == FRI_PROOF_TX_TYPE,
        fri_run_len(txs) < txs.len() ==> txs[fri_run_len(txs) as int].tx_type != FRI_PROOF_TX_TYPE,
    decreases txs.len(),
{
    if txs.len() > 0 && txs[0].tx_type == FRI_PROOF_TX_TYPE {
        lemma_fri_run(txs.drop_first());
        assert forall|j: int| 0 <= j < fri_run_len(txs) implies #[trigger] txs[j].tx_type
            == FRI_PROOF_TX_TYPE by {
            if j > 0 {
                assert(txs[j] == txs.drop_first()[j - 1]);
            }
        }
        if fri_run_len(txs) < txs.len() {
            assert(txs[fri_run_len(txs) as int] == txs.drop_first()[fri_run_len(
                txs.drop_first(),
            ) as int]);
        }
    }
}

/// Stores the payloads of the `0x7c` transactions at the head of the block, in order,
/// and returns how many there are. Fails with `TooManyFriProofTxs` at the ninth one and
/// with `MalformedFriProofTx` at one without a payload, keeping what came before.
pub fn process_fri_proof_pre_loop(txs: &[BlockTx], keeper: &mut FriProofBlockContext) -> (r: Result<
    usize,
    BootloaderError,
>)
    requires
        old(keeper)@.len() == 0,
    ensures
        ({
            let run = fri_run_len(txs@);
            let checked = if run <= MAX_FRI_PROOF_TXS_PER_BLOCK {
                run
            } else {
                MAX_FRI_PROOF_TXS_PER_BLOCK as nat
            };
            if exists|j: int| 0 <= j < checked && txs@[j].fri_proof_payload is None {
                &&& r == Err::<usize, BootloaderError>(BootloaderError::MalformedFriProofTx)
                &&& exists|m: int|
                    {
                        &&& 0 <= m < checked
                        &&& txs@[m].fri_proof_payload is None
                        &&& forall|j: int| 0 <= j < m ==> txs@[j].fri_proof_payload is Some
                        &&& final(keeper)@ == payloads(txs@, m as nat)
                    }
            } else if run > MAX_FRI_PROOF_TXS_PER_BLOCK {
                &&& r == Err::<usize, BootloaderError>(BootloaderError::TooManyFriProofTxs)
                &&& final(keeper)@ == payloads(txs@, MAX_FRI_PROOF_TXS_PER_BLOCK as nat)
            } else {
                &&& r == Ok::<usize, BootloaderError>(run as usize)
                &&& final(keeper)@ == payloads(txs@, run)
            }
        }),
{
    proof {
        lemma_fri_run(txs@);
    }
    let ghost run = fri_run_len(txs@);
    let mut count: usize = 0;
    while count < txs.len()
        invariant
            count <= txs@.len(),
            count <= run,
            count <= MAX_FRI_PROOF_TXS_PER_BLOCK,
            run == fri_run_len(txs@),
            run <= txs@.len(),
            forall|j: int| 0 <= j < run ==> #[trigger] txs@[j].tx_type == FRI_PROOF_TX_TYPE,
            run < txs@.len() ==> txs@[run as int].tx_type != FRI_PROOF_TX_TYPE,
            forall|j: int| 0 <= j < count ==> txs@[j].fri_proof_payload is Some,
            keeper@ == payloads(txs@, count as nat),
        ensures
            count == run,
            forall|j: int| 0 <= j < count ==> txs@[j].fri_proof_payload is Some,
            keeper@ == payloads(txs@, count as nat),
        decreases txs@.len() - count,
    {
        let tx = &txs[count];
        if tx.tx_type != FRI_PROOF_TX_TYPE {
            break;
        }
        if count >= MAX_FRI_PROOF_TXS_PER_BLOCK {
            return Err(BootloaderError::TooManyFriProofTxs);
        }
        let payload = match &tx.fri_proof_payload {
            Some(p) => p.clone(),
            None => {
                return Err(BootloaderError::MalformedFriProofTx);
            },
        };
        proof {
            assert(payload@ == txs@[count as int].fri_proof_payload.unwrap()@);
        }
        keeper.insert(count, payload);
        count = count + 1;
        assert(keeper@ =~= payloads(txs@, count as nat));
    }
    Ok(count)
}

/// The result of a precompile call.
#[derive(Clone, Debug)]
pub enum PrecompileResult {
    Success(Vec<u8>),
    Revert(Vec<u8>),
}

/// Version byte of the first deployed proof payload encoding.
pub const PROOF_PAYLOAD_VERSION_V1: u8 = 0x01;

/// EVM address of the FRI proof verifier precompile.
pub const FRI_PROOF_VERIFIER_ADDRESS: u32 = 0x12;

/// Zero bytes up to the next multiple of 32.
pub open spec fn abi_padding(len: nat) -> Seq<u8> {
    Seq::new(((32 - len % 32) % 32) as nat, |i: int| 0u8)
}

/// The ABI encoding of `(bool success, bytes data)`: the flag word, the offset of
/// the bytes (two words ahead), their length, and the bytes padded to a word.
pub open spec fn abi_bool_and_bytes(success: bool, data: Seq<u8>) -> Seq<u8> {
    word(if success {
        1
    } else {
        0
    }) + word(64) + word(data.len()) + data + abi_padding(data.len())
}

/// ABI-encodes `(bool success, bytes publicInputs)`.
pub fn encode_result(success: bool, public_inputs: &[u8]) -> (r: Vec<u8>)
    requires
        public_inputs@.len() <= u64::MAX,
    ensures
        r@ == abi_bool_and_bytes(success, public_inputs@),
{
    let mut out: Vec<u8> = Vec::new();
    push_word(&mut out, if success { 1 } else { 0 });
    push_word(&mut out, 64);
    push_word(&mut out, public_inputs.len() as u64);
    let ghost head = out@;
    let mut i: usize = 0;
    while i < public_inputs.len()
        invariant
            i <= public_inputs@.len(),
            out@ == head + public_inputs@.subrange(0, i as int),
        decreases public_inputs@.len() - i,
    {
        out.push(public_inputs[i]);
        i = i + 1;
        assert(out@ =~= head + public_inputs@.subrange(0, i as int));
    }
    assert(public_inputs@.subrange(0, public_inputs@.len() as int) =~= public_inputs@);
    let pad = (32 - public_inputs.len() % 32) % 32;
    let ghost body = out@;
    let mut k: usize = 0;
    while k < pad
        invariant
            k <= pad,
            pad == (32 - public_inputs@.len() % 32) % 32,
            out@ == body + Seq::new(k as nat, |j: int| 0u8),
        decreases pad - k,
    {
        out.push(0u8);
        k = k + 1;
        assert(out@ =~= body + Seq::new(k as nat, |j: int| 0u8));
    }
    assert(out@ =~= abi_bool_and_bytes(success, public_inputs@));
    out
}

/// The public inputs that the verifier delegation circuit reports for a payload. Off
/// the proving target no circuit intercepts the call, and it reports none.
fn fri_verify_delegation(payload: &[u8]) -> (r: Vec<u8>)
    ensures
        r@ == Seq::<u8>::empty(),
{
    Vec::new()
}

/// The revert message for calldata shorter than one word.
pub open spec fn short_calldata_message() -> Seq<u8> {
    "FriProofVerifier: short calldata".spec_bytes()
}

/// The revert message for a payload of an unknown version.
pub open spec fn unknown_version_message() -> Seq<u8> {
    "FriProofVerifier: unknown payload version".spec_bytes()
}

/// The proof index that ABI-encoded `uint32` calldata carries: its bytes 28..32.
pub open spec fn calldata_proof_index(input: Seq<u8>) -> nat {
    ((input[28] as nat * 256 + input[29] as nat) * 256 + input[30] as nat) * 256 + input[31] as nat
}

/// Runs the FRI proof verifier precompile on calldata holding an ABI-encoded `uint32`
/// proof index. Short calldata and payloads of an unknown version revert; an index past
/// the stored proofs gives `(false, "")`.
pub fn execute(input: &[u8], context: &FriProofBlockContext) -> (r: PrecompileResult)
    ensures
        input@.len() < 32 ==> (r matches PrecompileResult::Revert(m) && m@
            == short_calldata_message()),
        input@.len() >= 32 ==> {
            let idx = calldata_proof_index(input@);
            if idx >= context@.len() {
                (r matches PrecompileResult::Success(out) && out@ == abi_bool_and_bytes(
                    false,
                    Seq::empty(),
                ))
            } else if context@[idx as int].len() == 0 || context@[idx as int][0]
                != PROOF_PAYLOAD_VERSION_V1 {
                (r matches PrecompileResult::Revert(m) && m@ == unknown_version_message())
            } else {
                (r matches PrecompileResult::Success(out) && out@ == abi_bool_and_bytes(
                    true,
                    Seq::empty(),
                ))
            }
        },
{
    if input.len() < 32 {
        return PrecompileResult::Revert("FriProofVerifier: short calldata".as_bytes_vec());
    }
    let idx: u32 = ((input[28] as u32 * 256 + input[29] as u32) * 256 + input[30] as u32) * 256
        + input[31] as u32;
    let proof_index = idx as usize;
    let entry = match context.get(proof_index) {
        Some(e) => e,
        None => {
            return PrecompileResult::Success(encode_result(false, &[]));
        },
    };
    if entry.payload.len() == 0 || entry.payload[0] != PROOF_PAYLOAD_VERSION_V1 {
        return PrecompileResult::Revert(
            "FriProofVerifier: unknown payload version".as_bytes_vec(),
        );
    }
    let public_inputs = fri_verify_delegation(vstd::slice::slice_subrange(
        entry.payload.as_slice(),
        1,
        entry.payload.len(),
    ));
    PrecompileResult::Success(encode_result(true, public_inputs.as_slice()))
}

/// The raw contents of a FRI proof transaction.
#[derive(Clone, Debug)]
pub struct FriProofPayload {
    pub proof_data: Vec<u8>,
    pub public_inputs: Vec<u8>,
}

/// The outcome of verifying a FRI proof.
#[derive(Clone, Copy, Debug, PartialEq, Eq)]
pub struct VerifiedFriProof {
    pub proof_id: Bytes32,
    pub is_valid: bool,
    pub public_inputs_hash: Bytes32,
}

/// Proof check; every proof is accepted until the unified verifier is integrated.
pub fn mock_verify_proof(proof_data: &[u8], public_inputs: &[u8]) -> (r: bool)
    ensures
        r,
{
    true
}

/// Verifies a FRI proof payload, given also its canonical encoding: the proof's id is
/// the Keccak-256 of the encoding, and its public inputs are committed to by their
/// Keccak-256.
pub fn verify_fri_proof(payload: &FriProofPayload, encoded_payload: &[u8]) -> (r: VerifiedFriProof)
    ensures
        r.proof_id@ == keccak256_of(encoded_payload@),
        r.public_inputs_hash@ == keccak256_of(payload.public_inputs@),
        r.is_valid,
{
    let proof_id = keccak256(encoded_payload);
    let public_inputs_hash = keccak256(payload.public_inputs.as_slice());
    let is_valid = mock_verify_proof(payload.proof_data.as_slice(), payload.public_inputs.as_slice());
    VerifiedFriProof { proof_id, is_valid, public_inputs_hash }
}

/// Verified proofs of a block, by proof id.
#[derive(Clone, Debug)]
pub struct VerifiedFriProofs {
    entries: Vec<VerifiedFriProof>,
}

impl View for VerifiedFriProofs {
    type V = Map<Seq<u8>, VerifiedFriProof>;

    closed spec fn view(&self) -> Map<Seq<u8>, VerifiedFriProof> {
        Map::new(
            |id: Seq<u8>| exists|i: int| 0 <= i < self.entries@.len() && self.entries@[i].proof_id@ == id,
            |id: Seq<u8>|
                self.entries@[choose|i: int| 0 <= i < self.entries@.len() && self.entries@[i].proof_id@ == id],
        )
    }
}

impl VerifiedFriProofs {
    /// No two entries share an id.
    pub closed spec fn wf(&self) -> bool {
        forall|i: int, j: int|
            0 <= i < self.entries@.len() && 0 <= j < self.entries@.len() && i != j
                ==> self.entries@[i].proof_id@ != self.entries@[j].proof_id@
    }

    pub fn new() -> (r: Self)
        ensures
            r.wf(),
            r@ == Map::<Seq<u8>, VerifiedFriProof>::empty(),
    {
        let r = VerifiedFriProofs { entries: Vec::new() };
        assert(r@ =~= Map::<Seq<u8>, VerifiedFriProof>::empty());
        r
    }

    fn position(&self, id: &Bytes32) -> (r: Option<usize>)
        requires
            self.wf(),
        ensures
            r matches Some(i) ==> i < self.entries@.len() && self.entries@[i as int].proof_id@ == id@,
            r is None ==> forall|i: int|
                0 <= i < self.entries@.len() ==> self.entries@[i].proof_id@ != id@,
    {
        let mut i: usize = 0;
        while i < self.entries.len()
            invariant
                i <= self.entries@.len(),
                forall|j: int| 0 <= j < i ==> self.entries@[j].proof_id@ != id@,
            decreases self.entries@.len() - i,
        {
            if self.entries[i].proof_id.equals(id) {
                return Some(i);
            }
            i = i + 1;
        }
        None
    }

    /// Records `proof` under `id`, replacing what was recorded under it.
    pub fn insert(&mut self, id: Bytes32, proof: VerifiedFriProof)
        requires
            old(self).wf(),
            proof.proof_id == id,
        ensures
            final(self).wf(),
            final(self)@ == old(self)@.insert(id@, proof),
    {
        match self.position(&id) {
            Some(i) => {
                self.entries.set(i, proof);
                proof {
                    assert forall|k: Seq<u8>| #[trigger] self@.contains_key(k) == old(self)@.insert(
                        id@,
                        proof,
                    ).contains_key(k) by {
                        if old(self)@.contains_key(k) {
                            let j = choose|j: int|
                                0 <= j < old(self).entries@.len() && old(self).entries@[j].proof_id@ == k;
                            if j == i {
                                assert(self.entries@[j].proof_id@ == k);
                            } else {
                                assert(self.entries@[j] == old(self).entries@[j]);
                            }
                        }
                        if k == id@ {
                            assert(self.entries@[i as int].proof_id@ == k);
                        }
                        if self@.contains_key(k) {
                            let j = choose|j: int|
                                0 <= j < self.entries@.len() && self.entries@[j].proof_id@ == k;
                            if j != i {
                                assert(old(self).entries@[j] == self.entries@[j]);
                            }
                        }
                    }
                    assert forall|k: Seq<u8>| #[trigger] self@.contains_key(k) implies self@[k]
                        == old(self)@.insert(id@, proof)[k] by {
                        let j = choose|j: int|
                            0 <= j < self.entries@.len() && self.entries@[j].proof_id@ == k;
                        if k == id@ {
                            assert(j == i);
                        } else {
                            assert(j != i);
                            assert(old(self).entries@[j] == self.entries@[j]);
                            let j2 = choose|j2: int|
                                0 <= j2 < old(self).entries@.len() && old(self).entries@[j2].proof_id@
                                    == k;
                            assert(j2 == j);
                        }
                    }
                    assert(self@ =~= old(self)@.insert(id@, proof));
                }
            },
            None => {
                self.entries.push(proof);
                proof {
                    let n = old(self).entries@.len() as int;
                    assert forall|k: Seq<u8>| #[trigger] self@.contains_key(k) == old(self)@.insert(
                        id@,
                        proof,
                    ).contains_key(k) by {
                        if old(self)@.contains_key(k) {
                            let j = choose|j: int|
                                0 <= j < old(self).entries@.len() && old(self).entries@[j].proof_id@ == k;
                            assert(self.entries@[j] == old(self).entries@[j]);
                        }
                        if k == id@ {
                            assert(self.entries@[n].proof_id@ == k);
                        }
                        if self@.contains_key(k) && k != id@ {
                            let j = choose|j: int|
                                0 <= j < self.entries@.len() && self.entries@[j].proof_id@ == k;
                            assert(j != n);
                            assert(old(self).entries@[j] == self.entries@[j]);
                        }
                    }
                    assert forall|k: Seq<u8>| #[trigger] self@.contains_key(k) implies self@[k]
                        == old(self)@.insert(id@, proof)[k] by {
                        let j = choose|j: int|
                            0 <= j < self.entries@.len() && self.entries@[j].proof_id@ == k;
                        if k == id@ {
                            assert(j == n);
                        } else {
                            assert(j != n);
                            assert(old(self).entries@[j] == self.entries@[j]);
                            let j2 = choose|j2: int|
                                0 <= j2 < old(self).entries@.len() && old(self).entries@[j2].proof_id@
                                    == k;
                            assert(j2 == j);
                        }
                    }
                    assert(self@ =~= old(self)@.insert(id@, proof));
                }
            },
        }
    }

    /// The proof recorded under `id`.
    pub fn get(&self, id: &Bytes32) -> (r: Option<VerifiedFriProof>)
        requires
            self.wf(),
        ensures
            self@.contains_key(id@) <==> r is Some,
            r matches Some(p) ==> p == self@[id@],
    {
        match self.position(id) {
            Some(i) => {
                proof {
                    let j = choose|j: int|
                        0 <= j < self.entries@.len() && self.entries@[j].proof_id@ == id@;
                    assert(j == i);
                }
                Some(self.entries[i])
            },
            None => None,
        }
    }
}

/// Gas charged by the FRI verifier precompile.
pub const FRI_BASE_GAS_COST: u64 = 50000;

/// Precompile address of the FRI verifier on gateway nodes.
pub const FRI_VERIFIER_ADDRESS: u64 = 0x0101;

/// Errors of precompile calls.
#[derive(Clone, Copy, Debug, PartialEq, Eq)]
pub enum PrecompileError {
    InvalidInput,
    ProofNotFound,
    NotSupported,
    MemoryError,
}

/// The verifier precompile's answer: the validity flag byte, then the hash of the
/// public inputs.
pub open spec fn verifier_output(p: VerifiedFriProof) -> Seq<u8> {
    seq![if p.is_valid { 1u8 } else { 0u8 }] + p.public_inputs_hash@
}

/// Looks up the verified proof whose id is the first word of `input`; only available
/// on gateway nodes. Returns the gas charged and the output.
pub fn fri_verifier_precompile(gateway_mode: bool, proofs: &VerifiedFriProofs, input: &[u8]) -> (r:
    Result<(u64, Vec<u8>), PrecompileError>)
    requires
        proofs.wf(),
    ensures
        !gateway_mode ==> r == Err::<(u64, Vec<u8>), PrecompileError>(PrecompileError::NotSupported),
        gateway_mode && input@.len() < 32 ==> r == Err::<(u64, Vec<u8>), PrecompileError>(
            PrecompileError::InvalidInput,
        ),
        gateway_mode && input@.len() >= 32 ==> {
            let id = input@.subrange(0, 32);
            if proofs@.contains_key(id) {
                (r matches Ok((gas, out)) && gas == FRI_BASE_GAS_COST && out@ == verifier_output(
                    proofs@[id],
                ))
            } else {
                r == Err::<(u64, Vec<u8>), PrecompileError>(PrecompileError::ProofNotFound)
            }
        },
{
    if !gateway_mode {
        return Err(PrecompileError::NotSupported);
    }
    if input.len() < 32 {
        return Err(PrecompileError::InvalidInput);
    }
    let mut id = [0u8; 32];
    let mut i: usize = 0;
    while i < 32
        invariant
            i <= 32,
            input@.len() >= 32,
            forall|j: int| 0 <= j < i ==> id@[j] == input@[j],
        decreases 32 - i,
    {
        id[i] = input[i];
        i = i + 1;
    }
    let proof_id = Bytes32 { bytes: id };
    assert(proof_id@ =~= input@.subrange(0, 32));
    let verified = match proofs.get(&proof_id) {
        Some(p) => p,
        None => {
            return Err(PrecompileError::ProofNotFound);
        },
    };
    let mut result: Vec<u8> = Vec::new();
    result.push(if verified.is_valid { 1u8 } else { 0u8 });
    let mut k: usize = 0;
    while k < 32
        invariant
            k <= 32,
            verified.public_inputs_hash@.len() == 32,
            result@ == seq![if verified.is_valid { 1u8 } else { 0u8 }]
                + verified.public_inputs_hash@.subrange(0, k as int),
        decreases 32 - k,
    {
        result.push(verified.public_inputs_hash.bytes[k]);
        k = k + 1;
        assert(result@ =~= seq![if verified.is_valid { 1u8 } else { 0u8 }]
            + verified.public_inputs_hash@.subrange(0, k as int));
    }
    assert(verified.public_inputs_hash@.subrange(0, 32) =~= verified.public_inputs_hash@);
    Ok((FRI_BASE_GAS_COST, result))
}

/// The precompiles reachable by address.
#[derive(Clone, Copy, Debug, PartialEq, Eq, Structural)]
pub enum PrecompileHandler {
    FriVerifier,
}

/// The handler of the precompile at `address`, if there is one.
pub fn get_precompile_handler(address: u64) -> (r: Option<PrecompileHandler>)
    ensures
        r == if address == FRI_VERIFIER_ADDRESS {
            Some(PrecompileHandler::FriVerifier)
        } else {
            None
        },
{
    if address == FRI_VERIFIER_ADDRESS {
        Some(PrecompileHandler::FriVerifier)
    } else {
        None
    }
}

/// Registers the precompiles every node has; their registrations live with their own
/// implementations, so this adds none here.
fn register_standard_precompiles(registry: &mut Vec<u32>)
    ensures
        final(registry)@ == old(registry)@,
{
}

/// Adds `address` to the precompile dispatch table.
fn register_precompile(registry: &mut Vec<u32>, address: u32)
    ensures
        final(registry)@ == old(registry)@.push(address),
{
    registry.push(address);
}

/// Registers the precompiles of gateway nodes: the FRI proof verifier.
fn register_gateway_precompiles(registry: &mut Vec<u32>)
    ensures
        final(registry)@ == old(registry)@.push(FRI_PROOF_VERIFIER_ADDRESS),
{
    register_precompile(registry, FRI_PROOF_VERIFIER_ADDRESS);
}

/// Registers all precompiles appropriate for the node's role; the FRI proof verifier
/// only on gateway nodes.
pub fn register_precompiles(is_gateway: bool, registry: &mut Vec<u32>)
    ensures
        final(registry)@ == if is_gateway {
            old(registry)@.push(FRI_PROOF_VERIFIER_ADDRESS)
        } else {
            old(registry)@
        },
{
    register_standard_precompiles(registry);
    if is_gateway {
        register_gateway_precompiles(registry);
    }
}

} // verus!
