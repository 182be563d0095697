//! Block driver: verifies every FRI proof transaction of a block up front, records the
//! results in the transaction context, and then executes the other transactions.
use vstd::prelude::*;

use crate::errors::BootloaderError;
use crate::fri::{verify_fri_proof, FriProofPayload, VerifiedFriProof, VerifiedFriProofs};
use crate::hashing::keccak256_of;

verus! {

/// A FRI proof transaction: its payload and the payload's canonical encoding.
#[derive(Clone, Debug)]
pub struct FriProofTx {
    pub payload: FriProofPayload,
    pub encoded_payload: Vec<u8>,
}

/// Any other transaction, as far as the block driver reads it.
#[derive(Clone, Copy, Debug, PartialEq, Eq, Structural)]
pub struct RegularTx {
    pub gas_limit: u64,
}

#[derive(Clone, Debug)]
pub enum Transaction {
    FriProof(FriProofTx),
    Regular(RegularTx),
}

impl Transaction {
    pub open spec fn spec_gas_limit(&self) -> u64 {
        match self {
            Transaction::FriProof(_) => 0,
            Transaction::Regular(t) => t.gas_limit,
        }
    }

    /// The gas limit; FRI proof transactions carry none.
    #[verifier::when_used_as_spec(spec_gas_limit)]
    pub fn gas_limit(&self) -> (r: u64)
        ensures
            r == self.spec_gas_limit(),
    {
        match self {
            Transaction::FriProof(_) => 0,
            Transaction::Regular(t) => t.gas_limit,
        }
    }
}

#[derive(Clone, Debug)]
pub struct Block {
    pub transactions: Vec<Transaction>,
}

#[derive(Clone, Copy, Debug, PartialEq, Eq, Structural)]
pub struct TransactionOutput {
    pub success: bool,
    pub gas_used: u64,
}

#[derive(Clone, Debug)]
pub struct BlockOutput {
    pub transaction_outputs: Vec<TransactionOutput>,
}

/// Per-block context handed to the system: the verified FRI proofs.
#[derive(Clone, Debug)]
pub struct TxContext {
    pub verified_fri_proofs: VerifiedFriProofs,
}

/// The system the bootloader drives.
pub trait SystemInterface {
    /// Whether this node is a gateway (settlement layer) node.
    fn is_gateway_mode(&self) -> bool;

    fn set_tx_context(&mut self, tx_context: TxContext);
}

/// What is recorded about a verified proof: validity and the hash of its public inputs.
pub open spec fn proof_summary(m: Map<Seq<u8>, VerifiedFriProof>) -> Map<Seq<u8>, (bool, Seq<u8>)> {
    m.map_values(|p: VerifiedFriProof| (p.is_valid, p.public_inputs_hash@))
}

/// The proofs recorded after the first `k` transactions: each FRI proof transaction
/// records a valid proof under the Keccak-256 of its encoding, replacing an earlier
/// one with the same id.
pub open spec fn expected_proofs(txs: Seq<Transaction>, k: nat) -> Map<Seq<u8>, (bool, Seq<u8>)>
    decreases k,
{
    if k == 0 {
        Map::empty()
    } else {
        let prev = expected_proofs(txs, (k - 1) as nat);
        match txs[k - 1] {
            Transaction::FriProof(t) => prev.insert(
                keccak256_of(t.encoded_payload@),
                (true, keccak256_of(t.payload.public_inputs@)),
            ),
            Transaction::Regular(_) => prev,
        }
    }
}

/// Whether one of the first `k` transactions is a FRI proof transaction.
pub open spec fn has_fri_proof_tx(txs: Seq<Transaction>, k: nat) -> bool {
    exists|i: int| 0 <= i < k && txs[i] is FriProof
}

/// The outputs of the regular transactions among the first `k`, in order: each
/// succeeds and uses its whole gas limit.
pub open spec fn expected_outputs(txs: Seq<Transaction>, k: nat) -> Seq<TransactionOutput>
    decreases k,
{
    if k == 0 {
        Seq::empty()
    } else {
        let prev = expected_outputs(txs, (k - 1) as nat);
        match txs[k - 1] {
            Transaction::FriProof(_) => prev,
            Transaction::Regular(t) => prev.push(
                TransactionOutput { success: true, gas_used: t.gas_limit },
            ),
        }
    }
}

/// Inserting into a proof map inserts the summary.
proof fn lemma_summary_insert(m: Map<Seq<u8>, VerifiedFriProof>, id: Seq<u8>, p: VerifiedFriProof)
    ensures
        proof_summary(m.insert(id, p)) == proof_summary(m).insert(
            id,
            (p.is_valid, p.public_inputs_hash@),
        ),
{
    assert(proof_summary(m.insert(id, p)) =~= proof_summary(m).insert(
        id,
        (p.is_valid, p.public_inputs_hash@),
    ));
}

/// Verifies the FRI proof transactions of a block and records them in `proofs`. On a
/// non-gateway node the first FRI proof transaction is refused.
pub fn verify_fri_proofs(gateway_mode: bool, transactions: &[Transaction], proofs: &mut VerifiedFriProofs) -> (r:
    Result<(), BootloaderError>)
    requires
        old(proofs).wf(),
        proof_summary(old(proofs)@) == Map::<Seq<u8>, (bool, Seq<u8>)>::empty(),
    ensures
        final(proofs).wf(),
        !gateway_mode && has_fri_proof_tx(transactions@, transactions@.len()) ==> r
            == Err::<(), BootloaderError>(BootloaderError::UnsupportedTransactionType),
        gateway_mode || !has_fri_proof_tx(transactions@, transactions@.len()) ==> {
            &&& r is Ok
            &&& proof_summary(final(proofs)@) == expected_proofs(transactions@, transactions@.len())
        },
{
    let mut i: usize = 0;
    while i < transactions.len()
        invariant
            i <= transactions@.len(),
            proofs.wf(),
            proof_summary(proofs@) == expected_proofs(transactions@, i as nat),
            !gateway_mode ==> !has_fri_proof_tx(transactions@, i as nat),
        decreases transactions@.len() - i,
    {
        match &transactions[i] {
            Transaction::FriProof(fri_tx) => {
                if !gateway_mode {
                    assert(transactions@[i as int] is FriProof);
                    return Err(BootloaderError::UnsupportedTransactionType);
                }
                let verified = verify_fri_proof(&fri_tx.payload, fri_tx.encoded_payload.as_slice());
                let ghost before = proofs@;
                proofs.insert(verified.proof_id, verified);
                proof {
                    lemma_summary_insert(before, verified.proof_id@, verified);
                }
            },
            Transaction::Regular(_) => {},
        }
        i = i + 1;
        proof {
            if !gateway_mode {
                assert forall|j: int| 0 <= j < i implies !(transactions@[j] is FriProof) by {
                    if j < i - 1 {
                        assert(!has_fri_proof_tx(transactions@, (i - 1) as nat));
                    }
                }
            }
        }
    }
    proof {
        if !gateway_mode {
            assert(!has_fri_proof_tx(transactions@, transactions@.len()));
        }
    }
    Ok(())
}

/// Executes one regular transaction: it succeeds and uses its gas limit.
fn execute_transaction(tx: &Transaction) -> (r: TransactionOutput)
    ensures
        r == (TransactionOutput { success: true, gas_used: tx.spec_gas_limit() }),
{
    TransactionOutput { success: true, gas_used: tx.gas_limit() }
}

/// Runs a block on a node whose gateway mode is `gateway_mode`: verifies all FRI
/// proofs first, then executes every other transaction in order.
pub fn run_block(gateway_mode: bool, block: &Block) -> (r: Result<(BlockOutput, TxContext), BootloaderError>)
    ensures
        !gateway_mode && has_fri_proof_tx(block.transactions@, block.transactions@.len()) ==> (r
            matches Err(e) && e == BootloaderError::UnsupportedTransactionType),
        gateway_mode || !has_fri_proof_tx(block.transactions@, block.transactions@.len()) ==> {
            &&& r matches Ok((out, ctx))
            &&& out.transaction_outputs@ == expected_outputs(
                block.transactions@,
                block.transactions@.len(),
            )
            &&& ctx.verified_fri_proofs.wf()
            &&& proof_summary(ctx.verified_fri_proofs@) == expected_proofs(
                block.transactions@,
                block.transactions@.len(),
            )
        },
{
    let mut proofs = VerifiedFriProofs::new();
    proof {
        assert(proof_summary(proofs@) =~= Map::<Seq<u8>, (bool, Seq<u8>)>::empty());
    }
    if let Err(e) = verify_fri_proofs(gateway_mode, block.transactions.as_slice(), &mut proofs) {
        return Err(e);
    }
    let mut outputs: Vec<TransactionOutput> = Vec::new();
    let mut i: usize = 0;
    while i < block.transactions.len()
        invariant
            i <= block.transactions@.len(),
            outputs@ == expected_outputs(block.transactions@, i as nat),
        decreases block.transactions@.len() - i,
    {
        let tx = &block.transactions[i];
        match tx {
            Transaction::FriProof(_) => {},
            Transaction::Regular(_) => {
                let output = execute_transaction(tx);
                outputs.push(output);
            },
        }
        i = i + 1;
    }
    Ok((BlockOutput { transaction_outputs: outputs }, TxContext { verified_fri_proofs: proofs }))
}

/// Drives the blocks of a system.
pub struct Bootloader<S> {
    system: S,
}

impl<S: SystemInterface> Bootloader<S> {
    /// The system this bootloader drives.
    pub closed spec fn spec_system(&self) -> S {
        self.system
    }

    pub fn new(system: S) -> (r: Self)
        ensures
            r.spec_system() == system,
    {
        Self { system }
    }

    /// Executes a block: verifies all of its FRI proofs, stores them in the system's
    /// transaction context, then executes the other transactions. The only error is
    /// `UnsupportedTransactionType`, for FRI proofs on a non-gateway node.
    pub fn execute_block(&mut self, block: Block) -> (r: Result<BlockOutput, BootloaderError>)
        ensures
            r matches Ok(out) ==> out.transaction_outputs@ == expected_outputs(
                block.transactions@,
                block.transactions@.len(),
            ),
            r matches Err(e) ==> e == BootloaderError::UnsupportedTransactionType && has_fri_proof_tx(
                block.transactions@,
                block.transactions@.len(),
            ),
            !has_fri_proof_tx(block.transactions@, block.transactions@.len()) ==> r is Ok,
    {
        let gateway_mode = self.system.is_gateway_mode();
        match run_block(gateway_mode, &block) {
            Ok((output, tx_context)) => {
                self.system.set_tx_context(tx_context);
                Ok(output)
            },
            Err(e) => Err(e),
        }
    }
}

} // verus!
