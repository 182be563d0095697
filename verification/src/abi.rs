//! The ABI encoding of transactions in the bootloader's internal format.
use vstd::prelude::*;

use crate::hashing::{keccak256, keccak256_of};
use crate::interop::{push_u64_be, push_word, u64_be, word};
use crate::primitives::be_nat;
use crate::u256::{to_be_bytes, U256};
use vstd::string::StringSliceAdditionalSpecFns;

verus! {

/// An encoded transaction, as handed to the sequencer.
#[derive(Clone, Debug, PartialEq, Eq)]
pub enum EncodedTx {
    /// ABI-encoded in the internal format.
    Abi(Vec<u8>),
    /// RLP-encoded, with its sender.
    Rlp(Vec<u8>, [u8; 20]),
}

/// A `u128` as an ABI word.
pub open spec fn word128(v: u128) -> Seq<u8> {
    Seq::new(16, |i: int| 0u8) + u64_be(v as nat / 0x1_0000_0000_0000_0000) + u64_be(
        v as nat % 0x1_0000_0000_0000_0000,
    )
}

/// An address as an ABI word: twelve zero bytes, then the address.
pub open spec fn address_word(a: Seq<u8>) -> Seq<u8> {
    Seq::new(12, |i: int| 0u8) + a
}

/// Zero bytes up to the next multiple of 32.
pub open spec fn padding(len: nat) -> Seq<u8> {
    Seq::new(((32 - len % 32) % 32) as nat, |i: int| 0u8)
}

/// The tail of a dynamic `bytes` value: its length, then the bytes padded to a word.
pub open spec fn bytes_tail(d: Seq<u8>) -> Seq<u8> {
    word(d.len()) + d + padding(d.len())
}

/// The first reserved word: the EIP-155 flag of legacy transactions, the deposited
/// amount (`gas_limit * max_fee_per_gas`) of upgrade transactions, else zero.
pub open spec fn reserved0(tx_type: u8, gas_limit: u128, max_fee_per_gas: u128, is_eip155: bool) -> u128 {
    if tx_type == 0 {
        if is_eip155 {
            1
        } else {
            0
        }
    } else if tx_type == 0x7f {
        (gas_limit * max_fee_per_gas) as u128
    } else {
        0
    }
}

/// The ABI encoding (as a parameter tuple) of a transaction in the internal format: the
/// static fields, four reserved words, then the offsets and tails of the calldata,
/// signature, (empty) factory dependencies, paymaster input and reserved bytes.
pub open spec fn internal_tx_encoding(
    tx_type: u8,
    from: Seq<u8>,
    to: Option<Seq<u8>>,
    gas_limit: u128,
    gas_per_pubdata_byte_limit: Option<u128>,
    max_fee_per_gas: u128,
    max_priority_fee_per_gas: Option<u128>,
    paymaster: Option<Seq<u8>>,
    nonce: u128,
    value: Seq<u8>,
    data: Seq<u8>,
    signature: Seq<u8>,
    paymaster_input: Seq<u8>,
    reserved_dynamic: Seq<u8>,
    is_eip155: bool,
) -> Seq<u8> {
    let zero20 = Seq::new(20, |i: int| 0u8);
    let o1: nat = 19 * 32;
    let o2: nat = o1 + bytes_tail(data).len();
    let o3: nat = o2 + bytes_tail(signature).len();
    let o4: nat = o3 + 32;
    let o5: nat = o4 + bytes_tail(paymaster_input).len();
    word(tx_type as nat) + address_word(from) + address_word(
        match to {
            Some(t) => t,
            None => zero20,
        },
    ) + word128(gas_limit) + word128(
        match gas_per_pubdata_byte_limit {
            Some(g) => g,
            None => 0,
        },
    ) + word128(max_fee_per_gas) + word128(
        match max_priority_fee_per_gas {
            Some(p) => p,
            None => max_fee_per_gas,
        },
    ) + address_word(
        match paymaster {
            Some(p) => p,
            None => zero20,
        },
    ) + word128(nonce) + value + word128(reserved0(tx_type, gas_limit, max_fee_per_gas, is_eip155))
        + word(
        if to is None {
            1
        } else {
            0
        },
    ) + word(0) + word(0) + word(o1) + word(o2) + word(o3) + word(o4) + word(o5) + bytes_tail(data)
        + bytes_tail(signature) + word(0) + bytes_tail(paymaster_input) + bytes_tail(
        reserved_dynamic,
    )
}

/// Appends a `u128` word.
fn push_word128(out: &mut Vec<u8>, v: u128)
    ensures
        final(out)@ == old(out)@ + word128(v),
{
    let hi = (v / 0x1_0000_0000_0000_0000) as u64;
    let lo = (v % 0x1_0000_0000_0000_0000) as u64;
    assert(hi as nat == v as nat / 0x1_0000_0000_0000_0000);
    assert(lo as nat == v as nat % 0x1_0000_0000_0000_0000);
    let ghost before = out@;
    let mut i: usize = 0;
    while i < 16
        invariant
            i <= 16,
            out@ == before + Seq::new(i as nat, |j: int| 0u8),
        decreases 16 - i,
    {
        out.push(0u8);
        i = i + 1;
        assert(out@ =~= before + Seq::new(i as nat, |j: int| 0u8));
    }
    push_u64_be(out, hi);
    push_u64_be(out, lo);
    assert(out@ =~= before + word128(v));
}

/// Appends `bytes`.
fn push_all(out: &mut Vec<u8>, bytes: &[u8])
    ensures
        final(out)@ == old(out)@ + bytes@,
{
    let mut i: usize = 0;
    while i < bytes.len()
        invariant
            i <= bytes@.len(),
            out@ == old(out)@ + bytes@.subrange(0, i as int),
        decreases bytes@.len() - i,
    {
        out.push(bytes[i]);
        i = i + 1;
        assert(out@ =~= old(out)@ + bytes@.subrange(0, i as int));
    }
    assert(bytes@.subrange(0, bytes@.len() as int) =~= bytes@);
}

/// Appends an address word.
fn push_address(out: &mut Vec<u8>, a: &[u8; 20])
    ensures
        final(out)@ == old(out)@ + address_word(a@),
{
    push_all(out, &[0u8; 12]);
    push_all(out, a);
    assert(out@ =~= old(out)@ + address_word(a@));
}

/// Appends the tail of a `bytes` value.
fn push_bytes_tail(out: &mut Vec<u8>, d: &[u8])
    requires
        d@.len() <= u64::MAX,
    ensures
        final(out)@ == old(out)@ + bytes_tail(d@),
{
    push_word(out, d.len() as u64);
    push_all(out, d);
    let pad = (32 - d.len() % 32) % 32;
    let ghost body = out@;
    let mut k: usize = 0;
    while k < pad
        invariant
            k <= pad,
            pad == (32 - d@.len() % 32) % 32,
            out@ == body + Seq::new(k as nat, |j: int| 0u8),
        decreases pad - k,
    {
        out.push(0u8);
        k = k + 1;
        assert(out@ =~= body + Seq::new(k as nat, |j: int| 0u8));
    }
    assert(out@ =~= old(out)@ + bytes_tail(d@));
}

/// The length of the tail of `len` bytes.
fn tail_len(len: usize) -> (r: u64)
    requires
        len < 0x1_0000_0000,
    ensures
        r == 32 + len + (32 - len % 32) % 32,
{
    let l = len as u64;
    32 + l + (32 - l % 32) % 32
}

/// Encodes a transaction in the bootloader's internal ABI format. Factory dependencies
/// are not supported and encoded as an empty array.
pub fn encode_tx(
    tx_type: u8,
    from: [u8; 20],
    to: Option<[u8; 20]>,
    gas_limit: u128,
    gas_per_pubdata_byte_limit: Option<u128>,
    max_fee_per_gas: u128,
    max_priority_fee_per_gas: Option<u128>,
    paymaster: Option<[u8; 20]>,
    nonce: u128,
    value: [u8; 32],
    data: Vec<u8>,
    signature: Vec<u8>,
    paymaster_input: Option<Vec<u8>>,
    reserved_dynamic: Option<Vec<u8>>,
    is_eip155: bool,
) -> (r: EncodedTx)
    requires
        tx_type == 0x7f ==> gas_limit * max_fee_per_gas <= u128::MAX,
        data@.len() < 0x1000_0000,
        signature@.len() < 0x1000_0000,
        paymaster_input matches Some(p) ==> p@.len() < 0x1000_0000,
        reserved_dynamic matches Some(p) ==> p@.len() < 0x1000_0000,
    ensures
        r matches EncodedTx::Abi(bytes) && bytes@ == internal_tx_encoding(
            tx_type,
            from@,
            match to {
                Some(t) => Some(t@),
                None => None,
            },
            gas_limit,
            gas_per_pubdata_byte_limit,
            max_fee_per_gas,
            max_priority_fee_per_gas,
            match paymaster {
                Some(p) => Some(p@),
                None => None,
            },
            nonce,
            value@,
            data@,
            signature@,
            match paymaster_input {
                Some(p) => p@,
                None => Seq::empty(),
            },
            match reserved_dynamic {
                Some(p) => p@,
                None => Seq::empty(),
            },
            is_eip155,
        ),
{
    let paymaster_input = match paymaster_input {
        Some(p) => p,
        None => Vec::new(),
    };
    let reserved_dynamic = match reserved_dynamic {
        Some(p) => p,
        None => Vec::new(),
    };
    let zero20 = [0u8; 20];
    let mut out: Vec<u8> = Vec::new();
    push_word(&mut out, tx_type as u64);
    push_address(&mut out, &from);
    match to {
        Some(t) => push_address(&mut out, &t),
        None => push_address(&mut out, &zero20),
    }
    push_word128(&mut out, gas_limit);
    push_word128(
        &mut out,
        match gas_per_pubdata_byte_limit {
            Some(g) => g,
            None => 0,
        },
    );
    push_word128(&mut out, max_fee_per_gas);
    push_word128(
        &mut out,
        match max_priority_fee_per_gas {
            Some(p) => p,
            None => max_fee_per_gas,
        },
    );
    match paymaster {
        Some(p) => push_address(&mut out, &p),
        None => push_address(&mut out, &zero20),
    }
    push_word128(&mut out, nonce);
    push_all(&mut out, &value);
    let r0: u128 = if tx_type == 0 {
        if is_eip155 {
            1
        } else {
            0
        }
    } else if tx_type == 0x7f {
        gas_limit * max_fee_per_gas
    } else {
        0
    };
    push_word128(&mut out, r0);
    push_word(&mut out, if to.is_none() { 1 } else { 0 });
    push_word(&mut out, 0);
    push_word(&mut out, 0);
    let o1: u64 = 19 * 32;
    let o2: u64 = o1 + tail_len(data.len());
    let o3: u64 = o2 + tail_len(signature.len());
    let o4: u64 = o3 + 32;
    let o5: u64 = o4 + tail_len(paymaster_input.len());
    push_word(&mut out, o1);
    push_word(&mut out, o2);
    push_word(&mut out, o3);
    push_word(&mut out, o4);
    push_word(&mut out, o5);
    push_bytes_tail(&mut out, data.as_slice());
    push_bytes_tail(&mut out, signature.as_slice());
    push_word(&mut out, 0);
    push_bytes_tail(&mut out, paymaster_input.as_slice());
    push_bytes_tail(&mut out, reserved_dynamic.as_slice());
    proof {
        let zero20s = Seq::new(20, |i: int| 0u8);
        assert(zero20@ =~= zero20s);
    }
    EncodedTx::Abi(out)
}

/// The Solidity signature of the settlement layer update, whose Keccak-256 digest
/// begins with the call's selector.
pub open spec fn set_settlement_layer_chain_id_signature() -> Seq<u8> {
    "setSettlementLayerChainId(uint256)".spec_bytes()
}

/// The calldata of `setSettlementLayerChainId(uint256)`, which service transactions
/// send to update the settlement layer chain id: the selector, then the id as one
/// big-endian word.
pub fn encode_set_settlement_layer_chain_id_calldata(new_sl_chain_id: U256) -> (r: Vec<u8>)
    ensures
        r@.len() == 36,
        r@.subrange(0, 4) == keccak256_of(set_settlement_layer_chain_id_signature()).subrange(0, 4),
        be_nat(r@.subrange(4, 36)) == new_sl_chain_id.value(),
{
    let signature = "setSettlementLayerChainId(uint256)".as_bytes();
    let digest = keccak256(signature);
    let word = to_be_bytes(&new_sl_chain_id);
    let mut out: Vec<u8> = Vec::new();
    let mut i: usize = 0;
    while i < 4
        invariant
            i <= 4,
            digest@.len() == 32,
            out@ == digest@.subrange(0, i as int),
        decreases 4 - i,
    {
        out.push(digest.bytes[i]);
        i = i + 1;
        assert(out@ =~= digest@.subrange(0, i as int));
    }
    let mut j: usize = 0;
    while j < 32
        invariant
            j <= 32,
            word@.len() == 32,
            out@ == digest@.subrange(0, 4) + word@.subrange(0, j as int),
        decreases 32 - j,
    {
        out.push(word.bytes[j]);
        j = j + 1;
        assert(out@ =~= digest@.subrange(0, 4) + word@.subrange(0, j as int));
    }
    assert(out@.subrange(0, 4) =~= digest@.subrange(0, 4));
    assert(out@.subrange(4, 36) =~= word@);
    out
}

} // verus!
