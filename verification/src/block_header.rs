//! Ethereum (Pectra) block headers: blob parameters per fork, the cross-block pricing
//! rules of EIP-1559 and EIP-4844/7918 that a header must satisfy against its parent,
//! and the typed header built from its parsed fields.
use vstd::prelude::*;

use crate::hashing::{keccak256, keccak256_of};
use crate::primitives::{be_nat, Bytes32, B160};
use crate::rlp::{
    headers_view, item_header, lemma_item_header_bounds, lemma_list_items_bounds, list_items,
    read_item_header, read_list_items, take20, take256, take32, take8, take_bytes, take_u64,
    u64_field_ok,
};
use crate::u256::{checked_mul, U256};

verus! {

pub const GAS_PER_BLOB: u64 = 131072;

pub const MIN_BASE_FEE_PER_BLOB_GAS: u64 = 1;

pub const BLOB_BASE_COST: u64 = 8192;

pub const EIP_1559_BASE_FEE_MAX_CHANGE_DENOMINATOR: u64 = 8;

pub const EIP_1559_ELASTICITY_MULTIPLIER: u64 = 2;

pub const EIP_1559_MIN_GAS_LIMIT: u64 = 5000;

/// EIP-7825: the gas limit of a single transaction.
pub const EIP_7825_SINGLE_TX_GAS_LIMIT: u64 = 16777216;

/// EIP-7934: the largest RLP-encoded block.
pub const EIP_7934_MAX_RLP_BLOCK_SIZE: usize = 8 * 1024 * 1024;

/// Blob targets and pricing of a fork.
#[derive(Clone, Copy, Debug, PartialEq, Eq, Structural)]
pub struct BlobParameters {
    pub target: u64,
    pub max: u64,
    pub base_fee_update_fraction: u64,
}

pub const OSAKA_TIME: u64 = 1747387400;

pub const BPO1_TIME: u64 = 1757387400;

pub const BPO2_TIME: u64 = 1767747671;

impl BlobParameters {
    /// The blob parameters in force at `block_timestamp`: Prague, Osaka, then the two
    /// blob-parameter-only forks.
    pub fn for_block_timestamp(block_timestamp: u64) -> (r: BlobParameters)
        ensures
            r == if block_timestamp >= BPO2_TIME {
                BlobParameters { target: 14, max: 21, base_fee_update_fraction: 11684671 }
            } else if block_timestamp >= BPO1_TIME {
                BlobParameters { target: 10, max: 15, base_fee_update_fraction: 8346193 }
            } else if block_timestamp >= OSAKA_TIME {
                BlobParameters { target: 6, max: 9, base_fee_update_fraction: 5007716 }
            } else {
                BlobParameters { target: 6, max: 9, base_fee_update_fraction: 5007716 }
            },
    {
        if block_timestamp >= BPO2_TIME {
            BlobParameters { target: 14, max: 21, base_fee_update_fraction: 11684671 }
        } else if block_timestamp >= BPO1_TIME {
            BlobParameters { target: 10, max: 15, base_fee_update_fraction: 8346193 }
        } else if block_timestamp >= OSAKA_TIME {
            BlobParameters { target: 6, max: 9, base_fee_update_fraction: 5007716 }
        } else {
            BlobParameters { target: 6, max: 9, base_fee_update_fraction: 5007716 }
        }
    }
}

/// EIP-1559: the base fee of a block, from its parent's gas limit, gas used and base
/// fee. The fee moves towards the parent's gas target by at most an eighth, and goes
/// up by at least one when the parent was above target.
pub open spec fn expected_base_fee(parent_gas_limit: nat, parent_gas_used: nat, parent_base_fee: nat) -> int {
    let target = parent_gas_limit / 2;
    if parent_gas_used == target {
        parent_base_fee as int
    } else if parent_gas_used > target {
        let delta = parent_base_fee * (parent_gas_used - target) / (target as int) / 8;
        parent_base_fee + if delta >= 1 {
            delta
        } else {
            1
        }
    } else {
        parent_base_fee - parent_base_fee * (target - parent_gas_used) / (target as int) / 8
    }
}

/// The expected base fee of a block (EIP-1559).
pub fn eip1559_expected_base_fee(parent_gas_limit: u64, parent_gas_used: u64, parent_base_fee: u64) -> (r: u64)
    requires
        parent_gas_used != parent_gas_limit / 2 ==> parent_gas_limit / 2 > 0,
        parent_gas_used > parent_gas_limit / 2 ==> parent_base_fee * (parent_gas_used - parent_gas_limit
            / 2) <= u64::MAX && parent_base_fee + parent_base_fee * (parent_gas_used
            - parent_gas_limit / 2) / ((parent_gas_limit / 2) as int) / 8 + 1 <= u64::MAX,
        parent_gas_used < parent_gas_limit / 2 ==> parent_base_fee * (parent_gas_limit / 2
            - parent_gas_used) <= u64::MAX,
    ensures
        r == expected_base_fee(parent_gas_limit as nat, parent_gas_used as nat, parent_base_fee as nat),
{
    let target = parent_gas_limit >> 1;
    assert(target == parent_gas_limit / 2) by (bit_vector)
        requires
            target == parent_gas_limit >> 1,
    ;
    if parent_gas_used == target {
        parent_base_fee
    } else if parent_gas_used > target {
        let gas_used_delta = parent_gas_used - target;
        let d = parent_base_fee * gas_used_delta / target / EIP_1559_BASE_FEE_MAX_CHANGE_DENOMINATOR;
        let delta = if d >= 1 {
            d
        } else {
            1
        };
        parent_base_fee + delta
    } else {
        let gas_used_delta = target - parent_gas_used;
        let d = parent_base_fee * gas_used_delta / target / EIP_1559_BASE_FEE_MAX_CHANGE_DENOMINATOR;
        assert(d <= parent_base_fee) by (nonlinear_arith)
            requires
                d == parent_base_fee * gas_used_delta / (target as int) / 8,
                gas_used_delta <= target,
                target > 0,
        ;
        parent_base_fee - d
    }
}

/// EIP-1559: when the parent used at most twice its gas target, the base fee moves by
/// at most an eighth of the parent's (or by one, upwards, for small fees).
pub proof fn lemma_base_fee_change_bounded(parent_gas_limit: nat, parent_gas_used: nat, parent_base_fee: nat)
    requires
        parent_gas_limit / 2 > 0,
        parent_gas_used <= 2 * (parent_gas_limit / 2),
    ensures
        parent_base_fee - parent_base_fee / 8 <= expected_base_fee(
            parent_gas_limit,
            parent_gas_used,
            parent_base_fee,
        ),
        expected_base_fee(parent_gas_limit, parent_gas_used, parent_base_fee) <= parent_base_fee
            + if parent_base_fee / 8 >= 1 {
            parent_base_fee / 8
        } else {
            1
        },
{
    let t = (parent_gas_limit / 2) as int;
    let p = parent_base_fee as int;
    if parent_gas_used > t {
        let d = parent_gas_used - t;
        lemma_scaled_share_le(p, d, t);
    } else if parent_gas_used < t {
        let d = t - parent_gas_used;
        lemma_scaled_share_le(p, d, t);
    }
}

/// `p * d / t / 8 <= p / 8` for `0 <= d <= t`.
proof fn lemma_scaled_share_le(p: int, d: int, t: int)
    requires
        p >= 0,
        0 <= d <= t,
        t > 0,
    ensures
        p * d / t / 8 <= p / 8,
{
    assert(p * d <= p * t) by (nonlinear_arith)
        requires
            0 <= d <= t,
            p >= 0,
    ;
    assert(p * d / t <= p * t / t) by (nonlinear_arith)
        requires
            p * d <= p * t,
            t > 0,
    ;
    assert(p * t / t == p) by (nonlinear_arith)
        requires
            t > 0,
    ;
    assert(p * d / t / 8 <= p / 8) by (nonlinear_arith)
        requires
            p * d / t <= p,
    ;
}

/// Whether a gas limit is within 1/1024 of its parent's (exclusive) and at least the
/// EIP-1559 minimum.
pub open spec fn gas_limit_acceptable(gas_limit: nat, parent_gas_limit: nat) -> bool {
    let slack = parent_gas_limit / 1024;
    &&& gas_limit < parent_gas_limit + slack
    &&& gas_limit > parent_gas_limit - slack
    &&& gas_limit >= EIP_1559_MIN_GAS_LIMIT
}

/// Checks the gas limit of a block against its parent's.
pub fn check_gas_limit(gas_limit: u64, parent_gas_limit: u64) -> (r: bool)
    ensures
        r == gas_limit_acceptable(gas_limit as nat, parent_gas_limit as nat),
{
    let slack = parent_gas_limit >> 10;
    assert(slack == parent_gas_limit / 1024) by (bit_vector)
        requires
            slack == parent_gas_limit >> 10,
    ;
    (gas_limit as u128) < (parent_gas_limit as u128) + (slack as u128) && gas_limit
        > parent_gas_limit - slack && gas_limit >= EIP_1559_MIN_GAS_LIMIT
}

/// EIP-4844 with EIP-7918: the excess blob gas of a block, from its parent's excess
/// blob gas, blob gas used and base fee, the blob base fee at the parent's excess and
/// the block's blob parameters. Below target the excess resets; while blobs are cheaper
/// than their execution reserve price only the share above target accumulates.
pub open spec fn expected_excess_blob_gas(
    parent_excess: nat,
    parent_used: nat,
    parent_base_fee: nat,
    parent_blob_base_fee: nat,
    params: BlobParameters,
) -> nat {
    let target_blob_gas = params.target * GAS_PER_BLOB;
    if parent_excess + parent_used < target_blob_gas {
        0
    } else if BLOB_BASE_COST * parent_base_fee > GAS_PER_BLOB * parent_blob_base_fee {
        (parent_excess + parent_used * (params.max - params.target) / (params.max as int)) as nat
    } else {
        (parent_excess + parent_used - target_blob_gas) as nat
    }
}

/// EIP-4844's excess blob gas (with EIP-7918's reserve price), stated on its inputs: it
/// resets to zero only while the parent's excess plus its blob gas used stays under the
/// target blob gas; from the target on, it is that sum minus the target, unless blobs
/// were cheaper than their execution reserve price, in which case it keeps at least the
/// parent's excess and grows by no more than the parent's blob gas used.
pub proof fn lemma_excess_blob_gas_rule(
    parent_excess: nat,
    parent_used: nat,
    parent_base_fee: nat,
    parent_blob_base_fee: nat,
    params: BlobParameters,
)
    requires
        params.max > 0,
        params.target <= params.max,
    ensures
        parent_excess + parent_used < params.target * GAS_PER_BLOB ==> expected_excess_blob_gas(
            parent_excess,
            parent_used,
            parent_base_fee,
            parent_blob_base_fee,
            params,
        ) == 0,
        parent_excess + parent_used >= params.target * GAS_PER_BLOB && BLOB_BASE_COST
            * parent_base_fee <= GAS_PER_BLOB * parent_blob_base_fee ==> expected_excess_blob_gas(
            parent_excess,
            parent_used,
            parent_base_fee,
            parent_blob_base_fee,
            params,
        ) + params.target * GAS_PER_BLOB == parent_excess + parent_used,
        parent_excess + parent_used >= params.target * GAS_PER_BLOB && BLOB_BASE_COST
            * parent_base_fee > GAS_PER_BLOB * parent_blob_base_fee ==> parent_excess
            <= expected_excess_blob_gas(
            parent_excess,
            parent_used,
            parent_base_fee,
            parent_blob_base_fee,
            params,
        ),
        parent_excess + parent_used >= params.target * GAS_PER_BLOB ==> expected_excess_blob_gas(
            parent_excess,
            parent_used,
            parent_base_fee,
            parent_blob_base_fee,
            params,
        ) <= parent_excess + parent_used,
{
    let t = params.target * GAS_PER_BLOB;
    if parent_excess + parent_used >= t && BLOB_BASE_COST * parent_base_fee > GAS_PER_BLOB
        * parent_blob_base_fee {
        let share = parent_used * (params.max - params.target) / (params.max as int);
        assert(0 <= share <= parent_used) by (nonlinear_arith)
            requires
                share == parent_used * (params.max - params.target) / (params.max as int),
                params.max > 0,
                params.target <= params.max,
        ;
    }
}

/// The expected excess blob gas of a block.
pub fn eip4844_expected_excess_blob_gas(
    parent_excess: u64,
    parent_used: u64,
    parent_base_fee: u64,
    parent_blob_base_fee: &U256,
    params: BlobParameters,
) -> (r: u64)
    requires
        params.max > 0,
        params.target <= params.max,
        params.target * GAS_PER_BLOB <= u64::MAX,
        parent_excess + parent_used <= u64::MAX,
        parent_used * (params.max - params.target) <= u64::MAX,
        GAS_PER_BLOB * parent_blob_base_fee.value() < crate::u256::modulus256(),
    ensures
        r == expected_excess_blob_gas(
            parent_excess as nat,
            parent_used as nat,
            parent_base_fee as nat,
            parent_blob_base_fee.value(),
            params,
        ),
{
    let target_blob_gas = params.target * GAS_PER_BLOB;
    if parent_excess + parent_used < target_blob_gas {
        0
    } else {
        let reserve = (BLOB_BASE_COST as u128) * (parent_base_fee as u128);
        let blob_cost = match checked_mul(&U256::from_u64(GAS_PER_BLOB), parent_blob_base_fee) {
            Some(c) => c,
            None => U256::zero(),
        };
        if U256::from_limbs([reserve as u64, (reserve >> 64) as u64, 0, 0]).gt(&blob_cost) {
            proof {
                lemma_u128_limbs(reserve);
            }
            let share = parent_used * (params.max - params.target) / params.max;
            assert(share <= parent_used) by (nonlinear_arith)
                requires
                    share == parent_used * (params.max - params.target) / (params.max as int),
                    params.max > 0,
                    params.target <= params.max,
            ;
            parent_excess + share
        } else {
            proof {
                lemma_u128_limbs(reserve);
            }
            parent_excess + parent_used - target_blob_gas
        }
    }
}

/// A `u128` splits into two limbs.
proof fn lemma_u128_limbs(x: u128)
    ensures
        crate::u256::limbs_value([x as u64, (x >> 64) as u64, 0, 0]) == x,
{
    let lo = x as u64;
    let hi = (x >> 64) as u64;
    assert(x == lo as u128 + (hi as u128) * 0x1_0000_0000_0000_0000) by (bit_vector)
        requires
            lo == x as u64,
            hi == (x >> 64) as u64,
    ;
}

/// An EIP-2718 receipt/transaction trie key: the RLP encoding of the index, and the
/// position by which the keys are ordered.
pub fn rlp_ordering_and_key_for_index(index: u32) -> (r: (u32, ([u8; 4], usize)))
    requires
        index < 0x10000,
    ensures
        r == if index == 0 {
            (0x80u32, ([0x80u8, 0, 0, 0], 1usize))
        } else if index < 0x80 {
            (index, ([index as u8, 0, 0, 0], 1usize))
        } else if index < 0x100 {
            ((0x80 + index) as u32, ([0x81u8, index as u8, 0, 0], 2usize))
        } else {
            ((0x80 + index) as u32, ([0x82u8, (index / 256) as u8, (index % 256) as u8, 0], 3usize))
        },
{
    if index == 0 {
        (0x80, ([0x80, 0x00, 0x00, 0x00], 1usize))
    } else if index < 0x80 {
        (index, ([index as u8, 0x00, 0x00, 0x00], 1))
    } else {
        let ordering_key = 0x80 + index;
        if index < 0x100 {
            (ordering_key, ([0x80 + 1, index as u8, 0x00, 0x00], 2))
        } else {
            (ordering_key, ([0x80 + 2, (index / 256) as u8, (index % 256) as u8, 0x00], 3))
        }
    }
}

/// The fields of a header as parsed from its RLP encoding.
#[derive(Clone, Debug)]
pub struct PectraForkHeaderReflection {
    pub parent_hash: [u8; 32],
    pub ommers_hash: [u8; 32],
    pub beneficiary: [u8; 20],
    pub state_root: [u8; 32],
    pub transactions_root: [u8; 32],
    pub receipts_root: [u8; 32],
    pub logs_bloom: [u8; 256],
    /// Big-endian, without leading zeros.
    pub difficulty: Vec<u8>,
    pub number: u64,
    pub gas_limit: u64,
    pub gas_used: u64,
    pub timestamp: u64,
    /// At most 32 bytes.
    pub extra_data: Vec<u8>,
    pub mix_hash: [u8; 32],
    pub nonce: [u8; 8],
    pub base_fee_per_gas: u64,
    pub withdrawals_root: [u8; 32],
    pub blob_gas_used: u64,
    pub excess_blob_gas: u64,
    pub parent_beacon_block_root: [u8; 32],
    pub requests_hash: [u8; 32],
}

/// The payloads of the fields of the RLP header item at `pos`, and where the item
/// ends: a list of exactly 21 strings.
pub open spec fn header_fields_at(s: Seq<u8>, pos: int) -> Option<(Seq<Seq<u8>>, int)> {
    match item_header(s, pos) {
        Some(h) => if h.0 {
            match list_items(s, h.1, h.2) {
                Some(items) => if items.len() == 21 && forall|i: int| 0 <= i < 21 ==> !(#[trigger] items[i]).0 {
                    Some((Seq::new(21, |i: int| s.subrange(items[i].1, items[i].2)), h.2))
                } else {
                    None
                },
                None => None,
            }
        } else {
            None
        },
        None => None,
    }
}

/// The fields have the shapes of a Pectra header: hashes of 32 bytes, a 20-byte
/// beneficiary, a 256-byte bloom, an 8-byte nonce, canonical 64-bit scalars and at
/// most 32 bytes of extra data; the difficulty may be any string.
pub open spec fn header_fields_typed(f: Seq<Seq<u8>>) -> bool {
    &&& f[0].len() == 32
    &&& f[1].len() == 32
    &&& f[2].len() == 20
    &&& f[3].len() == 32
    &&& f[4].len() == 32
    &&& f[5].len() == 32
    &&& f[6].len() == 256
    &&& u64_field_ok(f[8])
    &&& u64_field_ok(f[9])
    &&& u64_field_ok(f[10])
    &&& u64_field_ok(f[11])
    &&& f[12].len() <= 32
    &&& f[13].len() == 32
    &&& f[14].len() == 8
    &&& u64_field_ok(f[15])
    &&& f[16].len() == 32
    &&& u64_field_ok(f[17])
    &&& u64_field_ok(f[18])
    &&& f[19].len() == 32
    &&& f[20].len() == 32
}

/// The header that an encoding which is exactly one RLP header item decodes to.
pub open spec fn parsed_header(s: Seq<u8>) -> Option<Seq<Seq<u8>>> {
    match header_fields_at(s, 0) {
        Some(p) => if p.1 == s.len() && header_fields_typed(p.0) {
            Some(p.0)
        } else {
            None
        },
        None => None,
    }
}

/// `h` holds the decoded fields `f`.
pub open spec fn reflects(h: PectraForkHeaderReflection, f: Seq<Seq<u8>>) -> bool {
    &&& h.parent_hash@ == f[0]
    &&& h.ommers_hash@ == f[1]
    &&& h.beneficiary@ == f[2]
    &&& h.state_root@ == f[3]
    &&& h.transactions_root@ == f[4]
    &&& h.receipts_root@ == f[5]
    &&& h.logs_bloom@ == f[6]
    &&& h.difficulty@ == f[7]
    &&& h.number == be_nat(f[8])
    &&& h.gas_limit == be_nat(f[9])
    &&& h.gas_used == be_nat(f[10])
    &&& h.timestamp == be_nat(f[11])
    &&& h.extra_data@ == f[12]
    &&& h.mix_hash@ == f[13]
    &&& h.nonce@ == f[14]
    &&& h.base_fee_per_gas == be_nat(f[15])
    &&& h.withdrawals_root@ == f[16]
    &&& h.blob_gas_used == be_nat(f[17])
    &&& h.excess_blob_gas == be_nat(f[18])
    &&& h.parent_beacon_block_root@ == f[19]
    &&& h.requests_hash@ == f[20]
}

impl PectraForkHeaderReflection {
    /// Parses the RLP header item at `pos` of `s`; returns the header and where the
    /// item ends.
    #[verifier::rlimit(40)]
    pub fn try_parse(s: &[u8], pos: usize) -> (r: Result<(PectraForkHeaderReflection, usize), ()>)
        ensures
            r is Ok <==> (header_fields_at(s@, pos as int) matches Some(p) && header_fields_typed(
                p.0,
            )),
            r matches Ok((h, end)) ==> header_fields_at(s@, pos as int) matches Some(p) && end
                == p.1 && reflects(h, p.0),
    {
        let h = match read_item_header(s, pos) {
            Some(h) => h,
            None => return Err(()),
        };
        if !h.0 {
            return Err(());
        }
        proof {
            lemma_item_header_bounds(s@, pos as int);
        }
        let items = match read_list_items(s, h.1, h.2) {
            Some(items) => items,
            None => return Err(()),
        };
        let ghost iv = headers_view(items@);
        proof {
            lemma_list_items_bounds(s@, h.1 as int, h.2 as int);
        }
        assert(iv.len() == items@.len());
        if items.len() != 21 {
            return Err(());
        }
        let mut i: usize = 0;
        while i < 21
            invariant
                i <= 21,
                items@.len() == 21,
                iv == headers_view(items@),
                item_header(s@, pos as int) == Some((true, h.1 as int, h.2 as int)),
                list_items(s@, h.1 as int, h.2 as int) == Some(iv),
                forall|j: int| 0 <= j < i ==> !(#[trigger] iv[j]).0,
            decreases 21 - i,
        {
            if items[i].0 {
                assert(iv[i as int].0);
                return Err(());
            }
            i = i + 1;
        }
        let ghost f = Seq::new(21, |k: int| s@.subrange(iv[k].1, iv[k].2));
        assert(header_fields_at(s@, pos as int) == Some((f, h.2 as int)));
        assert forall|k: int| #![trigger items@[k]] 0 <= k < 21 implies items@[k].1 <= items@[k].2
            <= s@.len() && f[k] == s@.subrange(items@[k].1 as int, items@[k].2 as int) by {
            assert(iv[k] == (items@[k].0, items@[k].1 as int, items@[k].2 as int));
        }
        let parent_hash = match take32(s, items[0].1, items[0].2) {
            Some(x) => x,
            None => return Err(()),
        };
        let ommers_hash = match take32(s, items[1].1, items[1].2) {
            Some(x) => x,
            None => return Err(()),
        };
        let beneficiary = match take20(s, items[2].1, items[2].2) {
            Some(x) => x,
            None => return Err(()),
        };
        let state_root = match take32(s, items[3].1, items[3].2) {
            Some(x) => x,
            None => return Err(()),
        };
        let transactions_root = match take32(s, items[4].1, items[4].2) {
            Some(x) => x,
            None => return Err(()),
        };
        let receipts_root = match take32(s, items[5].1, items[5].2) {
            Some(x) => x,
            None => return Err(()),
        };
        let logs_bloom = match take256(s, items[6].1, items[6].2) {
            Some(x) => x,
            None => return Err(()),
        };
        let difficulty = take_bytes(s, items[7].1, items[7].2);
        let number = match take_u64(s, items[8].1, items[8].2) {
            Some(x) => x,
            None => return Err(()),
        };
        let gas_limit = match take_u64(s, items[9].1, items[9].2) {
            Some(x) => x,
            None => return Err(()),
        };
        let gas_used = match take_u64(s, items[10].1, items[10].2) {
            Some(x) => x,
            None => return Err(()),
        };
        let timestamp = match take_u64(s, items[11].1, items[11].2) {
            Some(x) => x,
            None => return Err(()),
        };
        if items[12].2 - items[12].1 > 32 {
            return Err(());
        }
        let extra_data = take_bytes(s, items[12].1, items[12].2);
        let mix_hash = match take32(s, items[13].1, items[13].2) {
            Some(x) => x,
            None => return Err(()),
        };
        let nonce = match take8(s, items[14].1, items[14].2) {
            Some(x) => x,
            None => return Err(()),
        };
        let base_fee_per_gas = match take_u64(s, items[15].1, items[15].2) {
            Some(x) => x,
            None => return Err(()),
        };
        let withdrawals_root = match take32(s, items[16].1, items[16].2) {
            Some(x) => x,
            None => return Err(()),
        };
        let blob_gas_used = match take_u64(s, items[17].1, items[17].2) {
            Some(x) => x,
            None => return Err(()),
        };
        let excess_blob_gas = match take_u64(s, items[18].1, items[18].2) {
            Some(x) => x,
            None => return Err(()),
        };
        let parent_beacon_block_root = match take32(s, items[19].1, items[19].2) {
            Some(x) => x,
            None => return Err(()),
        };
        let requests_hash = match take32(s, items[20].1, items[20].2) {
            Some(x) => x,
            None => return Err(()),
        };
        let header = PectraForkHeaderReflection {
            parent_hash,
            ommers_hash,
            beneficiary,
            state_root,
            transactions_root,
            receipts_root,
            logs_bloom,
            difficulty,
            number,
            gas_limit,
            gas_used,
            timestamp,
            extra_data,
            mix_hash,
            nonce,
            base_fee_per_gas,
            withdrawals_root,
            blob_gas_used,
            excess_blob_gas,
            parent_beacon_block_root,
            requests_hash,
        };
        Ok((header, h.2))
    }

    /// Parses `s` as exactly one RLP header item.
    pub fn try_parse_slice_in_full(s: &[u8]) -> (r: Result<PectraForkHeaderReflection, ()>)
        ensures
            r is Ok <==> parsed_header(s@) is Some,
            r matches Ok(h) ==> parsed_header(s@) matches Some(f) && reflects(h, f),
    {
        match PectraForkHeaderReflection::try_parse(s, 0) {
            Ok((h, end)) => {
                if end == s.len() {
                    Ok(h)
                } else {
                    Err(())
                }
            },
            Err(()) => Err(()),
        }
    }
}

/// A Pectra block header.
#[derive(Clone, Copy, Debug)]
pub struct PectraForkHeader {
    pub parent_hash: Bytes32,
    pub ommers_hash: Bytes32,
    pub beneficiary: B160,
    pub state_root: Bytes32,
    pub transactions_root: Bytes32,
    pub receipts_root: Bytes32,
    pub logs_bloom: [u8; 256],
    pub difficulty: U256,
    pub number: u64,
    pub gas_limit: u64,
    pub gas_used: u64,
    pub timestamp: u64,
    /// Up to 32 bytes, zero-padded on the right, with their length.
    pub extra_data: (Bytes32, usize),
    pub mix_hash: Bytes32,
    pub nonce: [u8; 8],
    pub base_fee_per_gas: u64,
    pub withdrawals_root: Bytes32,
    pub blob_gas_used: u64,
    pub excess_blob_gas: u64,
    pub parent_beacon_block_root: Bytes32,
    pub requests_hash: Bytes32,
}

/// `ruint::Uint::from_be_slice`: the number that at most 32 big-endian bytes encode.
#[verifier::external_body]
fn u256_from_be_slice(bytes: &[u8]) -> (r: U256)
    requires
        bytes@.len() <= 32,
    ensures
        r.value() == be_nat(bytes@),
{
    U256 { limbs: ruint::aliases::U256::from_be_slice(bytes).into_limbs() }
}

impl PectraForkHeader {
    /// The typed header of parsed fields: hashes and addresses as words, the
    /// difficulty as a number, and the extra data zero-padded to a word.
    pub fn from_relection(header: &PectraForkHeaderReflection) -> (r: Self)
        requires
            header.extra_data@.len() <= 32,
            header.difficulty@.len() <= 32,
        ensures
            r.parent_hash@ == header.parent_hash@,
            r.ommers_hash@ == header.ommers_hash@,
            r.beneficiary@ == header.beneficiary@,
            r.state_root@ == header.state_root@,
            r.transactions_root@ == header.transactions_root@,
            r.receipts_root@ == header.receipts_root@,
            r.logs_bloom == header.logs_bloom,
            r.difficulty.value() == be_nat(header.difficulty@),
            r.number == header.number,
            r.gas_limit == header.gas_limit,
            r.gas_used == header.gas_used,
            r.timestamp == header.timestamp,
            r.extra_data.1 == header.extra_data@.len(),
            r.extra_data.0@ == header.extra_data@ + Seq::new(
                (32 - header.extra_data@.len()) as nat,
                |i: int| 0u8,
            ),
            r.mix_hash@ == header.mix_hash@,
            r.nonce == header.nonce,
            r.base_fee_per_gas == header.base_fee_per_gas,
            r.withdrawals_root@ == header.withdrawals_root@,
            r.blob_gas_used == header.blob_gas_used,
            r.excess_blob_gas == header.excess_blob_gas,
            r.parent_beacon_block_root@ == header.parent_beacon_block_root@,
            r.requests_hash@ == header.requests_hash@,
    {
        let extra_data_len = header.extra_data.len();
        let mut buffer = [0u8; 32];
        let mut i: usize = 0;
        while i < extra_data_len
            invariant
                i <= extra_data_len,
                extra_data_len == header.extra_data@.len(),
                extra_data_len <= 32,
                buffer@.len() == 32,
                forall|j: int| 0 <= j < i ==> buffer@[j] == header.extra_data@[j],
                forall|j: int| i <= j < 32 ==> buffer@[j] == 0u8,
            decreases extra_data_len - i,
        {
            buffer[i] = header.extra_data[i];
            i = i + 1;
        }
        let extra = Bytes32 { bytes: buffer };
        assert(extra@ =~= header.extra_data@ + Seq::new(
            (32 - header.extra_data@.len()) as nat,
            |i: int| 0u8,
        ));
        PectraForkHeader {
            parent_hash: Bytes32::from_array(header.parent_hash),
            ommers_hash: Bytes32::from_array(header.ommers_hash),
            beneficiary: B160::from_array(header.beneficiary),
            state_root: Bytes32::from_array(header.state_root),
            transactions_root: Bytes32::from_array(header.transactions_root),
            receipts_root: Bytes32::from_array(header.receipts_root),
            logs_bloom: header.logs_bloom,
            difficulty: u256_from_be_slice(header.difficulty.as_slice()),
            number: header.number,
            gas_limit: header.gas_limit,
            gas_used: header.gas_used,
            timestamp: header.timestamp,
            extra_data: (extra, extra_data_len),
            mix_hash: Bytes32::from_array(header.mix_hash),
            nonce: header.nonce,
            base_fee_per_gas: header.base_fee_per_gas,
            withdrawals_root: Bytes32::from_array(header.withdrawals_root),
            blob_gas_used: header.blob_gas_used,
            excess_blob_gas: header.excess_blob_gas,
            parent_beacon_block_root: Bytes32::from_array(header.parent_beacon_block_root),
            requests_hash: Bytes32::from_array(header.requests_hash),
        }
    }
}


/// The first block of the Pectra header format.
pub const PECTRA_EL_FORK_BLOCK_NUMBER: u64 = 22431084;

/// `header` is the typed form of the decoded fields `f`.
pub open spec fn header_of_fields(header: PectraForkHeader, f: Seq<Seq<u8>>) -> bool {
    &&& header.parent_hash@ == f[0]
    &&& header.ommers_hash@ == f[1]
    &&& header.beneficiary@ == f[2]
    &&& header.state_root@ == f[3]
    &&& header.transactions_root@ == f[4]
    &&& header.receipts_root@ == f[5]
    &&& header.logs_bloom@ == f[6]
    &&& header.difficulty.value() == be_nat(f[7])
    &&& header.number == be_nat(f[8])
    &&& header.gas_limit == be_nat(f[9])
    &&& header.gas_used == be_nat(f[10])
    &&& header.timestamp == be_nat(f[11])
    &&& header.extra_data.1 == f[12].len()
    &&& header.extra_data.0@ == f[12] + Seq::new((32 - f[12].len()) as nat, |i: int| 0u8)
    &&& header.mix_hash@ == f[13]
    &&& header.nonce@ == f[14]
    &&& header.base_fee_per_gas == be_nat(f[15])
    &&& header.withdrawals_root@ == f[16]
    &&& header.blob_gas_used == be_nat(f[17])
    &&& header.excess_blob_gas == be_nat(f[18])
    &&& header.parent_beacon_block_root@ == f[19]
    &&& header.requests_hash@ == f[20]
}

/// Why the target header of a block cannot be read.
#[derive(Clone, Copy, Debug, PartialEq, Eq, Structural)]
pub enum TargetHeaderError {
    /// The encoding exceeds the EIP-7934 limit.
    TooLarge,
    /// The encoding is not one canonical RLP header item, or its difficulty does not fit
    /// in 256 bits of at most 32 bytes.
    Malformed,
}

/// The number of ancestor hashes a block can read.
pub const BLOCK_HASHES_DEPTH: usize = 256;

/// The largest number of blobs in a block.
pub const MAX_BLOBS_PER_BLOCK: usize = 9;

/// The metadata of a block: its header, as fetched and hashed, the hashes of its
/// ancestors and the blob base fee.
pub struct HeaderAndHistory {
    pub chain_id: u64,
    pub header: PectraForkHeader,
    /// The hashes of the ancestors, parent first.
    pub history_cache: Vec<Bytes32>,
    pub computed_header_hash: Bytes32,
    pub computed_blob_base_fee_per_gas: U256,
}

impl HeaderAndHistory {
    /// Reads the metadata of a mainnet (chain id 1) block from its RLP-encoded header and
    /// the hashes of its ancestors. `computed_blob_base_fee_per_gas` is the blob base fee
    /// at the header's excess blob gas.
    pub fn new(
        target_header_buffer: &[u8],
        history_cache: Vec<Bytes32>,
        computed_blob_base_fee_per_gas: U256,
    ) -> (r: Result<Self, TargetHeaderError>)
        ensures
            target_header_buffer@.len() > EIP_7934_MAX_RLP_BLOCK_SIZE ==> r == Err::<
                Self,
                TargetHeaderError,
            >(TargetHeaderError::TooLarge),
            target_header_buffer@.len() <= EIP_7934_MAX_RLP_BLOCK_SIZE ==> (r is Ok <==> (
            parsed_header(target_header_buffer@) matches Some(f) && f[7].len() <= 32)),
            r is Err ==> r == Err::<Self, TargetHeaderError>(TargetHeaderError::TooLarge) || r
                == Err::<Self, TargetHeaderError>(TargetHeaderError::Malformed),
            r matches Ok(h) ==> {
                &&& parsed_header(target_header_buffer@) matches Some(f) && header_of_fields(
                    h.header,
                    f,
                )
                &&& h.chain_id == 1
                &&& h.computed_header_hash@ == keccak256_of(target_header_buffer@)
                &&& h.history_cache@ == history_cache@
                &&& h.computed_blob_base_fee_per_gas == computed_blob_base_fee_per_gas
            },
    {
        if target_header_buffer.len() > EIP_7934_MAX_RLP_BLOCK_SIZE {
            return Err(TargetHeaderError::TooLarge);
        }
        let target_header = match PectraForkHeaderReflection::try_parse_slice_in_full(
            target_header_buffer,
        ) {
            Ok(h) => h,
            Err(()) => return Err(TargetHeaderError::Malformed),
        };
        if target_header.difficulty.len() > 32 {
            return Err(TargetHeaderError::Malformed);
        }
        let computed_header_hash = keccak256(target_header_buffer);
        let header = PectraForkHeader::from_relection(&target_header);
        Ok(HeaderAndHistory {
            chain_id: 1,
            header,
            history_cache,
            computed_header_hash,
            computed_blob_base_fee_per_gas,
        })
    }

    pub fn chain_id(&self) -> (r: u64)
        ensures
            r == self.chain_id,
    {
        self.chain_id
    }

    pub fn block_number(&self) -> (r: u64)
        ensures
            r == self.header.number,
    {
        self.header.number
    }

    /// The hash of the ancestor at `depth` (0 for the parent), for the 256 most recent.
    pub fn block_historical_hash(&self, depth: u64) -> (r: Option<Bytes32>)
        ensures
            depth < BLOCK_HASHES_DEPTH && depth < self.history_cache@.len() ==> r == Some(
                self.history_cache@[depth as int],
            ),
            !(depth < BLOCK_HASHES_DEPTH && depth < self.history_cache@.len()) ==> r is None,
    {
        if depth < BLOCK_HASHES_DEPTH as u64 && (depth as usize) < self.history_cache.len() {
            Some(self.history_cache[depth as usize])
        } else {
            None
        }
    }

    pub fn block_timestamp(&self) -> (r: u64)
        ensures
            r == self.header.timestamp,
    {
        self.header.timestamp
    }

    /// The randomness of the block: its mix hash.
    pub fn block_randomness(&self) -> (r: Option<Bytes32>)
        ensures
            r == Some(self.header.mix_hash),
    {
        Some(self.header.mix_hash)
    }

    pub fn coinbase(&self) -> (r: B160)
        ensures
            r == self.header.beneficiary,
    {
        self.header.beneficiary
    }

    pub fn block_gas_limit(&self) -> (r: u64)
        ensures
            r == self.header.gas_limit,
    {
        self.header.gas_limit
    }

    /// The gas limit of a single transaction (EIP-7825).
    pub fn individual_tx_gas_limit(&self) -> (r: u64)
        ensures
            r == EIP_7825_SINGLE_TX_GAS_LIMIT,
    {
        EIP_7825_SINGLE_TX_GAS_LIMIT
    }

    pub fn eip1559_basefee(&self) -> (r: U256)
        ensures
            r.value() == self.header.base_fee_per_gas,
    {
        U256::from_u64(self.header.base_fee_per_gas)
    }

    pub fn max_blobs(&self) -> (r: usize)
        ensures
            r == MAX_BLOBS_PER_BLOCK,
    {
        MAX_BLOBS_PER_BLOCK
    }

    pub fn blobs_gas_limit(&self) -> (r: u64)
        ensures
            r == MAX_BLOBS_PER_BLOCK * GAS_PER_BLOB,
    {
        MAX_BLOBS_PER_BLOCK as u64 * GAS_PER_BLOB
    }

    pub fn blob_base_fee_per_gas(&self) -> (r: U256)
        ensures
            r == self.computed_blob_base_fee_per_gas,
    {
        self.computed_blob_base_fee_per_gas
    }
}

/// Why a chain of historical headers is not the history of a header.
#[derive(Clone, Copy, Debug, PartialEq, Eq, Structural)]
pub enum ChainError {
    /// A fetched header is not one canonical RLP header item.
    MalformedHeader,
    /// The hash of a fetched header differs from the block hash cache entry.
    CachedHashMismatch,
    /// A fetched header has another number than its depth implies.
    NumberMismatch,
    /// A fetched header is not the parent of the header above it.
    ParentHashMismatch,
    /// The gas limit moved too far from the parent's.
    GasLimitOutOfBounds,
    /// The base fee is not the one EIP-1559 gives.
    BaseFeeMismatch,
    /// The excess blob gas is not the one EIP-4844/7918 gives.
    ExcessBlobGasMismatch,
    /// The parent's pricing fields are too large for the 64-bit arithmetic of the rules.
    PricingOverflow,
}

/// The fields of a parent header that the pricing rules read.
#[derive(Clone, Copy, Debug, PartialEq, Eq, Structural)]
pub struct ParentPricing {
    pub gas_limit: u64,
    pub gas_used: u64,
    pub base_fee_per_gas: u64,
    pub blob_gas_used: u64,
    pub excess_blob_gas: u64,
}

/// The pricing fields among decoded header fields.
pub open spec fn pricing_of(f: Seq<Seq<u8>>) -> ParentPricing {
    ParentPricing {
        gas_limit: be_nat(f[9]) as u64,
        gas_used: be_nat(f[10]) as u64,
        base_fee_per_gas: be_nat(f[15]) as u64,
        blob_gas_used: be_nat(f[17]) as u64,
        excess_blob_gas: be_nat(f[18]) as u64,
    }
}

/// The decoded fields of an encoding, or none.
pub open spec fn fields_or_empty(s: Seq<u8>) -> Seq<Seq<u8>> {
    match parsed_header(s) {
        Some(f) => f,
        None => Seq::empty(),
    }
}

/// The hash a header at `depth` must have: the parent hash of the header above it.
pub open spec fn expected_hash_at(header: PectraForkHeader, history: Seq<Vec<u8>>, depth: int) -> Seq<u8> {
    if depth == 0 {
        header.parent_hash@
    } else {
        fields_or_empty(history[depth - 1]@)[0]
    }
}

/// The encoding at `depth` is a header, the one the chain and the block hash cache name.
pub open spec fn link_ok(
    header: PectraForkHeader,
    current_block_number: u64,
    history: Seq<Vec<u8>>,
    cache: Seq<Bytes32>,
    depth: int,
) -> bool {
    let hash = keccak256_of(history[depth]@);
    &&& parsed_header(history[depth]@) is Some
    &&& cache[depth]@ == hash
    &&& be_nat(fields_or_empty(history[depth]@)[8]) == current_block_number - 1 - depth
    &&& expected_hash_at(header, history, depth) == hash
}

/// The parent's pricing fields fit the 64-bit arithmetic of the pricing rules.
pub open spec fn parent_pricing_in_range(parent: ParentPricing, params: BlobParameters) -> bool {
    let target = parent.gas_limit / 2;
    &&& parent.gas_used != target ==> target > 0
    &&& parent.gas_used > target ==> parent.base_fee_per_gas * (parent.gas_used - target) <= u64::MAX
        && parent.base_fee_per_gas + parent.base_fee_per_gas * (parent.gas_used - target) / (
    target as int) / 8 + 1 <= u64::MAX
    &&& parent.gas_used < target ==> parent.base_fee_per_gas * (target - parent.gas_used) <= u64::MAX
    &&& parent.excess_blob_gas + parent.blob_gas_used <= u64::MAX
    &&& parent.blob_gas_used * (params.max - params.target) <= u64::MAX
}

/// The header's gas limit, base fee and excess blob gas follow from its parent's.
pub open spec fn pricing_ok(header: PectraForkHeader, parent: ParentPricing, parent_blob_base_fee: nat) -> bool {
    let params = BlobParameters::spec_for_block_timestamp(header.timestamp);
    &&& gas_limit_acceptable(header.gas_limit as nat, parent.gas_limit as nat)
    &&& header.base_fee_per_gas == expected_base_fee(
        parent.gas_limit as nat,
        parent.gas_used as nat,
        parent.base_fee_per_gas as nat,
    )
    &&& header.excess_blob_gas == expected_excess_blob_gas(
        parent.excess_blob_gas as nat,
        parent.blob_gas_used as nat,
        parent.base_fee_per_gas as nat,
        parent_blob_base_fee,
        params,
    )
}

impl BlobParameters {
    pub open spec fn spec_for_block_timestamp(block_timestamp: u64) -> BlobParameters {
        if block_timestamp >= BPO2_TIME {
            BlobParameters { target: 14, max: 21, base_fee_update_fraction: 11684671 }
        } else if block_timestamp >= BPO1_TIME {
            BlobParameters { target: 10, max: 15, base_fee_update_fraction: 8346193 }
        } else {
            BlobParameters { target: 6, max: 9, base_fee_update_fraction: 5007716 }
        }
    }
}

/// Checks the pricing of `header` against its parent (EIP-1559 and EIP-4844/7918).
fn check_parent_pricing(
    header: &PectraForkHeader,
    parent: &ParentPricing,
    parent_blob_base_fee: &U256,
) -> (r: Result<(), ChainError>)
    requires
        GAS_PER_BLOB * parent_blob_base_fee.value() < crate::u256::modulus256(),
    ensures
        r is Ok <==> parent_pricing_in_range(
            *parent,
            BlobParameters::spec_for_block_timestamp(header.timestamp),
        ) && pricing_ok(*header, *parent, parent_blob_base_fee.value()),
{
    let params = BlobParameters::for_block_timestamp(header.timestamp);
    let target = parent.gas_limit / 2;
    let used = parent.gas_used;
    let fee = parent.base_fee_per_gas;
    if used != target && target == 0 {
        return Err(ChainError::PricingOverflow);
    }
    if used > target {
        let d = used - target;
        if fee.checked_mul(d).is_none() {
            return Err(ChainError::PricingOverflow);
        }
        let delta = fee * d / target / 8;
        if (fee as u128) + (delta as u128) + 1 > u64::MAX as u128 {
            return Err(ChainError::PricingOverflow);
        }
    }
    if used < target && fee.checked_mul(target - used).is_none() {
        return Err(ChainError::PricingOverflow);
    }
    if (parent.excess_blob_gas as u128) + (parent.blob_gas_used as u128) > u64::MAX as u128 {
        return Err(ChainError::PricingOverflow);
    }
    if parent.blob_gas_used.checked_mul(params.max - params.target).is_none() {
        return Err(ChainError::PricingOverflow);
    }
    if !check_gas_limit(header.gas_limit, parent.gas_limit) {
        return Err(ChainError::GasLimitOutOfBounds);
    }
    let expected_fee = eip1559_expected_base_fee(parent.gas_limit, used, fee);
    if expected_fee != header.base_fee_per_gas {
        return Err(ChainError::BaseFeeMismatch);
    }
    let excess = eip4844_expected_excess_blob_gas(
        parent.excess_blob_gas,
        parent.blob_gas_used,
        fee,
        parent_blob_base_fee,
        params,
    );
    if excess != header.excess_blob_gas {
        return Err(ChainError::ExcessBlobGasMismatch);
    }
    Ok(())
}

/// The history is the chain of `header`'s ancestors down to `depth`, and `header` prices
/// its gas and blobs as its parent requires.
pub open spec fn chain_ok(
    header: PectraForkHeader,
    current_block_number: u64,
    depth: int,
    history: Seq<Vec<u8>>,
    cache: Seq<Bytes32>,
    parent_blob_base_fee: nat,
) -> bool {
    &&& forall|d: int| 0 <= d < depth ==> link_ok(header, current_block_number, history, cache, d)
    &&& parent_pricing_in_range(
        pricing_of(fields_or_empty(history[0]@)),
        BlobParameters::spec_for_block_timestamp(header.timestamp),
    )
    &&& pricing_ok(header, pricing_of(fields_or_empty(history[0]@)), parent_blob_base_fee)
}

/// Verifies that `history` holds the RLP encodings of the `verification_depth`
/// ancestors of `header`, nearest first: each is one canonical header item, hashes
/// (Keccak-256) to its block hash cache entry, has the number its depth implies, and is
/// the parent of the header above it; and `header` prices its gas and blobs as its
/// parent requires. Returns the parent's state root, or the first check that fails.
/// `parent_blob_base_fee` is the blob base fee at the parent's excess blob gas.
pub fn verify_chain(
    header: &PectraForkHeader,
    current_block_number: u64,
    verification_depth: usize,
    history: &[Vec<u8>],
    cache: &[Bytes32],
    parent_blob_base_fee: &U256,
) -> (r: Result<Bytes32, ChainError>)
    requires
        verification_depth > 0,
        header.number == current_block_number,
        current_block_number >= verification_depth,
        current_block_number - verification_depth >= PECTRA_EL_FORK_BLOCK_NUMBER,
        history@.len() >= verification_depth,
        cache@.len() >= verification_depth,
        GAS_PER_BLOB * parent_blob_base_fee.value() < crate::u256::modulus256(),
    ensures
        r is Ok <==> chain_ok(*header, current_block_number, verification_depth as int, history@, cache@,
            parent_blob_base_fee.value()),
        r matches Ok(root) ==> root@ == fields_or_empty(history@[0]@)[3],
{
    let mut initial_state_commitment = Bytes32::zero();
    let mut parent_to_expect = header.parent_hash;
    let mut depth: usize = 0;
    while depth < verification_depth
        invariant
            depth <= verification_depth,
            verification_depth <= history@.len(),
            verification_depth <= cache@.len(),
            current_block_number >= verification_depth,
            parent_to_expect@ == expected_hash_at(*header, history@, depth as int),
            forall|d: int|
                0 <= d < depth ==> link_ok(
                    *header,
                    current_block_number,
                    history@,
                    cache@,
                    d,
                ),
            depth > 0 ==> parent_pricing_in_range(
                pricing_of(fields_or_empty(history@[0]@)),
                BlobParameters::spec_for_block_timestamp(header.timestamp),
            ) && pricing_ok(
                *header,
                pricing_of(fields_or_empty(history@[0]@)),
                parent_blob_base_fee.value(),
            ),
            depth > 0 ==> initial_state_commitment@ == fields_or_empty(history@[0]@)[3],
            GAS_PER_BLOB * parent_blob_base_fee.value() < crate::u256::modulus256(),
        decreases verification_depth - depth,
    {
        let block_number = current_block_number - 1 - depth as u64;
        let encoding = history[depth].as_slice();
        let h = match PectraForkHeaderReflection::try_parse_slice_in_full(encoding) {
            Ok(h) => h,
            Err(()) => {
                assert(!link_ok(*header, current_block_number, history@, cache@, depth as int));
                return Err(ChainError::MalformedHeader);
            },
        };
        let ghost f = fields_or_empty(history@[depth as int]@);
        assert(reflects(h, f));
        let computed_header_hash = keccak256(encoding);
        if !cache[depth].equals(&computed_header_hash) {
            assert(!link_ok(*header, current_block_number, history@, cache@, depth as int));
            return Err(ChainError::CachedHashMismatch);
        }
        if h.number != block_number {
            assert(!link_ok(*header, current_block_number, history@, cache@, depth as int));
            return Err(ChainError::NumberMismatch);
        }
        if !parent_to_expect.equals(&computed_header_hash) {
            assert(!link_ok(*header, current_block_number, history@, cache@, depth as int));
            return Err(ChainError::ParentHashMismatch);
        }
        if depth == 0 {
            initial_state_commitment = Bytes32::from_array(h.state_root);
            let parent = ParentPricing {
                gas_limit: h.gas_limit,
                gas_used: h.gas_used,
                base_fee_per_gas: h.base_fee_per_gas,
                blob_gas_used: h.blob_gas_used,
                excess_blob_gas: h.excess_blob_gas,
            };
            assert(parent == pricing_of(f));
            if let Err(e) = check_parent_pricing(header, &parent, parent_blob_base_fee) {
                return Err(e);
            }
        }
        proof {
            assert(link_ok(*header, current_block_number, history@, cache@, depth as int));
        }
        parent_to_expect = Bytes32::from_array(h.parent_hash);
        depth = depth + 1;
    }
    Ok(initial_state_commitment)
}

} // verus!
