//! Fee and resource arithmetic of transactions: the effective gas price, the native
//! resources that pay for pubdata, the economics of L1 -> L2 transactions and the
//! estimate of what validating an L2 transaction costs.
use vstd::prelude::*;

use crate::errors::{InternalError, InvalidTransaction, TxError};
use crate::pubdata::{compression_len, optimal_compression_length_u256};
use crate::resources::BaseResources;
use crate::u256::{
    checked_add, checked_mul, checked_sub, div, div_ceil, saturating_sub, to_u64_saturated,
    try_to_u64, U256,
};

verus! {

/// Gas of the intrinsic work of an L1 -> L2 transaction (as for Ethereum transactions).
pub const L1_TX_INTRINSIC_L2_GAS: u64 = 21_000;

/// Native cost of the intrinsic work of an L1 -> L2 transaction: its log, hashing, and
/// the fee and refund transfers.
pub const L1_TX_INTRINSIC_NATIVE_COST: u64 = 300_000;

/// Pubdata of the coinbase balance change caused by the fee payment (32-byte key and
/// an uncompressed 34-byte update).
pub const COINBASE_BALANCE_INTRINSIC_PUBDATA: u64 = 32 + 34;

/// Pubdata of the asset tracker's deposit counter update made while minting the value
/// of an L1 transaction.
pub const ASSET_TRACKER_INTRINSIC_PUBDATA: u64 = 32 + 33;

/// Pubdata of the L1 transaction log, the coinbase balance and the asset tracker diff.
pub const L1_TX_INTRINSIC_PUBDATA: u64 = 88 + COINBASE_BALANCE_INTRINSIC_PUBDATA
    + ASSET_TRACKER_INTRINSIC_PUBDATA;

pub const L2_TX_INTRINSIC_GAS: u64 = 21_000;

pub const L2_TX_INTRINSIC_PUBDATA: u64 = COINBASE_BALANCE_INTRINSIC_PUBDATA;

/// Native cost of the fee transfer, the refund transfer and the rolling tx hash.
pub const L2_TX_INTRINSIC_NATIVE_COST: u64 = 30_000;

/// Native cost of one EIP-7702 authorization.
pub const PER_AUTH_NATIVE_COST: u64 = 2000;

/// Native cost of one EIP-2930 access list address.
pub const PER_ADDRESS_ACCESS_LIST_NATIVE_COST: u64 = 2000;

/// Native cost of one EIP-2930 access list slot.
pub const PER_SLOT_ACCESS_LIST_NATIVE_COST: u64 = 2000;

/// Native price of L1 -> L2 transactions.
pub const L1_TX_NATIVE_PRICE: u64 = 10;

/// Native per gas of upgrade, service and gateway mailbox transactions.
pub const FREE_L1_TX_NATIVE_PER_GAS: u64 = 10000;

/// `a - b`, or zero.
pub open spec fn sat_sub(a: nat, b: nat) -> nat {
    if a >= b {
        (a - b) as nat
    } else {
        0
    }
}

/// `x`, capped at `u64::MAX`.
pub open spec fn cap64(x: nat) -> nat {
    if x <= u64::MAX {
        x
    } else {
        u64::MAX as nat
    }
}

/// The pubdata spent beyond `base_pubdata`, and the native resources that pay for it.
pub fn get_resources_to_charge_for_pubdata(
    net_pubdata_used: u64,
    native_per_pubdata: &U256,
    base_pubdata: Option<u64>,
) -> (r: Result<(u64, BaseResources), InternalError>)
    ensures
        ({
            let spent = sat_sub(
                net_pubdata_used as nat,
                match base_pubdata {
                    Some(b) => b as nat,
                    None => 0,
                },
            );
            let native = spent * cap64(native_per_pubdata.value());
            if native <= u64::MAX {
                r == Ok::<(u64, BaseResources), InternalError>(
                    (spent as u64, BaseResources { ergs: 0, native: native as u64 }),
                )
            } else {
                r == Err::<(u64, BaseResources), InternalError>(InternalError::ArithmeticOverflow)
            }
        }),
{
    let base = match base_pubdata {
        Some(b) => b,
        None => 0,
    };
    let current_pubdata_spent = net_pubdata_used.saturating_sub(base);
    let npp = to_u64_saturated(native_per_pubdata);
    match current_pubdata_spent.checked_mul(npp) {
        Some(native) => Ok((current_pubdata_spent, BaseResources { ergs: 0, native })),
        None => Err(InternalError::ArithmeticOverflow),
    }
}

/// Whether `resources` cover the pubdata spent beyond `base_pubdata`; also returns
/// the resources to charge for it and the pubdata spent.
pub fn check_enough_resources_for_pubdata(
    net_pubdata_used: u64,
    native_per_pubdata: &U256,
    resources: &BaseResources,
    base_pubdata: Option<u64>,
) -> (r: Result<(bool, BaseResources, u64), InternalError>)
    ensures
        ({
            let spent = sat_sub(
                net_pubdata_used as nat,
                match base_pubdata {
                    Some(b) => b as nat,
                    None => 0,
                },
            );
            let native = spent * cap64(native_per_pubdata.value());
            if native <= u64::MAX {
                r == Ok::<(bool, BaseResources, u64), InternalError>(
                    (
                        resources.native >= native,
                        BaseResources { ergs: 0, native: native as u64 },
                        spent as u64,
                    ),
                )
            } else {
                r == Err::<(bool, BaseResources, u64), InternalError>(
                    InternalError::ArithmeticOverflow,
                )
            }
        }),
{
    match get_resources_to_charge_for_pubdata(net_pubdata_used, native_per_pubdata, base_pubdata) {
        Ok((pubdata_used, resources_for_pubdata)) => {
            let enough = resources.has_enough(&resources_for_pubdata);
            Ok((enough, resources_for_pubdata, pubdata_used))
        },
        Err(e) => Err(e),
    }
}

/// The EIP-1559 gas price: the base fee plus the priority fee, the sum capped by the
/// maximum fee.
pub open spec fn eip1559_gas_price(base_fee: nat, max_fee: nat, max_priority: nat) -> nat {
    base_fee + if max_priority <= sat_sub(max_fee, base_fee) {
        max_priority
    } else {
        sat_sub(max_fee, base_fee)
    }
}

/// The gas price of an EIP-1559 transaction: the base fee plus the priority fee, capped
/// by the maximum fee. A priority fee above the maximum fee, and a base fee above the
/// maximum fee, are refused.
pub fn get_gas_price(base_fee: &U256, max_fee_per_gas: &U256, max_priority_fee_per_gas: Option<
    &U256,
>) -> (r: Result<U256, TxError>)
    ensures
        ({
            let max_fee = max_fee_per_gas.value();
            let prio = match max_priority_fee_per_gas {
                Some(p) => p.value(),
                None => max_fee,
            };
            if prio > max_fee {
                r == Err::<U256, TxError>(
                    TxError::Validation(InvalidTransaction::PriorityFeeGreaterThanMaxFee),
                )
            } else if base_fee.value() > max_fee {
                r == Err::<U256, TxError>(
                    TxError::Validation(InvalidTransaction::BaseFeeGreaterThanMaxFee),
                )
            } else {
                r matches Ok(p) && p.value() == eip1559_gas_price(base_fee.value(), max_fee, prio)
            }
        }),
{
    let max_priority = match max_priority_fee_per_gas {
        Some(p) => *p,
        None => *max_fee_per_gas,
    };
    if max_priority.gt(max_fee_per_gas) {
        return Err(TxError::Validation(InvalidTransaction::PriorityFeeGreaterThanMaxFee));
    }
    if base_fee.gt(max_fee_per_gas) {
        return Err(TxError::Validation(InvalidTransaction::BaseFeeGreaterThanMaxFee));
    }
    let room = saturating_sub(max_fee_per_gas, base_fee);
    let priority_fee_per_gas = max_priority.min(room);
    proof {
        crate::u256::lemma_limbs_value_bound(max_fee_per_gas.limbs);
    }
    match checked_add(base_fee, &priority_fee_per_gas) {
        Some(p) => Ok(p),
        None => Ok(U256::zero()),
    }
}

/// The gas price of an L2 transaction as the bootloader computes it; zero when the base
/// fee is zero.
pub fn compute_l2_tx_gas_price(max_fee_per_gas: &U256, max_priority_fee_per_gas: &U256, base_fee: &U256) -> (r:
    U256)
    ensures
        r.value() == if base_fee.value() == 0 {
            0
        } else {
            let room = sat_sub(max_fee_per_gas.value(), base_fee.value());
            base_fee.value() + if max_priority_fee_per_gas.value() <= room {
                max_priority_fee_per_gas.value()
            } else {
                room
            }
        },
{
    if base_fee.is_zero() {
        U256::zero()
    } else {
        let room = saturating_sub(max_fee_per_gas, base_fee);
        let priority_fee = max_priority_fee_per_gas.min(room);
        proof {
            crate::u256::lemma_limbs_value_bound(max_fee_per_gas.limbs);
            crate::u256::lemma_limbs_value_bound(base_fee.limbs);
        }
        match checked_add(base_fee, &priority_fee) {
            Some(p) => p,
            None => U256::zero(),
        }
    }
}

/// Native per gas of an L1 -> L2 transaction: priority operations pay at the fixed L1
/// native price (rounded up), or the simulation rate when simulating; upgrade
/// transactions get the free rate.
pub fn l1_tx_native_per_gas(
    gas_price: &U256,
    is_priority_op: bool,
    simulation_native_per_gas: Option<u64>,
) -> (r: U256)
    ensures
        r.value() == if is_priority_op {
            match simulation_native_per_gas {
                Some(n) => n as nat,
                None => ((gas_price.value() + L1_TX_NATIVE_PRICE - 1) / (L1_TX_NATIVE_PRICE as int)) as nat,
            }
        } else {
            FREE_L1_TX_NATIVE_PER_GAS as nat
        },
{
    if is_priority_op {
        match simulation_native_per_gas {
            Some(n) => U256::from_u64(n),
            None => div_ceil(gas_price, &U256::from_u64(L1_TX_NATIVE_PRICE)),
        }
    } else {
        U256::from_u64(FREE_L1_TX_NATIVE_PER_GAS)
    }
}

/// Native per pubdata byte of an L1 -> L2 transaction: its gas per pubdata times its
/// native per gas.
pub fn l1_tx_native_per_pubdata(gas_per_pubdata: &U256, native_per_gas: &U256) -> (r: Result<
    U256,
    InternalError,
>)
    ensures
        gas_per_pubdata.value() * native_per_gas.value() < crate::u256::modulus256() ==> (r matches Ok(
            x,
        ) && x.value() == gas_per_pubdata.value() * native_per_gas.value()),
        gas_per_pubdata.value() * native_per_gas.value() >= crate::u256::modulus256() ==> r
            == Err::<U256, InternalError>(InternalError::ArithmeticOverflow),
{
    match checked_mul(gas_per_pubdata, native_per_gas) {
        Some(x) => Ok(x),
        None => Err(InternalError::ArithmeticOverflow),
    }
}

/// Checks that an L1 -> L2 transaction deposited at least its value plus its maximal
/// fee (`gas_price * gas_limit`).
pub fn check_l1_deposit(gas_limit: u64, gas_price: &U256, value: &U256, total_deposited: &U256) -> (r:
    Result<(), InternalError>)
    ensures
        ({
            let fee = gas_price.value() * gas_limit;
            let needed = value.value() + fee;
            if fee >= crate::u256::modulus256() || needed >= crate::u256::modulus256() {
                r == Err::<(), InternalError>(InternalError::ArithmeticOverflow)
            } else if total_deposited.value() < needed {
                r == Err::<(), InternalError>(InternalError::DepositTooLow)
            } else {
                r is Ok
            }
        }),
{
    let tx_internal_cost = match checked_mul(gas_price, &U256::from_u64(gas_limit)) {
        Some(c) => c,
        None => {
            return Err(InternalError::ArithmeticOverflow);
        },
    };
    let needed_amount = match checked_add(value, &tx_internal_cost) {
        Some(n) => n,
        None => {
            proof {
                assert(gas_price.value() * gas_limit < crate::u256::modulus256());
            }
            return Err(InternalError::ArithmeticOverflow);
        },
    };
    if total_deposited.lt(&needed_amount) {
        return Err(InternalError::DepositTooLow);
    }
    Ok(())
}

/// The fee an L1 -> L2 transaction pays to the operator.
pub open spec fn l1_operator_fee(gas_used: u64, gas_price: nat) -> nat {
    (gas_used * gas_price) as nat
}

/// What an L1 -> L2 transaction returns to its refund recipient: the deposit less the
/// fee, and less the value if the transaction succeeded (the value was then minted to
/// the sender).
pub open spec fn l1_refund(total_deposited: nat, value: nat, fee: nat, success: bool) -> int {
    if success {
        total_deposited - (value + fee)
    } else {
        total_deposited - fee
    }
}

/// Settles an L1 -> L2 transaction after execution: returns the fee paid to the
/// operator and the refund. An upgrade transaction must succeed.
pub fn l1_tx_settlement(
    gas_used: u64,
    gas_price: &U256,
    value: &U256,
    total_deposited: &U256,
    success: bool,
    is_priority_op: bool,
) -> (r: Result<(U256, U256), InternalError>)
    ensures
        ({
            let fee = l1_operator_fee(gas_used, gas_price.value());
            let refund = l1_refund(total_deposited.value(), value.value(), fee, success);
            if fee >= crate::u256::modulus256() {
                r == Err::<(U256, U256), InternalError>(InternalError::ArithmeticOverflow)
            } else if !success && !is_priority_op {
                r == Err::<(U256, U256), InternalError>(InternalError::UpgradeTransactionFailed)
            } else if refund < 0 || (success && value.value() + fee >= crate::u256::modulus256()) {
                r == Err::<(U256, U256), InternalError>(InternalError::ArithmeticOverflow)
            } else {
                r matches Ok((pay, back)) && pay.value() == fee && back.value() == refund
            }
        }),
{
    let pay_to_operator = match checked_mul(&U256::from_u64(gas_used), gas_price) {
        Some(p) => p,
        None => {
            return Err(InternalError::ArithmeticOverflow);
        },
    };
    if !success {
        if !is_priority_op {
            return Err(InternalError::UpgradeTransactionFailed);
        }
        match checked_sub(total_deposited, &pay_to_operator) {
            Some(back) => Ok((pay_to_operator, back)),
            None => Err(InternalError::ArithmeticOverflow),
        }
    } else {
        let value_plus_fee = match checked_add(value, &pay_to_operator) {
            Some(v) => v,
            None => {
                proof {
                    crate::u256::lemma_limbs_value_bound(total_deposited.limbs);
                }
                return Err(InternalError::ArithmeticOverflow);
            },
        };
        match checked_sub(total_deposited, &value_plus_fee) {
            Some(back) => Ok((pay_to_operator, back)),
            None => Err(InternalError::ArithmeticOverflow),
        }
    }
}

/// A priority L1 -> L2 transaction whose deposit was accepted and that used at most
/// its gas limit settles without error, and the deposit is split exactly: the operator
/// fee plus the refund, plus the value when the transaction succeeded, make up the
/// deposit.
pub proof fn lemma_l1_settlement_conserves_deposit(
    gas_limit: u64,
    gas_used: u64,
    gas_price: nat,
    value: nat,
    total_deposited: nat,
    success: bool,
)
    requires
        gas_used <= gas_limit,
        gas_price * gas_limit < crate::u256::modulus256(),
        value + gas_price * gas_limit < crate::u256::modulus256(),
        total_deposited >= value + gas_price * gas_limit,
    ensures
        l1_operator_fee(gas_used, gas_price) < crate::u256::modulus256(),
        value + l1_operator_fee(gas_used, gas_price) < crate::u256::modulus256(),
        l1_refund(total_deposited, value, l1_operator_fee(gas_used, gas_price), success) >= 0,
        l1_operator_fee(gas_used, gas_price) + l1_refund(
            total_deposited,
            value,
            l1_operator_fee(gas_used, gas_price),
            success,
        ) + (if success {
            value
        } else {
            0
        }) == total_deposited,
{
    assert(gas_used * gas_price <= gas_limit * gas_price) by (nonlinear_arith)
        requires
            gas_used <= gas_limit,
    ;
}

/// Native costs of the storage, cache and hashing work done while validating an L2
/// transaction, as configured for the node.
#[derive(Clone, Copy, Debug, PartialEq, Eq, Structural)]
pub struct ValidationCostParams {
    pub copy_byte_native_cost: u64,
    /// Keccak-256 of the whole transaction (signing hash and transaction hash).
    pub keccak_cost_of_tx: u64,
    /// Keccak-256 of an authorization message (at most 70 bytes).
    pub keccak_cost_of_auth_message: u64,
    /// Keccak-256 of a 23-byte delegation code.
    pub keccak_cost_of_delegation_code: u64,
    /// BLAKE2s of an encoded account.
    pub blake2s_cost_of_account: u64,
    /// BLAKE2s of a padded delegation code.
    pub blake2s_cost_of_delegation_code: u64,
    /// Length of a delegation code with its padding.
    pub delegation_padded_len: u64,
    pub ecrecover_native_cost: u64,
    pub preimage_cache_get_native_cost: u64,
    pub preimage_cache_set_native_cost: u64,
    pub warm_account_cache_access_native_cost: u64,
    pub warm_account_cache_write_extra_native_cost: u64,
    pub warm_storage_read_native_cost: u64,
    pub cold_existing_storage_read_native_cost: u64,
    pub cold_new_storage_read_native_cost: u64,
    /// Native resources a transaction may spend on computation; the rest only pays
    /// for pubdata.
    pub max_native_computational: u64,
}

/// Estimated native resource consumption during L2 transaction validation.
#[derive(Clone, Copy, Debug, PartialEq, Eq, Structural)]
pub struct ValidationNativeResourcesEstimate {
    /// Computational native resources consumed during validation.
    pub native_computational: u64,
    /// Pubdata bytes consumed during validation.
    pub pubdata: u64,
}

/// Reading an existing account cold, including decommitting its properties.
pub open spec fn cold_existing_account_read(c: ValidationCostParams) -> nat {
    (c.warm_account_cache_access_native_cost + c.warm_storage_read_native_cost
        + c.cold_existing_storage_read_native_cost + c.preimage_cache_get_native_cost
        + c.blake2s_cost_of_account) as nat
}

/// Reading an empty account cold.
pub open spec fn cold_new_account_read(c: ValidationCostParams) -> nat {
    (c.warm_account_cache_access_native_cost + c.warm_storage_read_native_cost
        + c.cold_new_storage_read_native_cost) as nat
}

/// Writing a warm account.
pub open spec fn warm_account_write(c: ValidationCostParams) -> nat {
    (c.warm_account_cache_access_native_cost + c.warm_account_cache_write_extra_native_cost) as nat
}

/// Writing a delegation code.
pub open spec fn delegation_write(c: ValidationCostParams) -> nat {
    (c.warm_account_cache_access_native_cost + c.keccak_cost_of_delegation_code
        + c.blake2s_cost_of_delegation_code + c.preimage_cache_set_native_cost
        + c.warm_account_cache_write_extra_native_cost) as nat
}

/// Cost of the first `k` access list addresses.
pub open spec fn addresses_cost(c: ValidationCostParams, exists: Seq<bool>, k: nat) -> nat
    decreases k,
{
    if k == 0 {
        0
    } else {
        (addresses_cost(c, exists, (k - 1) as nat) + PER_ADDRESS_ACCESS_LIST_NATIVE_COST + if exists[k
            - 1] {
            cold_existing_account_read(c)
        } else {
            cold_new_account_read(c)
        }) as nat
    }
}

/// Cost of the first `k` access list slots.
pub open spec fn slots_cost(c: ValidationCostParams, exists: Seq<bool>, k: nat) -> nat
    decreases k,
{
    if k == 0 {
        0
    } else {
        (slots_cost(c, exists, (k - 1) as nat) + PER_SLOT_ACCESS_LIST_NATIVE_COST
            + c.warm_storage_read_native_cost + if exists[k - 1] {
            c.cold_existing_storage_read_native_cost
        } else {
            c.cold_new_storage_read_native_cost
        }) as nat
    }
}

/// Cost of the first `k` authorizations.
pub open spec fn auths_cost(c: ValidationCostParams, exists: Seq<bool>, k: nat) -> nat
    decreases k,
{
    if k == 0 {
        0
    } else {
        (auths_cost(c, exists, (k - 1) as nat) + PER_AUTH_NATIVE_COST + c.keccak_cost_of_auth_message
            + c.ecrecover_native_cost + (if exists[k - 1] {
            cold_existing_account_read(c)
        } else {
            cold_new_account_read(c)
        }) + warm_account_write(c) + delegation_write(c)) as nat
    }
}

/// The exact native cost of validation: calldata copying, the intrinsic cost, hashing
/// the transaction twice, recovering the signer, reading the sender cold and bumping
/// its nonce, the access list, the authorizations, and charging the fee.
pub open spec fn validation_native_total(
    c: ValidationCostParams,
    calldata_len: nat,
    address_exists: Seq<bool>,
    slot_exists: Seq<bool>,
    auth_exists: Seq<bool>,
) -> nat {
    (calldata_len * c.copy_byte_native_cost + L2_TX_INTRINSIC_NATIVE_COST + 2 * c.keccak_cost_of_tx
        + c.ecrecover_native_cost + cold_existing_account_read(c) + warm_account_write(c)
        + addresses_cost(c, address_exists, address_exists.len()) + slots_cost(
        c,
        slot_exists,
        slot_exists.len(),
    ) + auths_cost(c, auth_exists, auth_exists.len()) + warm_account_write(c)) as nat
}

/// The costs of the first `k` entries depend on those entries only, and grow with `k`.
proof fn lemma_list_costs(c: ValidationCostParams, a: Seq<bool>, b: Seq<bool>, k: nat, k2: nat)
    requires
        k <= k2,
        k2 <= b.len(),
        k <= a.len(),
        forall|i: int| 0 <= i < k ==> a[i] == b[i],
    ensures
        addresses_cost(c, a, k) == addresses_cost(c, b, k) <= addresses_cost(c, b, k2),
        slots_cost(c, a, k) == slots_cost(c, b, k) <= slots_cost(c, b, k2),
        auths_cost(c, a, k) == auths_cost(c, b, k) <= auths_cost(c, b, k2),
        k < k2 ==> addresses_cost(c, b, k) < addresses_cost(c, b, k2),
        k < k2 ==> slots_cost(c, b, k) < slots_cost(c, b, k2),
        k < k2 ==> auths_cost(c, b, k) < auths_cost(c, b, k2),
    decreases k2,
{
    if k2 > k {
        lemma_list_costs(c, a, b, k, (k2 - 1) as nat);
    } else if k > 0 {
        lemma_list_costs(c, a, b, (k - 1) as nat, (k - 1) as nat);
    }
}

/// Validation never costs less when an access list or the authorization list grows by
/// entries at its end.
pub proof fn lemma_validation_cost_grows_with_lists(
    c: ValidationCostParams,
    calldata_len: nat,
    addresses: Seq<bool>,
    slots: Seq<bool>,
    auths: Seq<bool>,
    more_addresses: Seq<bool>,
    more_slots: Seq<bool>,
    more_auths: Seq<bool>,
)
    requires
        addresses.is_prefix_of(more_addresses),
        slots.is_prefix_of(more_slots),
        auths.is_prefix_of(more_auths),
    ensures
        validation_native_total(c, calldata_len, addresses, slots, auths) <= validation_native_total(
            c,
            calldata_len,
            more_addresses,
            more_slots,
            more_auths,
        ),
{
    lemma_list_costs(c, addresses, more_addresses, addresses.len(), more_addresses.len());
    lemma_list_costs(c, slots, more_slots, slots.len(), more_slots.len());
    lemma_list_costs(c, auths, more_auths, auths.len(), more_auths.len());
}

/// Each entry added to an access list or to the authorization list makes validation cost
/// strictly more: at least the fixed per-entry cost.
pub proof fn lemma_validation_cost_grows_strictly(
    c: ValidationCostParams,
    calldata_len: nat,
    addresses: Seq<bool>,
    slots: Seq<bool>,
    auths: Seq<bool>,
    more_addresses: Seq<bool>,
    more_slots: Seq<bool>,
    more_auths: Seq<bool>,
)
    requires
        addresses.is_prefix_of(more_addresses),
        slots.is_prefix_of(more_slots),
        auths.is_prefix_of(more_auths),
        addresses.len() < more_addresses.len() || slots.len() < more_slots.len() || auths.len()
            < more_auths.len(),
    ensures
        validation_native_total(c, calldata_len, addresses, slots, auths) < validation_native_total(
            c,
            calldata_len,
            more_addresses,
            more_slots,
            more_auths,
        ),
{
    lemma_list_costs(c, addresses, more_addresses, addresses.len(), more_addresses.len());
    lemma_list_costs(c, slots, more_slots, slots.len(), more_slots.len());
    lemma_list_costs(c, auths, more_auths, auths.len(), more_auths.len());
}

/// Pubdata of one authorization: the full account diff with the padded delegation code.
pub open spec fn auth_pubdata(c: ValidationCostParams) -> nat {
    (56 + c.delegation_padded_len) as nat
}

/// The exact pubdata of validation: the sender's account diff (key, metadata, nonce,
/// and the balance change if any), the intrinsic pubdata and the authorizations.
pub open spec fn validation_pubdata_total(
    c: ValidationCostParams,
    n_auths: nat,
    sender_balance: nat,
    fee_to_prepay: nat,
) -> nat {
    (35 + (if fee_to_prepay != 0 {
        compression_len(sender_balance, (sender_balance - fee_to_prepay) as nat)
    } else {
        0
    }) + L2_TX_INTRINSIC_PUBDATA + auth_pubdata(c) * n_auths) as nat
}

/// Saturating multiplication of `u64`s.
fn sat_mul(a: u64, b: u64) -> (r: u64)
    ensures
        r == cap64((a * b) as nat),
{
    match a.checked_mul(b) {
        Some(x) => x,
        None => u64::MAX,
    }
}

/// Saturating addition of `u64`s.
fn sat_add(a: u64, b: u64) -> (r: u64)
    ensures
        r == cap64((a + b) as nat),
{
    a.saturating_add(b)
}

/// Estimates the native resources consumed during L2 transaction validation without
/// running it. `*_exists[i]` tells whether the i-th access list address, slot, or
/// authority is already in the storage tree; `fee_to_prepay` is what the sender pays up
/// front. Sums saturate at `u64::MAX`.
pub fn validation_native_resources(
    costs: &ValidationCostParams,
    calldata_len: u64,
    access_list_address_exists: &[bool],
    access_list_slot_exists: &[bool],
    authorization_authority_exists: &[bool],
    sender_balance: &U256,
    fee_to_prepay: &U256,
) -> (r: Result<ValidationNativeResourcesEstimate, ()>)
    requires
        sender_balance.value() >= fee_to_prepay.value(),
        costs.delegation_padded_len + 56 <= u64::MAX,
    ensures
        r matches Ok(e) && e.native_computational == cap64(
            validation_native_total(
                *costs,
                calldata_len as nat,
                access_list_address_exists@,
                access_list_slot_exists@,
                authorization_authority_exists@,
            ),
        ) && e.pubdata == cap64(
            validation_pubdata_total(
                *costs,
                authorization_authority_exists@.len(),
                sender_balance.value(),
                fee_to_prepay.value(),
            ),
        ),
{
    let c = *costs;
    let account_decommitment_cost = sat_add(
        c.preimage_cache_get_native_cost,
        c.blake2s_cost_of_account,
    );
    let cold_existing = sat_add(
        sat_add(
            sat_add(c.warm_account_cache_access_native_cost, c.warm_storage_read_native_cost),
            c.cold_existing_storage_read_native_cost,
        ),
        account_decommitment_cost,
    );
    let cold_new = sat_add(
        sat_add(c.warm_account_cache_access_native_cost, c.warm_storage_read_native_cost),
        c.cold_new_storage_read_native_cost,
    );
    let warm_write = sat_add(
        c.warm_account_cache_access_native_cost,
        c.warm_account_cache_write_extra_native_cost,
    );
    assert(cold_existing == cap64(cold_existing_account_read(c)));
    assert(cold_new == cap64(cold_new_account_read(c)));
    assert(warm_write == cap64(warm_account_write(c)));
    let mut native: u64 = sat_mul(calldata_len, c.copy_byte_native_cost);
    native = sat_add(native, L2_TX_INTRINSIC_NATIVE_COST);
    native = sat_add(native, c.keccak_cost_of_tx);
    native = sat_add(native, c.ecrecover_native_cost);
    native = sat_add(native, c.keccak_cost_of_tx);
    native = sat_add(native, cold_existing);
    native = sat_add(native, warm_write);
    let ghost base: nat = (calldata_len * c.copy_byte_native_cost + L2_TX_INTRINSIC_NATIVE_COST + 2
        * c.keccak_cost_of_tx + c.ecrecover_native_cost + cold_existing_account_read(c)
        + warm_account_write(c)) as nat;
    assert(native == cap64(base));
    let mut i: usize = 0;
    while i < access_list_address_exists.len()
        invariant
            i <= access_list_address_exists@.len(),
            c == *costs,
            cold_existing == cap64(cold_existing_account_read(c)),
            cold_new == cap64(cold_new_account_read(c)),
            native == cap64(base + addresses_cost(c, access_list_address_exists@, i as nat)),
        decreases access_list_address_exists@.len() - i,
    {
        let touch_cost = if access_list_address_exists[i] {
            cold_existing
        } else {
            cold_new
        };
        native = sat_add(sat_add(native, PER_ADDRESS_ACCESS_LIST_NATIVE_COST), touch_cost);
        i = i + 1;
    }
    let ghost base2: nat = base + addresses_cost(
        c,
        access_list_address_exists@,
        access_list_address_exists@.len(),
    );
    let mut i: usize = 0;
    while i < access_list_slot_exists.len()
        invariant
            i <= access_list_slot_exists@.len(),
            c == *costs,
            native == cap64(base2 + slots_cost(c, access_list_slot_exists@, i as nat)),
        decreases access_list_slot_exists@.len() - i,
    {
        let slot_cost = sat_add(
            c.warm_storage_read_native_cost,
            if access_list_slot_exists[i] {
                c.cold_existing_storage_read_native_cost
            } else {
                c.cold_new_storage_read_native_cost
            },
        );
        native = sat_add(sat_add(native, PER_SLOT_ACCESS_LIST_NATIVE_COST), slot_cost);
        i = i + 1;
    }
    let ghost base3: nat = base2 + slots_cost(
        c,
        access_list_slot_exists@,
        access_list_slot_exists@.len(),
    );
    let delegation_write_cost = sat_add(
        sat_add(
            sat_add(
                sat_add(c.warm_account_cache_access_native_cost, c.keccak_cost_of_delegation_code),
                c.blake2s_cost_of_delegation_code,
            ),
            c.preimage_cache_set_native_cost,
        ),
        c.warm_account_cache_write_extra_native_cost,
    );
    assert(delegation_write_cost == cap64(delegation_write(c)));
    let mut i: usize = 0;
    while i < authorization_authority_exists.len()
        invariant
            i <= authorization_authority_exists@.len(),
            c == *costs,
            cold_existing == cap64(cold_existing_account_read(c)),
            cold_new == cap64(cold_new_account_read(c)),
            warm_write == cap64(warm_account_write(c)),
            delegation_write_cost == cap64(delegation_write(c)),
            native == cap64(base3 + auths_cost(c, authorization_authority_exists@, i as nat)),
        decreases authorization_authority_exists@.len() - i,
    {
        let authority_read_cost = if authorization_authority_exists[i] {
            cold_existing
        } else {
            cold_new
        };
        native = sat_add(native, PER_AUTH_NATIVE_COST);
        native = sat_add(native, c.keccak_cost_of_auth_message);
        native = sat_add(native, c.ecrecover_native_cost);
        native = sat_add(native, authority_read_cost);
        native = sat_add(native, warm_write);
        native = sat_add(native, delegation_write_cost);
        i = i + 1;
    }
    native = sat_add(native, warm_write);
    let new_balance = match checked_sub(sender_balance, fee_to_prepay) {
        Some(b) => b,
        None => U256::zero(),
    };
    let mut pubdata: u64 = 32 + 1 + 2;
    if !sender_balance.equals(&new_balance) {
        let l = optimal_compression_length_u256(sender_balance, &new_balance);
        pubdata = sat_add(pubdata, l as u64);
    }
    pubdata = sat_add(pubdata, L2_TX_INTRINSIC_PUBDATA);
    let auth_pubdata_per_entry: u64 = 32 + 1 + 8 + 2 + 1 + 4 + 4 + c.delegation_padded_len + 4;
    pubdata = sat_add(
        pubdata,
        sat_mul(auth_pubdata_per_entry, authorization_authority_exists.len() as u64),
    );
    Ok(ValidationNativeResourcesEstimate { native_computational: native, pubdata })
}

/// Checks that the native resources an L2 transaction prepays through its gas cover
/// the estimated cost of its validation: computation must fit in the computational
/// part, and pubdata in what is withheld for it plus what computation leaves.
pub fn validate_l2_tx_native_resources(
    costs: &ValidationCostParams,
    max_fee_per_gas: &U256,
    max_priority_fee_per_gas: &U256,
    gas_limit: u64,
    pubdata_price: &U256,
    base_fee: &U256,
    native_price: &U256,
    calldata_len: u64,
    access_list_address_exists: &[bool],
    access_list_slot_exists: &[bool],
    authorization_authority_exists: &[bool],
    sender_balance: &U256,
) -> (r: Result<(), ()>)
    requires
        costs.delegation_padded_len + 56 <= u64::MAX,
        ({
            let fee = gas_price_value(
                max_fee_per_gas.value(),
                max_priority_fee_per_gas.value(),
                base_fee.value(),
            ) * gas_limit;
            native_price.value() != 0 && fee < crate::u256::modulus256() ==> sender_balance.value()
                >= fee
        }),
    ensures
        r is Ok <==> l2_validation_fits(
            *costs,
            max_fee_per_gas.value(),
            max_priority_fee_per_gas.value(),
            gas_limit,
            pubdata_price.value(),
            base_fee.value(),
            native_price.value(),
            calldata_len,
            access_list_address_exists@,
            access_list_slot_exists@,
            authorization_authority_exists@,
            sender_balance.value(),
        ),
{
    if native_price.is_zero() {
        return Err(());
    }
    let gas_price = compute_l2_tx_gas_price(max_fee_per_gas, max_priority_fee_per_gas, base_fee);
    let fee_to_prepay = match checked_mul(&gas_price, &U256::from_u64(gas_limit)) {
        Some(f) => f,
        None => {
            return Err(());
        },
    };
    let estimate = match validation_native_resources(
        costs,
        calldata_len,
        access_list_address_exists,
        access_list_slot_exists,
        authorization_authority_exists,
        sender_balance,
        &fee_to_prepay,
    ) {
        Ok(e) => e,
        Err(()) => {
            return Err(());
        },
    };
    let native_per_gas = match try_to_u64(&div_ceil(&gas_price, native_price)) {
        Some(n) => n,
        None => {
            return Err(());
        },
    };
    let native_per_pubdata = match try_to_u64(&div(pubdata_price, native_price)) {
        Some(n) => n,
        None => {
            return Err(());
        },
    };
    let native_prepaid_from_gas = sat_mul(native_per_gas, gas_limit);
    let intrinsic_pubdata_overhead = sat_mul(native_per_pubdata, L2_TX_INTRINSIC_PUBDATA);
    if native_prepaid_from_gas < intrinsic_pubdata_overhead {
        return Err(());
    }
    let native_after_intrinsic_pubdata = native_prepaid_from_gas - intrinsic_pubdata_overhead;
    let main = if native_after_intrinsic_pubdata <= costs.max_native_computational {
        native_after_intrinsic_pubdata
    } else {
        costs.max_native_computational
    };
    let withheld = native_after_intrinsic_pubdata - main;
    if estimate.native_computational > main {
        return Err(());
    }
    let pubdata_native_cost = match native_per_pubdata.checked_mul(estimate.pubdata) {
        Some(x) => x,
        None => {
            return Err(());
        },
    };
    let remaining_main = main - estimate.native_computational;
    if pubdata_native_cost > sat_add(withheld, remaining_main) {
        return Err(());
    }
    Ok(())
}

/// The L2 gas price as a number (see `compute_l2_tx_gas_price`).
pub open spec fn gas_price_value(max_fee: nat, max_priority: nat, base_fee: nat) -> nat {
    if base_fee == 0 {
        0
    } else {
        let room = sat_sub(max_fee, base_fee);
        base_fee + if max_priority <= room {
            max_priority
        } else {
            room
        }
    }
}

/// The effective gas price of an accepted EIP-1559 transaction is at least the base fee,
/// at most the maximum fee, and exceeds the base fee by at most the priority fee.
pub proof fn lemma_gas_price_bounds(base_fee: nat, max_fee: nat, max_priority: nat)
    requires
        base_fee <= max_fee,
        max_priority <= max_fee,
    ensures
        base_fee <= eip1559_gas_price(base_fee, max_fee, max_priority) <= max_fee,
        eip1559_gas_price(base_fee, max_fee, max_priority) - base_fee <= max_priority,
{
}

/// The L2 gas price estimate matches the bootloader's gas price whenever the base fee
/// is set and the bootloader accepts the fees.
pub proof fn lemma_l2_gas_price_matches_bootloader(base_fee: nat, max_fee: nat, max_priority: nat)
    requires
        base_fee != 0,
        base_fee <= max_fee,
        max_priority <= max_fee,
    ensures
        gas_price_value(max_fee, max_priority, base_fee) == eip1559_gas_price(
            base_fee,
            max_fee,
            max_priority,
        ),
{
}

/// Whether the prepaid native resources of an L2 transaction cover its validation.
pub open spec fn l2_validation_fits(
    c: ValidationCostParams,
    max_fee: nat,
    max_priority: nat,
    gas_limit: u64,
    pubdata_price: nat,
    base_fee: nat,
    native_price: nat,
    calldata_len: u64,
    address_exists: Seq<bool>,
    slot_exists: Seq<bool>,
    auth_exists: Seq<bool>,
    sender_balance: nat,
) -> bool {
    let gas_price = gas_price_value(max_fee, max_priority, base_fee);
    let fee = gas_price * gas_limit;
    let native_computational = cap64(
        validation_native_total(c, calldata_len as nat, address_exists, slot_exists, auth_exists),
    );
    let pubdata = cap64(validation_pubdata_total(c, auth_exists.len(), sender_balance, fee as nat));
    let native_per_gas = (gas_price + native_price - 1) / (native_price as int);
    let native_per_pubdata = pubdata_price / native_price;
    let prepaid = cap64((native_per_gas * gas_limit) as nat);
    let overhead = cap64((native_per_pubdata * L2_TX_INTRINSIC_PUBDATA) as nat);
    let after = prepaid - overhead;
    let main = if after <= c.max_native_computational {
        after
    } else {
        c.max_native_computational as int
    };
    let withheld = after - main;
    &&& native_price != 0
    &&& fee < crate::u256::modulus256()
    &&& native_per_gas <= u64::MAX
    &&& native_per_pubdata <= u64::MAX
    &&& prepaid >= overhead
    &&& native_computational <= main
    &&& native_per_pubdata * pubdata <= u64::MAX
    &&& native_per_pubdata * pubdata <= cap64((withheld + main - native_computational) as nat)
}

} // verus!
