use zksync_os::errors::{InternalError, InvalidTransaction, TxError};
use zksync_os::gas::{
    check_enough_resources_for_pubdata, check_l1_deposit, compute_l2_tx_gas_price, get_gas_price,
    get_resources_to_charge_for_pubdata, l1_tx_native_per_gas, l1_tx_native_per_pubdata,
    l1_tx_settlement, validate_l2_tx_native_resources, validation_native_resources,
    ValidationCostParams, ValidationNativeResourcesEstimate, FREE_L1_TX_NATIVE_PER_GAS,
    L1_TX_INTRINSIC_PUBDATA, L2_TX_INTRINSIC_NATIVE_COST, L2_TX_INTRINSIC_PUBDATA,
};
use zksync_os::resources::BaseResources;
use zksync_os::u256::U256;

fn w(v: u64) -> U256 {
    U256::from_u64(v)
}

#[test]
fn intrinsic_pubdata_constants() {
    assert_eq!(L1_TX_INTRINSIC_PUBDATA, 88 + 66 + 65);
    assert_eq!(L2_TX_INTRINSIC_PUBDATA, 66);
}

#[test]
fn gas_price_is_base_fee_plus_capped_priority_fee() {
    assert_eq!(get_gas_price(&w(10), &w(100), Some(&w(5))), Ok(w(15)));
    assert_eq!(get_gas_price(&w(10), &w(12), Some(&w(5))), Ok(w(12)));
    assert_eq!(get_gas_price(&w(10), &w(100), None), Ok(w(100)));
    assert_eq!(
        get_gas_price(&w(10), &w(100), Some(&w(101))),
        Err(TxError::Validation(InvalidTransaction::PriorityFeeGreaterThanMaxFee))
    );
    assert_eq!(
        get_gas_price(&w(101), &w(100), Some(&w(1))),
        Err(TxError::Validation(InvalidTransaction::BaseFeeGreaterThanMaxFee))
    );
}

#[test]
fn l2_gas_price_is_zero_without_base_fee() {
    assert_eq!(compute_l2_tx_gas_price(&w(100), &w(5), &w(0)), w(0));
    assert_eq!(compute_l2_tx_gas_price(&w(100), &w(5), &w(10)), w(15));
    assert_eq!(compute_l2_tx_gas_price(&w(12), &w(5), &w(10)), w(12));
    assert_eq!(compute_l2_tx_gas_price(&w(8), &w(5), &w(10)), w(10));
}

#[test]
fn pubdata_charge_discounts_base_and_saturates_price() {
    assert_eq!(
        get_resources_to_charge_for_pubdata(100, &w(3), Some(40)),
        Ok((60, BaseResources { ergs: 0, native: 180 }))
    );
    assert_eq!(
        get_resources_to_charge_for_pubdata(10, &w(3), Some(40)),
        Ok((0, BaseResources { ergs: 0, native: 0 }))
    );
    assert_eq!(
        get_resources_to_charge_for_pubdata(2, &U256::max(), None),
        Err(InternalError::ArithmeticOverflow)
    );
    assert_eq!(
        check_enough_resources_for_pubdata(100, &w(3), &BaseResources { ergs: 0, native: 179 }, None),
        Ok((false, BaseResources { ergs: 0, native: 300 }, 100))
    );
    assert_eq!(
        check_enough_resources_for_pubdata(100, &w(3), &BaseResources { ergs: 0, native: 300 }, None),
        Ok((true, BaseResources { ergs: 0, native: 300 }, 100))
    );
}

#[test]
fn l1_native_prices() {
    assert_eq!(l1_tx_native_per_gas(&w(25), true, None), w(3));
    assert_eq!(l1_tx_native_per_gas(&w(30), true, None), w(3));
    assert_eq!(l1_tx_native_per_gas(&w(25), true, Some(77)), w(77));
    assert_eq!(l1_tx_native_per_gas(&w(25), false, None), w(FREE_L1_TX_NATIVE_PER_GAS));
    assert_eq!(l1_tx_native_per_pubdata(&w(800), &w(3)), Ok(w(2400)));
    assert_eq!(
        l1_tx_native_per_pubdata(&U256::max(), &w(2)),
        Err(InternalError::ArithmeticOverflow)
    );
}

#[test]
fn l1_deposit_must_cover_value_and_fee() {
    assert_eq!(check_l1_deposit(100, &w(2), &w(50), &w(250)), Ok(()));
    assert_eq!(check_l1_deposit(100, &w(2), &w(50), &w(249)), Err(InternalError::DepositTooLow));
    assert_eq!(check_l1_deposit(2, &U256::max(), &w(0), &w(0)), Err(InternalError::ArithmeticOverflow));
}

#[test]
fn l1_settlement_splits_the_deposit() {
    // success: deposit 250, value 50, 60 gas used at price 2 -> fee 120, refund 80
    assert_eq!(l1_tx_settlement(60, &w(2), &w(50), &w(250), true, true), Ok((w(120), w(80))));
    // revert: the value is refunded too
    assert_eq!(l1_tx_settlement(60, &w(2), &w(50), &w(250), false, true), Ok((w(120), w(130))));
    // an upgrade transaction must succeed
    assert_eq!(
        l1_tx_settlement(60, &w(2), &w(50), &w(250), false, false),
        Err(InternalError::UpgradeTransactionFailed)
    );
    // more fee than deposit
    assert_eq!(
        l1_tx_settlement(200, &w(2), &w(50), &w(250), true, true),
        Err(InternalError::ArithmeticOverflow)
    );
}

fn params() -> ValidationCostParams {
    ValidationCostParams {
        copy_byte_native_cost: 2,
        keccak_cost_of_tx: 100,
        keccak_cost_of_auth_message: 50,
        keccak_cost_of_delegation_code: 40,
        blake2s_cost_of_account: 30,
        blake2s_cost_of_delegation_code: 20,
        delegation_padded_len: 32,
        ecrecover_native_cost: 1000,
        preimage_cache_get_native_cost: 7,
        preimage_cache_set_native_cost: 8,
        warm_account_cache_access_native_cost: 3,
        warm_account_cache_write_extra_native_cost: 4,
        warm_storage_read_native_cost: 5,
        cold_existing_storage_read_native_cost: 11,
        cold_new_storage_read_native_cost: 13,
        max_native_computational: 1_000_000,
    }
}

#[test]
fn validation_estimate_sums_all_costs() {
    let c = params();
    let est = validation_native_resources(&c, 10, &[true, false], &[false], &[true], &w(1000), &w(0))
        .unwrap();
    let cold_existing = 3 + 5 + 11 + 7 + 30;
    let cold_new = 3 + 5 + 13;
    let warm_write = 3 + 4;
    let delegation_write = 3 + 40 + 20 + 8 + 4;
    let expected = 10 * 2
        + L2_TX_INTRINSIC_NATIVE_COST
        + 2 * 100
        + 1000
        + cold_existing
        + warm_write
        + (2000 + cold_existing)
        + (2000 + cold_new)
        + (2000 + 5 + 13)
        + (2000 + 50 + 1000 + cold_existing + warm_write + delegation_write)
        + warm_write;
    assert_eq!(
        est,
        ValidationNativeResourcesEstimate { native_computational: expected, pubdata: 35 + 66 + 56 + 32 }
    );
}

#[test]
fn validation_estimate_counts_balance_diff_pubdata() {
    let c = params();
    // 1000 - 1 = 999: the subtract strategy takes one byte plus the metadata byte
    let est = validation_native_resources(&c, 0, &[], &[], &[], &w(1000), &w(1)).unwrap();
    assert_eq!(est.pubdata, 35 + 2 + 66);
}

#[test]
fn validation_estimate_saturates() {
    let mut c = params();
    c.copy_byte_native_cost = u64::MAX;
    let est = validation_native_resources(&c, 2, &[], &[], &[], &w(0), &w(0)).unwrap();
    assert_eq!(est.native_computational, u64::MAX);
}

#[test]
fn validation_budget_check() {
    let c = params();
    // gas price 10, native price 1 -> native per gas 10; 100_000 gas -> 1_000_000 native
    assert_eq!(
        validate_l2_tx_native_resources(
            &c, &w(10), &w(0), 100_000, &w(1), &w(10), &w(1), 0, &[], &[], &[], &w(10_000_000)
        ),
        Ok(())
    );
    // native price zero
    assert_eq!(
        validate_l2_tx_native_resources(
            &c, &w(10), &w(0), 100_000, &w(1), &w(10), &w(0), 0, &[], &[], &[], &w(10_000_000)
        ),
        Err(())
    );
    // too little gas for the computation
    assert_eq!(
        validate_l2_tx_native_resources(
            &c, &w(10), &w(0), 10, &w(1), &w(10), &w(1), 0, &[], &[], &[], &w(10_000_000)
        ),
        Err(())
    );
}

#[test]
fn validation_cost_grows_with_the_lists() {
    let c = params();
    let base = validation_native_resources(&c, 10, &[true], &[false], &[], &w(1000), &w(0)).unwrap();
    let more = validation_native_resources(&c, 10, &[true, false], &[false, true], &[true], &w(1000), &w(0))
        .unwrap();
    assert!(base.native_computational <= more.native_computational);
    assert!(base.native_computational < more.native_computational);
}
