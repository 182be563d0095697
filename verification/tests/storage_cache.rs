use std::cell::{Cell, RefCell};

use zksync_os::errors::{InternalError, SystemError};
use zksync_os::primitives::{Bytes32, B160};
use zksync_os::resources::BaseResources;
use zksync_os::storage_cache::initial_slot_value;
use zksync_os::storage_cache::{
    ExecutionEnvironmentType, GenericPubdataAwarePlainStorage, InitialStorageSlotData,
    InitialStorageSlotOracle, StorageAccessPolicy, TransactionId, WarmStorageKey,
};

#[derive(Clone, Copy, Debug, PartialEq, Eq)]
struct WriteCharge {
    ee_type: ExecutionEnvironmentType,
    initial_value: Bytes32,
    current_value: Bytes32,
    new_value: Bytes32,
    is_warm_write: bool,
    is_new_slot: bool,
}

#[derive(Default)]
struct CountingPolicy {
    access_list_touches: Cell<usize>,
    warm_reads: Cell<usize>,
    cold_reads: Cell<usize>,
    writes: RefCell<Vec<WriteCharge>>,
    refunds: Cell<usize>,
}

impl StorageAccessPolicy for CountingPolicy {
    fn warm_read_charge(&self, _: ExecutionEnvironmentType, resources: BaseResources) -> Result<BaseResources, SystemError> {
        Ok(resources)
    }
    fn cold_read_extra_charge(&self, _: ExecutionEnvironmentType, resources: BaseResources, _: bool) -> Result<BaseResources, SystemError> {
        Ok(resources)
    }
    fn write_extra_charge(
        &self,
        _: ExecutionEnvironmentType,
        _: Bytes32,
        _: Bytes32,
        _: Bytes32,
        resources: BaseResources,
        _: bool,
        _: bool,
    ) -> Result<BaseResources, SystemError> {
        Ok(resources)
    }
    fn write_refund(
        &self,
        _: ExecutionEnvironmentType,
        _: Bytes32,
        _: Bytes32,
        _: Bytes32,
        resources: BaseResources,
        refund_counter: BaseResources,
    ) -> Result<(BaseResources, BaseResources), SystemError> {
        Ok((resources, refund_counter))
    }
    fn touch_charge(&self, resources: BaseResources) -> Result<BaseResources, SystemError> {
        Ok(resources)
    }
    fn charge_warm_storage_read(
        &self,
        _ee_type: ExecutionEnvironmentType,
        _resources: &mut BaseResources,
    ) -> Result<(), SystemError> {
        self.warm_reads.set(self.warm_reads.get() + 1);
        Ok(())
    }

    fn charge_cold_storage_read_extra(
        &self,
        _ee_type: ExecutionEnvironmentType,
        _resources: &mut BaseResources,
        _is_new_slot: bool,
    ) -> Result<(), SystemError> {
        self.cold_reads.set(self.cold_reads.get() + 1);
        Ok(())
    }

    fn charge_storage_write_extra(
        &self,
        ee_type: ExecutionEnvironmentType,
        initial_value: &Bytes32,
        current_value: &Bytes32,
        new_value: &Bytes32,
        _resources: &mut BaseResources,
        is_warm_write: bool,
        is_new_slot: bool,
    ) -> Result<(), SystemError> {
        self.writes.borrow_mut().push(WriteCharge {
            ee_type,
            initial_value: *initial_value,
            current_value: *current_value,
            new_value: *new_value,
            is_warm_write,
            is_new_slot,
        });
        Ok(())
    }

    fn refund_for_storage_write(
        &self,
        _ee_type: ExecutionEnvironmentType,
        _value_at_tx_start: &Bytes32,
        _current_value: &Bytes32,
        _new_value: &Bytes32,
        _resources: &mut BaseResources,
        _refund_counter: &mut BaseResources,
    ) -> Result<(), SystemError> {
        self.refunds.set(self.refunds.get() + 1);
        Ok(())
    }

    fn charge_access_list_storage_touch(
        &self,
        _resources: &mut BaseResources,
    ) -> Result<(), SystemError> {
        self.access_list_touches.set(self.access_list_touches.get() + 1);
        Ok(())
    }
}

#[derive(Default)]
struct TestOracle {
    slot_values: Vec<(WarmStorageKey, InitialStorageSlotData)>,
    slot_queries: usize,
    queries: Vec<WarmStorageKey>,
}

impl TestOracle {
    fn with_slot(key: WarmStorageKey, value: Bytes32, is_new_storage_slot: bool) -> Self {
        Self {
            slot_values: vec![(
                key,
                InitialStorageSlotData {
                    is_new_storage_slot,
                    initial_value: value,
                },
            )],
            slot_queries: 0,
            queries: vec![],
        }
    }
}

impl InitialStorageSlotOracle for TestOracle {
    fn query_initial_storage_slot(
        &mut self,
        key: &WarmStorageKey,
    ) -> Result<InitialStorageSlotData, InternalError> {
        self.slot_queries += 1;
        self.queries.push(*key);
        self.initial_slot_data(*key)
    }

    fn queried_keys(&self) -> Vec<WarmStorageKey> {
        self.queries.clone()
    }

    fn initial_slot_data(&self, key: WarmStorageKey) -> Result<InitialStorageSlotData, InternalError> {
        let key = &key;
        Ok(self
            .slot_values
            .iter()
            .find(|(k, _)| k == key)
            .map(|(_, v)| *v)
            .unwrap_or(InitialStorageSlotData {
                is_new_storage_slot: false,
                initial_value: Bytes32::zero(),
            }))
    }
}

type TestStorage = GenericPubdataAwarePlainStorage<CountingPolicy>;

fn test_storage() -> TestStorage {
    GenericPubdataAwarePlainStorage::new_from_parts(CountingPolicy::default())
}

fn address7() -> B160 {
    let mut bytes = [0u8; 20];
    bytes[19] = 7;
    B160::from_array(bytes)
}

fn test_key(slot: u8) -> WarmStorageKey {
    WarmStorageKey {
        address: address7(),
        key: Bytes32::from_array([slot; 32]),
    }
}

fn advance_to_next_tx(storage: &mut TestStorage) {
    storage.finish_tx();
    storage.begin_new_tx();
}

fn infinite() -> BaseResources {
    BaseResources::formal_infinite()
}

#[test]
fn touch_impl_creates_unmaterialized_warm_entry_and_only_charges_access_list() {
    let mut storage = test_storage();
    let key = test_key(1);
    let mut resources = infinite();

    storage.touch_impl(&key, &mut resources).unwrap();

    let item = storage.get(&key).unwrap();
    assert!(item.current.value.is_none());
    assert!(!item.properties.observed);
    assert_eq!(item.current.metadata.last_touched_in_tx, Some(TransactionId(0)));
    let policy = storage.resources_policy();
    assert_eq!(policy.access_list_touches.get(), 1);
    assert_eq!(policy.warm_reads.get(), 0);
    assert_eq!(policy.cold_reads.get(), 0);
    assert_eq!(storage.altered_keys_since_commit().len(), 0);
}

#[test]
fn touch_impl_on_existing_none_entry_updates_metadata_in_place_across_txs() {
    let mut storage = test_storage();
    let key = test_key(2);
    let mut resources = infinite();

    storage.touch_impl(&key, &mut resources).unwrap();
    advance_to_next_tx(&mut storage);

    storage.touch_impl(&key, &mut resources).unwrap();

    let item = storage.get(&key).unwrap();
    assert!(item.current.value.is_none());
    assert!(item.initial.value.is_none());
    assert_eq!(item.current.metadata.last_touched_in_tx, Some(TransactionId(1)));
    assert_eq!(item.initial.metadata.last_touched_in_tx, Some(TransactionId(1)));
    assert_eq!(storage.altered_keys_since_commit().len(), 0);
}

#[test]
fn touch_impl_on_existing_materialized_entry_creates_history_for_warmth() {
    let mut storage = test_storage();
    let key = test_key(3);
    let expected = Bytes32::from_array([9u8; 32]);
    let mut resources = infinite();
    let mut oracle = TestOracle::with_slot(key, expected, false);

    let _ = storage
        .apply_read_impl(ExecutionEnvironmentType::NoEE, &key, &mut resources, &mut oracle)
        .unwrap();

    advance_to_next_tx(&mut storage);

    storage.touch_impl(&key, &mut resources).unwrap();

    let item = storage.get(&key).unwrap();
    assert_eq!(item.current.value, Some(expected));
    assert!(item.initial.value.is_some());
    assert_eq!(item.current.metadata.last_touched_in_tx, Some(TransactionId(1)));
    assert_eq!(item.committed.metadata.last_touched_in_tx, Some(TransactionId(0)));
    assert_eq!(storage.altered_keys_since_commit().len(), 1);
}

#[test]
fn materialize_element_on_untouched_key_inserts_materialized_cold_entry() {
    let mut storage = test_storage();
    let key = test_key(4);
    let expected = Bytes32::from_array([5u8; 32]);
    let mut resources = infinite();
    let mut oracle = TestOracle::with_slot(key, expected, false);

    let is_warm_read = storage
        .materialize_element(ExecutionEnvironmentType::EVM, &mut resources, &key, &mut oracle)
        .unwrap();

    let item = storage.get(&key).unwrap();
    assert_eq!(oracle.slot_queries, 1);
    assert!(!is_warm_read.0);
    assert_eq!(item.current.value, Some(expected));
    assert!(item.properties.observed);
    assert_eq!(storage.resources_policy().warm_reads.get(), 1);
    assert_eq!(storage.resources_policy().cold_reads.get(), 1);
}

#[test]
fn materialize_element_on_touched_key_is_warm_in_same_tx() {
    let mut storage = test_storage();
    let key = test_key(5);
    let expected = Bytes32::from_array([6u8; 32]);
    let mut resources = infinite();

    storage.touch_impl(&key, &mut resources).unwrap();
    let mut oracle = TestOracle::with_slot(key, expected, false);

    let warm_before = storage.resources_policy().warm_reads.get();
    let cold_before = storage.resources_policy().cold_reads.get();

    let is_warm_read = storage
        .materialize_element(ExecutionEnvironmentType::EVM, &mut resources, &key, &mut oracle)
        .unwrap();

    let item = storage.get(&key).unwrap();
    assert_eq!(oracle.slot_queries, 1);
    assert!(is_warm_read.0);
    assert_eq!(item.current.value, Some(expected));
    assert_eq!(storage.resources_policy().warm_reads.get(), warm_before + 1);
    assert_eq!(storage.resources_policy().cold_reads.get(), cold_before);
}

#[test]
fn materialize_element_on_touched_key_is_cold_in_next_tx() {
    let mut storage = test_storage();
    let key = test_key(6);
    let expected = Bytes32::from_array([7u8; 32]);
    let mut resources = infinite();

    storage.touch_impl(&key, &mut resources).unwrap();
    advance_to_next_tx(&mut storage);

    let mut oracle = TestOracle::with_slot(key, expected, false);
    let warm_before = storage.resources_policy().warm_reads.get();
    let cold_before = storage.resources_policy().cold_reads.get();

    let is_warm_read = storage
        .materialize_element(ExecutionEnvironmentType::EVM, &mut resources, &key, &mut oracle)
        .unwrap();

    assert_eq!(oracle.slot_queries, 1);
    assert!(!is_warm_read.0);
    assert_eq!(storage.resources_policy().warm_reads.get(), warm_before + 1);
    assert_eq!(storage.resources_policy().cold_reads.get(), cold_before + 1);
}

#[test]
fn touched_new_slot_must_materialize_to_default_value() {
    let mut storage = test_storage();
    let key = test_key(7);
    let mut resources = infinite();
    storage.touch_impl(&key, &mut resources).unwrap();

    let mut oracle = TestOracle::with_slot(key, Bytes32::from_array([1u8; 32]), true);

    let result = storage.materialize_element(
        ExecutionEnvironmentType::NoEE,
        &mut resources,
        &key,
        &mut oracle,
    );

    assert!(result.is_err());
}

#[test]
fn apply_read_impl_after_touch_returns_materialized_oracle_value() {
    let mut storage = test_storage();
    let key = test_key(8);
    let expected = Bytes32::from_array([8u8; 32]);
    let mut resources = infinite();

    storage.touch_impl(&key, &mut resources).unwrap();

    let mut oracle = TestOracle::with_slot(key, expected, false);
    let value = storage
        .apply_read_impl(ExecutionEnvironmentType::EVM, &key, &mut resources, &mut oracle)
        .unwrap();

    let item = storage.get(&key).unwrap();
    assert_eq!(oracle.slot_queries, 1);
    assert_eq!(value, expected);
    assert_eq!(item.initial.value, Some(expected));
    assert_eq!(item.current.value, Some(expected));
    assert!(item.properties.observed);
    assert_eq!(storage.resources_policy().warm_reads.get(), 1);
    assert_eq!(storage.resources_policy().cold_reads.get(), 0);
}

#[test]
fn apply_write_impl_after_touch_uses_materialized_value_for_tx_start_accounting() {
    let mut storage = test_storage();
    let key = test_key(9);
    let initial = Bytes32::from_array([8u8; 32]);
    let new_value = Bytes32::from_array([9u8; 32]);
    let mut resources = infinite();

    storage.touch_impl(&key, &mut resources).unwrap();

    let mut oracle = TestOracle::with_slot(key, initial, false);
    let (old_value, value_at_tx_start) = storage
        .apply_write_impl(
            ExecutionEnvironmentType::EVM,
            &key,
            &new_value,
            &mut oracle,
            &mut resources,
        )
        .unwrap();

    let item = storage.get(&key).unwrap();
    assert_eq!(oracle.slot_queries, 1);
    assert_eq!(old_value, initial);
    assert_eq!(value_at_tx_start, initial);
    assert_eq!(item.committed.value, Some(initial));
    assert_eq!(item.current.value, Some(new_value));

    let writes = storage.resources_policy().writes.borrow();
    assert_eq!(writes.len(), 1);
    assert_eq!(
        writes[0],
        WriteCharge {
            ee_type: ExecutionEnvironmentType::EVM,
            initial_value: initial,
            current_value: initial,
            new_value,
            is_warm_write: true,
            is_new_slot: false,
        }
    );
    assert_eq!(storage.resources_policy().refunds.get(), 1);
}

#[test]
fn clear_state_impl_skips_unmaterialized_entries_and_zeroes_materialized_ones() {
    let mut storage = test_storage();
    let touched_only = test_key(10);
    let materialized = test_key(11);
    let mut resources = infinite();

    storage.touch_impl(&touched_only, &mut resources).unwrap();

    let materialized_value = Bytes32::from_array([3u8; 32]);
    let mut oracle = TestOracle::with_slot(materialized, materialized_value, false);
    let _ = storage
        .apply_read_impl(
            ExecutionEnvironmentType::NoEE,
            &materialized,
            &mut resources,
            &mut oracle,
        )
        .unwrap();

    storage.clear_state_impl(&touched_only.address).unwrap();

    let touched_item = storage.get(&touched_only).unwrap();
    assert!(touched_item.current.value.is_none());

    let materialized_item = storage.get(&materialized).unwrap();
    assert_eq!(materialized_item.current.value, Some(Bytes32::zero()));
    assert_eq!(materialized_item.committed.value, Some(materialized_value));
}

#[test]
fn rollback_to_snapshot_restores_written_value() {
    let mut storage = test_storage();
    let key = test_key(12);
    let initial = Bytes32::from_array([4u8; 32]);
    let mut resources = infinite();
    let mut oracle = TestOracle::with_slot(key, initial, false);

    let _ = storage
        .apply_read_impl(ExecutionEnvironmentType::EVM, &key, &mut resources, &mut oracle)
        .unwrap();
    let snapshot = storage.start_frame();
    storage
        .apply_write_impl(
            ExecutionEnvironmentType::EVM,
            &key,
            &Bytes32::from_array([5u8; 32]),
            &mut oracle,
            &mut resources,
        )
        .unwrap();
    assert_eq!(storage.get(&key).unwrap().current.value, Some(Bytes32::from_array([5u8; 32])));

    storage.finish_frame_impl(Some(&snapshot)).unwrap();
    assert_eq!(storage.get(&key).unwrap().current.value, Some(initial));
}

#[test]
fn rollback_to_future_snapshot_is_refused() {
    let mut storage = test_storage();
    let snapshot = zksync_os::storage_cache::StorageSnapshotId {
        cache: 3,
        evm_refunds_counter: 0,
    };
    assert_eq!(
        storage.finish_frame_impl(Some(&snapshot)),
        Err(InternalError::InvalidSnapshot)
    );
}

#[test]
fn read_after_write_in_same_tx_returns_written_value() {
    let mut storage = test_storage();
    let key = test_key(13);
    let mut resources = infinite();
    let mut oracle = TestOracle::with_slot(key, Bytes32::from_array([1u8; 32]), false);
    let written = Bytes32::from_array([2u8; 32]);
    storage
        .apply_write_impl(ExecutionEnvironmentType::EVM, &key, &written, &mut oracle, &mut resources)
        .unwrap();
    let value = storage
        .apply_read_impl(ExecutionEnvironmentType::EVM, &key, &mut resources, &mut oracle)
        .unwrap();
    assert_eq!(value, written);
    assert_eq!(oracle.slot_queries, 1);
}

#[test]
fn refund_counter_accumulates_and_rolls_back() {
    let mut storage = test_storage();
    let snapshot = storage.start_frame();
    storage
        .add_to_refund_counter_impl(BaseResources { ergs: 10, native: 0 })
        .unwrap();
    assert_eq!(storage.get_refund_counter_impl().ergs, 10);
    storage.finish_frame_impl(Some(&snapshot)).unwrap();
    assert_eq!(storage.get_refund_counter_impl().ergs, 0);
}

#[test]
fn initial_slot_value_checks_new_slots() {
    let zero = Bytes32::zero();
    let nine = Bytes32::from_array([9u8; 32]);
    let data = |is_new: bool, v: Bytes32| InitialStorageSlotData { is_new_storage_slot: is_new, initial_value: v };
    assert_eq!(initial_slot_value(Ok(data(false, nine))), Ok((nine, false)));
    assert_eq!(initial_slot_value(Ok(data(true, zero))), Ok((zero, true)));
    assert_eq!(
        initial_slot_value(Ok(data(true, nine))),
        Err(SystemError::LeafDefect(InternalError::NonTrivialInitialValueOfEmptySlot))
    );
    assert_eq!(
        initial_slot_value(Err(InternalError::InvalidSnapshot)),
        Err(SystemError::LeafDefect(InternalError::MissingInitialSlotValue))
    );
}

/// A policy whose cold reads run out of ergs; everything else is free.
struct ColdReadsFail;

impl StorageAccessPolicy for ColdReadsFail {
    fn warm_read_charge(&self, _: ExecutionEnvironmentType, resources: BaseResources) -> Result<BaseResources, SystemError> {
        Ok(resources)
    }
    fn cold_read_extra_charge(&self, _: ExecutionEnvironmentType, _: BaseResources, _: bool) -> Result<BaseResources, SystemError> {
        Err(SystemError::LeafRuntime(zksync_os::errors::RuntimeError::OutOfErgs))
    }
    fn write_extra_charge(
        &self,
        _: ExecutionEnvironmentType,
        _: Bytes32,
        _: Bytes32,
        _: Bytes32,
        resources: BaseResources,
        _: bool,
        _: bool,
    ) -> Result<BaseResources, SystemError> {
        Ok(resources)
    }
    fn write_refund(
        &self,
        _: ExecutionEnvironmentType,
        _: Bytes32,
        _: Bytes32,
        _: Bytes32,
        resources: BaseResources,
        refund_counter: BaseResources,
    ) -> Result<(BaseResources, BaseResources), SystemError> {
        Ok((resources, refund_counter))
    }
    fn touch_charge(&self, resources: BaseResources) -> Result<BaseResources, SystemError> {
        Ok(resources)
    }
    fn charge_warm_storage_read(&self, _: ExecutionEnvironmentType, _: &mut BaseResources) -> Result<(), SystemError> {
        Ok(())
    }
    fn charge_cold_storage_read_extra(&self, _: ExecutionEnvironmentType, _: &mut BaseResources, _: bool) -> Result<(), SystemError> {
        Err(SystemError::LeafRuntime(zksync_os::errors::RuntimeError::OutOfErgs))
    }
    fn charge_storage_write_extra(
        &self,
        _: ExecutionEnvironmentType,
        _: &Bytes32,
        _: &Bytes32,
        _: &Bytes32,
        _: &mut BaseResources,
        _: bool,
        _: bool,
    ) -> Result<(), SystemError> {
        Ok(())
    }
    fn refund_for_storage_write(
        &self,
        _: ExecutionEnvironmentType,
        _: &Bytes32,
        _: &Bytes32,
        _: &Bytes32,
        _: &mut BaseResources,
        _: &mut BaseResources,
    ) -> Result<(), SystemError> {
        Ok(())
    }
    fn charge_access_list_storage_touch(&self, _: &mut BaseResources) -> Result<(), SystemError> {
        Ok(())
    }
}

#[test]
fn failing_cold_read_charge_is_the_error_and_caches_nothing() {
    let mut storage = GenericPubdataAwarePlainStorage::new_from_parts(ColdReadsFail);
    let key = test_key(9);
    let mut resources = infinite();
    let mut oracle = TestOracle::with_slot(key, Bytes32::from_array([5u8; 32]), false);
    let r = storage.materialize_element(ExecutionEnvironmentType::EVM, &mut resources, &key, &mut oracle);
    assert_eq!(r, Err(SystemError::LeafRuntime(zksync_os::errors::RuntimeError::OutOfErgs)));
    assert!(storage.get(&key).is_none());
    assert_eq!(oracle.queries, vec![key]);
}
