use zksync_os::errors::{InternalError, SystemError};
use zksync_os::flat_storage::NewStorageWithAccountPropertiesUnderHash;
use zksync_os::primitives::{account_properties_storage_address, Bytes32, B160};
use zksync_os::resources::BaseResources;
use zksync_os::storage_cache::{
    ExecutionEnvironmentType, GenericPubdataAwarePlainStorage, InitialStorageSlotData,
    InitialStorageSlotOracle, StorageAccessPolicy, WarmStorageKey,
};

struct FreePolicy;

impl StorageAccessPolicy for FreePolicy {
    fn warm_read_charge(&self, _: ExecutionEnvironmentType, resources: BaseResources) -> Result<BaseResources, SystemError> {
        Ok(resources)
    }
    fn cold_read_extra_charge(&self, _: ExecutionEnvironmentType, resources: BaseResources, _: bool) -> Result<BaseResources, SystemError> {
        Ok(resources)
    }
    fn write_extra_charge(
        &self,
        _: ExecutionEnvironmentType,
        _: Bytes32,
        _: Bytes32,
        _: Bytes32,
        resources: BaseResources,
        _: bool,
        _: bool,
    ) -> Result<BaseResources, SystemError> {
        Ok(resources)
    }
    fn write_refund(
        &self,
        _: ExecutionEnvironmentType,
        _: Bytes32,
        _: Bytes32,
        _: Bytes32,
        resources: BaseResources,
        refund_counter: BaseResources,
    ) -> Result<(BaseResources, BaseResources), SystemError> {
        Ok((resources, refund_counter))
    }
    fn touch_charge(&self, resources: BaseResources) -> Result<BaseResources, SystemError> {
        Ok(resources)
    }
    fn charge_warm_storage_read(&self, _: ExecutionEnvironmentType, _: &mut BaseResources) -> Result<(), SystemError> {
        Ok(())
    }
    fn charge_cold_storage_read_extra(&self, _: ExecutionEnvironmentType, _: &mut BaseResources, _: bool) -> Result<(), SystemError> {
        Ok(())
    }
    fn charge_storage_write_extra(
        &self,
        _: ExecutionEnvironmentType,
        _: &Bytes32,
        _: &Bytes32,
        _: &Bytes32,
        _: &mut BaseResources,
        _: bool,
        _: bool,
    ) -> Result<(), SystemError> {
        Ok(())
    }
    fn refund_for_storage_write(
        &self,
        _: ExecutionEnvironmentType,
        _: &Bytes32,
        _: &Bytes32,
        _: &Bytes32,
        _: &mut BaseResources,
        _: &mut BaseResources,
    ) -> Result<(), SystemError> {
        Ok(())
    }
    fn charge_access_list_storage_touch(&self, _: &mut BaseResources) -> Result<(), SystemError> {
        Ok(())
    }
}

#[derive(Default)]
struct TestOracle {
    slot_values: Vec<(WarmStorageKey, InitialStorageSlotData)>,
    slot_queries: usize,
    queries: Vec<WarmStorageKey>,
}

impl TestOracle {
    fn with_slot(key: WarmStorageKey, value: Bytes32, is_new_storage_slot: bool) -> Self {
        Self {
            slot_values: vec![(key, InitialStorageSlotData { is_new_storage_slot, initial_value: value })],
            slot_queries: 0,
            queries: vec![],
        }
    }
}

impl InitialStorageSlotOracle for TestOracle {
    fn query_initial_storage_slot(&mut self, key: &WarmStorageKey) -> Result<InitialStorageSlotData, InternalError> {
        self.slot_queries += 1;
        self.queries.push(*key);
        self.initial_slot_data(*key)
    }

    fn queried_keys(&self) -> Vec<WarmStorageKey> {
        self.queries.clone()
    }

    fn initial_slot_data(&self, key: WarmStorageKey) -> Result<InitialStorageSlotData, InternalError> {
        let key = &key;
        Ok(self
            .slot_values
            .iter()
            .find(|(k, _)| k == key)
            .map(|(_, v)| *v)
            .unwrap_or(InitialStorageSlotData { is_new_storage_slot: false, initial_value: Bytes32::zero() }))
    }
}

type TestStorage = NewStorageWithAccountPropertiesUnderHash<FreePolicy>;

fn test_storage() -> TestStorage {
    NewStorageWithAccountPropertiesUnderHash(GenericPubdataAwarePlainStorage::new_from_parts(FreePolicy))
}

fn address7() -> B160 {
    let mut bytes = [0u8; 20];
    bytes[19] = 7;
    B160::from_array(bytes)
}

fn test_key() -> WarmStorageKey {
    WarmStorageKey { address: address7(), key: Bytes32::from_array([3u8; 32]) }
}

fn infinite() -> BaseResources {
    BaseResources::formal_infinite()
}

#[test]
fn touched_only_slots_are_hidden_from_iterators_and_deconstruction_clear() {
    let mut storage = test_storage();
    let key = test_key();
    let mut resources = infinite();

    storage.0.touch_impl(&key, &mut resources).unwrap();

    let item = storage.0.get(&key).unwrap();
    assert!(item.current.value.is_none());
    assert!(!item.properties.observed);
    assert_eq!(storage.iter_as_storage_types().len(), 0);

    storage.0.clear_state_impl(&key.address).unwrap();

    let item = storage.0.get(&key).unwrap();
    assert!(item.current.value.is_none());
    assert_eq!(storage.iter_as_storage_types().len(), 0);
}

#[test]
fn touched_slot_materializes_on_read_and_becomes_iterable() {
    let mut storage = test_storage();
    let key = test_key();
    let expected_value = Bytes32::from_array([9u8; 32]);
    let mut resources = infinite();

    storage.0.touch_impl(&key, &mut resources).unwrap();

    let mut oracle = TestOracle::with_slot(key, expected_value, false);
    let value = storage
        .0
        .apply_read_impl(ExecutionEnvironmentType::NoEE, &key, &mut resources, &mut oracle)
        .unwrap();

    assert_eq!(oracle.slot_queries, 1);
    assert_eq!(value, expected_value);

    let item = storage.0.get(&key).unwrap();
    assert_eq!(item.current.value, Some(expected_value));
    assert!(item.properties.observed);

    let accesses = storage.iter_as_storage_types();
    assert_eq!(accesses.len(), 1);
    assert_eq!(accesses[0].0, key);
    assert_eq!(accesses[0].1.current_value, expected_value);
    assert_eq!(accesses[0].1.initial_value, expected_value);
    assert!(accesses[0].1.initial_value_used);
    assert!(!accesses[0].1.is_new_storage_slot);
}

#[test]
fn account_property_subspace_is_not_special_cased_by_storage_iterator() {
    let mut storage = test_storage();
    let key = WarmStorageKey {
        address: account_properties_storage_address(),
        key: Bytes32::from_array([1u8; 32]),
    };
    let mut resources = infinite();

    storage.0.touch_impl(&key, &mut resources).unwrap();

    assert_eq!(storage.iter_as_storage_types().len(), 0);
}

#[test]
fn pubdata_counts_changed_slots_except_account_properties() {
    let mut storage = test_storage();
    let key = test_key();
    let mut resources = infinite();
    let mut oracle = TestOracle::with_slot(key, Bytes32::from_array([0u8; 32]), false);
    storage.begin_new_tx();
    let mut v = [0u8; 32];
    v[31] = 5;
    storage
        .write(ExecutionEnvironmentType::EVM, &mut resources, &key.address, &key.key, &Bytes32::from_array(v), &mut oracle)
        .unwrap();
    // key (32) + metadata byte + one byte of value
    assert_eq!(storage.calculate_pubdata_used_by_tx(), 32 + 2);

    let props = account_properties_storage_address();
    storage
        .write_special_account_property(ExecutionEnvironmentType::EVM, &mut resources, &address7(), &Bytes32::from_array([1u8; 32]), &mut oracle)
        .unwrap();
    assert_eq!(storage.calculate_pubdata_used_by_tx(), 32 + 2);
    let special = storage.read_special_account_property(ExecutionEnvironmentType::EVM, &mut resources, &address7(), &mut oracle).unwrap();
    assert_eq!(special, Bytes32::from_array([1u8; 32]));
    assert_eq!(props.bytes[18], 0x80);
    assert_eq!(props.bytes[19], 0x03);
}

#[test]
fn net_diffs_show_only_changed_slots() {
    let mut storage = test_storage();
    let a = test_key();
    let b = WarmStorageKey { address: address7(), key: Bytes32::from_array([4u8; 32]) };
    let mut resources = infinite();
    let mut oracle = TestOracle::default();
    storage.read(ExecutionEnvironmentType::EVM, &mut resources, &a.address, &a.key, &mut oracle).unwrap();
    storage
        .write(ExecutionEnvironmentType::EVM, &mut resources, &b.address, &b.key, &Bytes32::from_array([1u8; 32]), &mut oracle)
        .unwrap();
    assert_eq!(storage.net_accesses_iter().len(), 2);
    let diffs = storage.net_diffs_iter();
    assert_eq!(diffs.len(), 1);
    assert_eq!(diffs[0].0, b);
}
