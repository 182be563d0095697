use sha3::Digest;
use zksync_os::base_token::{
    base_token_total_supply, next_slot, solidity_mapping_slot, update_saved_total_supply, word_of,
    SupplyContracts, TotalSupplyUpdate,
};
use zksync_os::errors::{InternalError, SystemError};
use zksync_os::flat_storage::NewStorageWithAccountPropertiesUnderHash;
use zksync_os::primitives::{Bytes32, B160};
use zksync_os::resources::BaseResources;
use zksync_os::storage_cache::{
    ExecutionEnvironmentType, GenericPubdataAwarePlainStorage, InitialStorageSlotData,
    InitialStorageSlotOracle, StorageAccessPolicy, WarmStorageKey,
};
use zksync_os::u256::U256;

struct FreePolicy;

impl StorageAccessPolicy for FreePolicy {
    fn warm_read_charge(&self, _: ExecutionEnvironmentType, resources: BaseResources) -> Result<BaseResources, SystemError> {
        Ok(resources)
    }
    fn cold_read_extra_charge(&self, _: ExecutionEnvironmentType, resources: BaseResources, _: bool) -> Result<BaseResources, SystemError> {
        Ok(resources)
    }
    fn write_extra_charge(
        &self,
        _: ExecutionEnvironmentType,
        _: Bytes32,
        _: Bytes32,
        _: Bytes32,
        resources: BaseResources,
        _: bool,
        _: bool,
    ) -> Result<BaseResources, SystemError> {
        Ok(resources)
    }
    fn write_refund(
        &self,
        _: ExecutionEnvironmentType,
        _: Bytes32,
        _: Bytes32,
        _: Bytes32,
        resources: BaseResources,
        refund_counter: BaseResources,
    ) -> Result<(BaseResources, BaseResources), SystemError> {
        Ok((resources, refund_counter))
    }
    fn touch_charge(&self, resources: BaseResources) -> Result<BaseResources, SystemError> {
        Ok(resources)
    }
    fn charge_warm_storage_read(&self, _: ExecutionEnvironmentType, _: &mut BaseResources) -> Result<(), SystemError> {
        Ok(())
    }
    fn charge_cold_storage_read_extra(&self, _: ExecutionEnvironmentType, _: &mut BaseResources, _: bool) -> Result<(), SystemError> {
        Ok(())
    }
    fn charge_storage_write_extra(
        &self,
        _: ExecutionEnvironmentType,
        _: &Bytes32,
        _: &Bytes32,
        _: &Bytes32,
        _: &mut BaseResources,
        _: bool,
        _: bool,
    ) -> Result<(), SystemError> {
        Ok(())
    }
    fn refund_for_storage_write(
        &self,
        _: ExecutionEnvironmentType,
        _: &Bytes32,
        _: &Bytes32,
        _: &Bytes32,
        _: &mut BaseResources,
        _: &mut BaseResources,
    ) -> Result<(), SystemError> {
        Ok(())
    }
    fn charge_access_list_storage_touch(&self, _: &mut BaseResources) -> Result<(), SystemError> {
        Ok(())
    }
}

#[derive(Default)]
struct StateOracle {
    slots: Vec<(WarmStorageKey, Bytes32)>,
    queries: Vec<WarmStorageKey>,
}

impl InitialStorageSlotOracle for StateOracle {
    fn query_initial_storage_slot(&mut self, key: &WarmStorageKey) -> Result<InitialStorageSlotData, InternalError> {
        self.queries.push(*key);
        self.initial_slot_data(*key)
    }

    fn queried_keys(&self) -> Vec<WarmStorageKey> {
        self.queries.clone()
    }

    fn initial_slot_data(&self, key: WarmStorageKey) -> Result<InitialStorageSlotData, InternalError> {
        let key = &key;
        Ok(self
            .slots
            .iter()
            .find(|(k, _)| k == key)
            .map(|(_, v)| InitialStorageSlotData { is_new_storage_slot: false, initial_value: *v })
            .unwrap_or(InitialStorageSlotData { is_new_storage_slot: false, initial_value: Bytes32::zero() }))
    }
}

type TestStorage = NewStorageWithAccountPropertiesUnderHash<FreePolicy>;

fn test_storage() -> TestStorage {
    NewStorageWithAccountPropertiesUnderHash(GenericPubdataAwarePlainStorage::new_from_parts(FreePolicy))
}

fn address(last: u8) -> B160 {
    let mut bytes = [0u8; 20];
    bytes[18] = 0x80;
    bytes[19] = last;
    B160::from_array(bytes)
}

fn contracts() -> SupplyContracts {
    SupplyContracts { asset_tracker: address(0x0f), chain_asset_handler: address(0x0a), base_token: address(0x0b) }
}

fn keccak(parts: &[&[u8]]) -> Bytes32 {
    let mut h = sha3::Keccak256::new();
    for p in parts {
        h.update(p);
    }
    Bytes32 { bytes: h.finalize().into() }
}

fn word(v: u64) -> Bytes32 {
    let mut b = [0u8; 32];
    b[24..].copy_from_slice(&v.to_be_bytes());
    Bytes32 { bytes: b }
}

fn read(storage: &mut TestStorage, oracle: &mut StateOracle, address: B160, key: Bytes32) -> Bytes32 {
    let mut resources = BaseResources::formal_infinite();
    storage.read(ExecutionEnvironmentType::EVM, &mut resources, &address, &key, oracle).unwrap()
}

const CHAIN_ID: u64 = 270;

fn record_slot(asset_id: &Bytes32, migration: &Bytes32) -> Bytes32 {
    let level1 = keccak(&[&migration.bytes, &word(156).bytes]);
    keccak(&[&asset_id.bytes, &level1.bytes])
}

fn migration_slot() -> Bytes32 {
    keccak(&[&word(CHAIN_ID).bytes, &word(207).bytes])
}

#[test]
fn mapping_slot_is_the_solidity_layout() {
    let expected: [u8; 32] = [
        0xad, 0x32, 0x28, 0xb6, 0x76, 0xf7, 0xd3, 0xcd, 0x42, 0x84, 0xa5, 0x44, 0x3f, 0x17, 0xf1, 0x96,
        0x2b, 0x36, 0xe4, 0x91, 0xb3, 0x0a, 0x40, 0xb2, 0x40, 0x58, 0x49, 0xe5, 0x97, 0xba, 0x5f, 0xb5,
    ];
    assert_eq!(solidity_mapping_slot(&[0u8; 32], 0).bytes, expected);
    assert_eq!(solidity_mapping_slot(&[7u8; 32], 207), keccak(&[&[7u8; 32], &word(207).bytes]));
    assert_eq!(word_of(0x0102), word(0x0102));
}

#[test]
fn total_supply_adds_what_the_holder_gave_out() {
    let initial = U256::from_limbs([u64::MAX, 0x7fff_ffff_ffff_ffff, 0, 0]);
    let holder = U256::from_limbs([u64::MAX - 500, 0x7fff_ffff_ffff_ffff, 0, 0]);
    assert_eq!(base_token_total_supply(&U256::from_u64(1000), &holder), U256::from_u64(1500));
    assert_eq!(base_token_total_supply(&U256::from_u64(1000), &initial), U256::from_u64(1000));
    // A holder above its genesis balance gave nothing out.
    let above = U256::from_limbs([0, 0x8000_0000_0000_0000, 0, 0]);
    assert_eq!(base_token_total_supply(&U256::from_u64(7), &above), U256::from_u64(7));
    // An overflowing sum counts as zero.
    assert_eq!(base_token_total_supply(&U256::max(), &U256::zero()), U256::zero());
}

#[test]
fn next_slot_carries_and_wraps() {
    let mut bytes = [0u8; 32];
    bytes[31] = 0xff;
    bytes[30] = 0x01;
    let mut expected = [0u8; 32];
    expected[30] = 0x02;
    assert_eq!(next_slot(&Bytes32::from_array(bytes)).bytes, expected);
    assert_eq!(next_slot(&Bytes32::from_array([0xff; 32])).bytes, [0u8; 32]);
}

#[test]
fn supply_is_not_saved_before_genesis() {
    let mut storage = test_storage();
    let mut oracle = StateOracle::default();
    let mut resources = BaseResources::formal_infinite();
    let r = update_saved_total_supply(&mut storage, &mut resources, &contracts(), CHAIN_ID, &U256::zero(), &mut oracle);
    assert!(matches!(r, Ok(TotalSupplyUpdate::NotInitialized)));
    assert_eq!(storage.iter_as_storage_types().len(), 1);
}

#[test]
fn supply_saved_before_is_left_alone() {
    let c = contracts();
    let asset_id = Bytes32::from_array([0xaa; 32]);
    let migration = word(3);
    let mut oracle = StateOracle {
        slots: vec![
            (WarmStorageKey { address: c.asset_tracker, key: word(155) }, asset_id),
            (WarmStorageKey { address: c.chain_asset_handler, key: migration_slot() }, migration),
            (WarmStorageKey { address: c.asset_tracker, key: record_slot(&asset_id, &migration) }, word(1)),
        ],
        queries: vec![],
    };
    let mut storage = test_storage();
    let mut resources = BaseResources::formal_infinite();
    let r = update_saved_total_supply(&mut storage, &mut resources, &c, CHAIN_ID, &U256::zero(), &mut oracle);
    assert!(matches!(r, Ok(TotalSupplyUpdate::AlreadySaved)));
    assert_eq!(storage.net_diffs_iter().len(), 0);
}

#[test]
fn supply_is_saved_once_per_migration() {
    let c = contracts();
    let asset_id = Bytes32::from_array([0xaa; 32]);
    let migration = word(3);
    let holder = U256::from_limbs([u64::MAX - 500, 0x7fff_ffff_ffff_ffff, 0, 0]);
    let mut oracle = StateOracle {
        slots: vec![
            (WarmStorageKey { address: c.asset_tracker, key: word(155) }, asset_id),
            (WarmStorageKey { address: c.chain_asset_handler, key: migration_slot() }, migration),
            (WarmStorageKey { address: c.base_token, key: word(2) }, word(1000)),
        ],
        queries: vec![],
    };
    let mut storage = test_storage();
    let mut resources = BaseResources::formal_infinite();
    let r = update_saved_total_supply(&mut storage, &mut resources, &c, CHAIN_ID, &holder, &mut oracle);
    let record = record_slot(&asset_id, &migration);
    match r {
        Ok(TotalSupplyUpdate::Saved { slot, amount }) => {
            assert_eq!(slot, record);
            assert_eq!(amount, U256::from_u64(1500));
        }
        _ => panic!("the supply must be saved"),
    }
    assert_eq!(read(&mut storage, &mut oracle, c.asset_tracker, record), word(1));
    assert_eq!(read(&mut storage, &mut oracle, c.asset_tracker, next_slot(&record)), word(1500));
    assert_eq!(storage.net_diffs_iter().len(), 2);

    // A second mint in the same migration finds the record.
    let again = update_saved_total_supply(&mut storage, &mut resources, &c, CHAIN_ID, &holder, &mut oracle);
    assert!(matches!(again, Ok(TotalSupplyUpdate::AlreadySaved)));
}

/// A policy whose warm reads run out of ergs.
struct OutOfErgsPolicy;

impl StorageAccessPolicy for OutOfErgsPolicy {
    fn warm_read_charge(&self, _: ExecutionEnvironmentType, _: BaseResources) -> Result<BaseResources, SystemError> {
        Err(SystemError::LeafRuntime(zksync_os::errors::RuntimeError::OutOfErgs))
    }
    fn cold_read_extra_charge(&self, _: ExecutionEnvironmentType, resources: BaseResources, _: bool) -> Result<BaseResources, SystemError> {
        Ok(resources)
    }
    fn write_extra_charge(
        &self,
        _: ExecutionEnvironmentType,
        _: Bytes32,
        _: Bytes32,
        _: Bytes32,
        resources: BaseResources,
        _: bool,
        _: bool,
    ) -> Result<BaseResources, SystemError> {
        Ok(resources)
    }
    fn write_refund(
        &self,
        _: ExecutionEnvironmentType,
        _: Bytes32,
        _: Bytes32,
        _: Bytes32,
        resources: BaseResources,
        refund_counter: BaseResources,
    ) -> Result<(BaseResources, BaseResources), SystemError> {
        Ok((resources, refund_counter))
    }
    fn touch_charge(&self, resources: BaseResources) -> Result<BaseResources, SystemError> {
        Ok(resources)
    }
    fn charge_warm_storage_read(&self, _: ExecutionEnvironmentType, _: &mut BaseResources) -> Result<(), SystemError> {
        Err(SystemError::LeafRuntime(zksync_os::errors::RuntimeError::OutOfErgs))
    }
    fn charge_cold_storage_read_extra(&self, _: ExecutionEnvironmentType, _: &mut BaseResources, _: bool) -> Result<(), SystemError> {
        Ok(())
    }
    fn charge_storage_write_extra(
        &self,
        _: ExecutionEnvironmentType,
        _: &Bytes32,
        _: &Bytes32,
        _: &Bytes32,
        _: &mut BaseResources,
        _: bool,
        _: bool,
    ) -> Result<(), SystemError> {
        Ok(())
    }
    fn refund_for_storage_write(
        &self,
        _: ExecutionEnvironmentType,
        _: &Bytes32,
        _: &Bytes32,
        _: &Bytes32,
        _: &mut BaseResources,
        _: &mut BaseResources,
    ) -> Result<(), SystemError> {
        Ok(())
    }
    fn charge_access_list_storage_touch(&self, _: &mut BaseResources) -> Result<(), SystemError> {
        Ok(())
    }
}

#[test]
fn supply_update_passes_on_the_charge_error() {
    let c = contracts();
    let mut oracle = StateOracle { slots: vec![], queries: vec![] };
    let mut storage =
        NewStorageWithAccountPropertiesUnderHash(GenericPubdataAwarePlainStorage::new_from_parts(OutOfErgsPolicy));
    let mut resources = BaseResources::formal_infinite();
    let r = update_saved_total_supply(&mut storage, &mut resources, &c, CHAIN_ID, &U256::zero(), &mut oracle);
    assert!(matches!(r, Err(SystemError::LeafRuntime(zksync_os::errors::RuntimeError::OutOfErgs))));
    assert!(oracle.queries.is_empty());
}
