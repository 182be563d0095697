//! Bookkeeping of the base token's total supply in the asset tracker contract, which
//! the bootloader keeps up to date when it mints base tokens natively.
use vstd::prelude::*;

use crate::errors::SystemError;
use crate::flat_storage::NewStorageWithAccountPropertiesUnderHash;
use crate::hashing::{keccak256, keccak256_of};
use crate::interop::{push_word, word};
use crate::primitives::{be_nat, lemma_be_nat_len_bound, Bytes32, B160};
use crate::resources::BaseResources;
use crate::storage_cache::{
    access_error, materialize_outcome, oracle_answers, policy_never_fails, oracle_acceptable, same_answers, slot_state, ExecutionEnvironmentType, GenericPubdataAwarePlainStorage,
    InitialStorageSlotOracle, StorageAccessPolicy, TransactionId, WarmStorageKey,
};
use crate::rlp::take32;
use crate::u256::{checked_add, checked_sub, from_be_bytes, modulus256, to_be_bytes, U256};

verus! {

/// The asset tracker's slot of the base token's asset id.
pub const BASE_TOKEN_ASSET_ID_SLOT: u64 = 155;

/// The asset tracker's base slot of `savedTotalSupply[migrationNumber][assetId]`.
pub const SAVED_TOTAL_SUPPLY_SLOT: u64 = 156;

/// The chain asset handler's base slot of `migrationNumber[chainId]`.
pub const MIGRATION_NUMBER_SLOT: u64 = 207;

/// The base token contract's slot of the supply minted before the v31 upgrade.
pub const PRE_V31_TOTAL_SUPPLY_SLOT: u64 = 2;

/// The word of a 64-bit number.
pub fn word_of(v: u64) -> (r: Bytes32)
    ensures
        r@ == word(v as nat),
{
    let mut out: Vec<u8> = Vec::new();
    push_word(&mut out, v);
    match take32(out.as_slice(), 0, 32) {
        Some(bytes) => {
            assert(out@.subrange(0, 32) =~= out@);
            Bytes32 { bytes }
        },
        None => Bytes32::zero(),
    }
}

/// The slot of `mapping[key]` in a Solidity mapping at `base_slot`.
pub open spec fn mapping_slot(key: Seq<u8>, base_slot: nat) -> Seq<u8> {
    keccak256_of(key + word(base_slot))
}

/// `keccak256(abi.encode(key, base_slot))`: the slot of `mapping[key]` in a Solidity
/// mapping at `base_slot`.
pub fn solidity_mapping_slot(key: &[u8; 32], base_slot: u64) -> (r: Bytes32)
    ensures
        r@ == mapping_slot(key@, base_slot as nat),
{
    let mut data: Vec<u8> = Vec::new();
    let mut i: usize = 0;
    while i < 32
        invariant
            i <= 32,
            data@ == key@.subrange(0, i as int),
        decreases 32 - i,
    {
        data.push(key[i]);
        i = i + 1;
        assert(data@ =~= key@.subrange(0, i as int));
    }
    assert(key@.subrange(0, 32) =~= key@);
    push_word(&mut data, base_slot);
    keccak256(data.as_slice())
}

/// The slot where the record `savedTotalSupply[migration_number][asset_id]` begins.
pub open spec fn saved_total_supply_slot(migration_number: Seq<u8>, asset_id: Seq<u8>) -> Seq<u8> {
    keccak256_of(asset_id + mapping_slot(migration_number, SAVED_TOTAL_SUPPLY_SLOT as nat))
}

/// The base token holder's balance at genesis: `2^127 - 1`.
pub open spec fn initial_holder_balance() -> nat {
    0x7fff_ffff_ffff_ffff_ffff_ffff_ffff_ffff
}

/// The total supply: what was minted before v31 plus what the holder has given out
/// since genesis; a holder above its genesis balance counts as nothing given out, and
/// a sum that does not fit 256 bits counts as zero.
pub open spec fn total_supply_value(pre_v31_supply: nat, holder_balance: nat) -> nat {
    let given_out = if holder_balance <= initial_holder_balance() {
        (initial_holder_balance() - holder_balance) as nat
    } else {
        0
    };
    if pre_v31_supply + given_out < modulus256() {
        pre_v31_supply + given_out
    } else {
        0
    }
}

/// The base token's total supply from the pre-v31 supply and the holder's balance.
pub fn base_token_total_supply(pre_v31_supply: &U256, holder_balance: &U256) -> (r: U256)
    ensures
        r.value() == total_supply_value(pre_v31_supply.value(), holder_balance.value()),
{
    let initial = U256::from_limbs([0xffff_ffff_ffff_ffff, 0x7fff_ffff_ffff_ffff, 0, 0]);
    assert(initial.value() == initial_holder_balance()) by {
        assert(crate::u256::two64() == 0x1_0000_0000_0000_0000);
    }
    let given_out = match checked_sub(&initial, holder_balance) {
        Some(d) => d,
        None => U256::zero(),
    };
    match checked_add(pre_v31_supply, &given_out) {
        Some(s) => s,
        None => U256::zero(),
    }
}

/// The slot after `slot`, modulo `2^256`.
pub fn next_slot(slot: &Bytes32) -> (r: Bytes32)
    ensures
        r@.len() == 32,
        be_nat(r@) == (be_nat(slot@) + 1) % modulus256(),
{
    let v = from_be_bytes(slot);
    let one = U256::from_u64(1);
    let next = match checked_add(&v, &one) {
        Some(n) => n,
        None => U256::zero(),
    };
    proof {
        crate::u256::lemma_limbs_value_bound(v.limbs);
        let m = modulus256();
        if v.value() + 1 < m {
            vstd::arithmetic::div_mod::lemma_small_mod((v.value() + 1) as nat, m);
        } else {
            assert(v.value() + 1 == m);
            vstd::arithmetic::div_mod::lemma_mod_self_0(m as int);
        }
    }
    to_be_bytes(&next)
}

/// The system contracts whose storage the supply bookkeeping reads and writes.
#[derive(Clone, Copy, Debug)]
pub struct SupplyContracts {
    pub asset_tracker: B160,
    pub chain_asset_handler: B160,
    pub base_token: B160,
}

/// What an update of the saved total supply did.
#[derive(Clone, Copy, Debug)]
pub enum TotalSupplyUpdate {
    /// The asset tracker has no base token asset id yet (before the genesis upgrade).
    NotInitialized,
    /// The supply for the current migration was saved before.
    AlreadySaved,
    /// The supply `amount` was saved in the record that begins at `slot`.
    Saved { slot: Bytes32, amount: U256 },
}

/// The all-zero word.
pub open spec fn zero_word() -> Seq<u8> {
    Seq::new(32, |i: int| 0u8)
}

/// Slot `key` of `address` has `value` in the state that `storage` and `oracle` make up.
pub open spec fn slot_value_is<P: StorageAccessPolicy, O: InitialStorageSlotOracle>(
    storage: GenericPubdataAwarePlainStorage<P>,
    oracle: O,
    address: B160,
    key: Seq<u8>,
    value: Seq<u8>,
) -> bool {
    exists|k: WarmStorageKey|
        #![trigger slot_state(storage, oracle, k)]
        k.address == address && k.key@ == key && (slot_state(storage, oracle, k) matches Some(v)
            && v@ == value)
}

/// Every slot has the same value in both states.
pub open spec fn same_state<P: StorageAccessPolicy, O: InitialStorageSlotOracle>(
    s1: GenericPubdataAwarePlainStorage<P>,
    o1: O,
    s0: GenericPubdataAwarePlainStorage<P>,
    o0: O,
) -> bool {
    forall|k: WarmStorageKey| #[trigger] slot_state(s1, o1, k) == slot_state(s0, o0, k)
}

/// A read of slot `k` that returned `v`, the slot's value, changes no slot's value.
proof fn lemma_read_keeps_state<P: StorageAccessPolicy, O: InitialStorageSlotOracle>(
    s0: GenericPubdataAwarePlainStorage<P>,
    s1: GenericPubdataAwarePlainStorage<P>,
    o0: O,
    o1: O,
    k: WarmStorageKey,
    v: Bytes32,
    tx: TransactionId,
)
    requires
        forall|k2: WarmStorageKey| k2 != k ==> s1.item(k2) == s0.item(k2),
        s1.item(k) matches Some(n) && n.current.value == Some(v) && exists|w: bool|
            materialize_outcome(s0.item(k), n, k, tx, w),
        slot_state(s0, o0, k) == Some(v),
        same_answers(o1, o0),
    ensures
        same_state(s1, o1, s0, o0),
{
    assert forall|k2: WarmStorageKey| #[trigger] slot_state(s1, o1, k2) == slot_state(s0, o0, k2) by {
        assert(o1.initial_slot_data(k2) == o0.initial_slot_data(k2));
        if k2 == k {
            let n = s1.item(k)->0;
            let w = choose|w: bool| materialize_outcome(s0.item(k), n, k, tx, w);
            assert(materialize_outcome(s0.item(k), n, k, tx, w));
        }
    }
}

/// A write of slot `k` changes no other slot's value.
proof fn lemma_write_keeps_others<P: StorageAccessPolicy, O: InitialStorageSlotOracle>(
    s0: GenericPubdataAwarePlainStorage<P>,
    s1: GenericPubdataAwarePlainStorage<P>,
    o0: O,
    o1: O,
    k: WarmStorageKey,
)
    requires
        forall|k2: WarmStorageKey| k2 != k ==> s1.item(k2) == s0.item(k2),
        same_answers(o1, o0),
    ensures
        forall|k2: WarmStorageKey|
            k2 != k ==> #[trigger] slot_state(s1, o1, k2) == slot_state(s0, o0, k2),
{
    assert forall|k2: WarmStorageKey| k2 != k implies #[trigger] slot_state(s1, o1, k2) == slot_state(
        s0,
        o0,
        k2,
    ) by {
        assert(o1.initial_slot_data(k2) == o0.initial_slot_data(k2));
    }
}

/// Records the base token's total supply for the current migration in the asset
/// tracker, unless the tracker has no base token yet or the supply is already saved:
/// reads the asset id (slot 155 of the tracker), the chain's migration number
/// (`migrationNumber[chain_id]` at base slot 207 of the chain asset handler) and the
/// record's flag, then writes the flag and, in the next slot, the supply computed from
/// the pre-v31 supply (slot 2 of the base token) and `holder_balance`, the base token
/// holder's balance. Only the two record slots are written, and only when the supply
/// is saved.
pub fn update_saved_total_supply<P: StorageAccessPolicy, O: InitialStorageSlotOracle>(
    storage: &mut NewStorageWithAccountPropertiesUnderHash<P>,
    resources: &mut BaseResources,
    contracts: &SupplyContracts,
    chain_id: u64,
    holder_balance: &U256,
    oracle: &mut O,
) -> (r: Result<TotalSupplyUpdate, SystemError>)
    requires
        old(storage).0.inv(),
        oracle_acceptable(*old(oracle)),
    ensures
        final(storage).0.inv(),
        final(storage).0.extends(&old(storage).0),
        final(storage).0.tx_id() == old(storage).0.tx_id(),
        same_answers(*final(oracle), *old(oracle)),
        final(storage).0.policy() == old(storage).0.policy(),
        r matches Err(e) ==> access_error(old(storage).0.policy(), e),
        policy_never_fails(old(storage).0.policy()) && oracle_answers(*old(oracle)) ==> (r is Ok),
        r matches Ok(TotalSupplyUpdate::NotInitialized) ==> {
            &&& slot_value_is(
                old(storage).0,
                *old(oracle),
                contracts.asset_tracker,
                word(BASE_TOKEN_ASSET_ID_SLOT as nat),
                zero_word(),
            )
            &&& same_state(final(storage).0, *final(oracle), old(storage).0, *old(oracle))
        },
        r matches Ok(TotalSupplyUpdate::AlreadySaved) ==> exists|
            asset_id: Seq<u8>,
            migration_number: Seq<u8>,
            flag: Seq<u8>,
        |
            {
                &&& asset_id != zero_word()
                &&& flag != zero_word()
                &&& slot_value_is(
                    old(storage).0,
                    *old(oracle),
                    contracts.asset_tracker,
                    word(BASE_TOKEN_ASSET_ID_SLOT as nat),
                    asset_id,
                )
                &&& slot_value_is(
                    old(storage).0,
                    *old(oracle),
                    contracts.chain_asset_handler,
                    mapping_slot(word(chain_id as nat), MIGRATION_NUMBER_SLOT as nat),
                    migration_number,
                )
                &&& slot_value_is(
                    old(storage).0,
                    *old(oracle),
                    contracts.asset_tracker,
                    saved_total_supply_slot(migration_number, asset_id),
                    flag,
                )
                &&& same_state(final(storage).0, *final(oracle), old(storage).0, *old(oracle))
            },
        r matches Ok(TotalSupplyUpdate::Saved { slot, amount }) ==> exists|
            asset_id: Seq<u8>,
            migration_number: Seq<u8>,
            pre_v31_supply: Seq<u8>,
        |
            {
                &&& asset_id != zero_word()
                &&& slot_value_is(
                    old(storage).0,
                    *old(oracle),
                    contracts.asset_tracker,
                    word(BASE_TOKEN_ASSET_ID_SLOT as nat),
                    asset_id,
                )
                &&& slot_value_is(
                    old(storage).0,
                    *old(oracle),
                    contracts.chain_asset_handler,
                    mapping_slot(word(chain_id as nat), MIGRATION_NUMBER_SLOT as nat),
                    migration_number,
                )
                &&& slot@ == saved_total_supply_slot(migration_number, asset_id)
                &&& slot_value_is(
                    old(storage).0,
                    *old(oracle),
                    contracts.asset_tracker,
                    slot@,
                    zero_word(),
                )
                &&& slot_value_is(
                    old(storage).0,
                    *old(oracle),
                    contracts.base_token,
                    word(PRE_V31_TOTAL_SUPPLY_SLOT as nat),
                    pre_v31_supply,
                )
                &&& amount.value() == total_supply_value(
                    be_nat(pre_v31_supply),
                    holder_balance.value(),
                )
                &&& slot_value_is(
                    final(storage).0,
                    *final(oracle),
                    contracts.asset_tracker,
                    slot@,
                    word(1),
                )
                &&& exists|amount_slot: Bytes32, stored: Bytes32|
                    {
                        &&& be_nat(amount_slot@) == (be_nat(slot@) + 1) % modulus256()
                        &&& be_nat(stored@) == amount.value()
                        &&& slot_value_is(
                            final(storage).0,
                            *final(oracle),
                            contracts.asset_tracker,
                            amount_slot@,
                            stored@,
                        )
                        &&& forall|k: WarmStorageKey|
                            !(k.address == contracts.asset_tracker && (k.key == slot || k.key
                                == amount_slot)) ==> #[trigger] slot_state(
                                final(storage).0,
                                *final(oracle),
                                k,
                            ) == slot_state(old(storage).0, *old(oracle), k)
                    }
            },
{
    let ee = ExecutionEnvironmentType::EVM;
    let tracker = contracts.asset_tracker;
    let ghost s0 = storage.0;
    let ghost o0 = *oracle;
    let asset_key = word_of(BASE_TOKEN_ASSET_ID_SLOT);
    let ghost k1 = WarmStorageKey { address: tracker, key: asset_key };
    let asset_id = match storage.read(ee, resources, &tracker, &asset_key, oracle) {
        Ok(v) => v,
        Err(e) => {
            return Err(e);
        },
    };
    let ghost s1 = storage.0;
    let ghost o1 = *oracle;
    proof {
        lemma_read_keeps_state(s0, s1, o0, o1, k1, asset_id, s0.tx_id());
        assert(slot_state(s0, o0, k1) == Some(asset_id));
    }
    if asset_id.is_zero() {
        return Ok(TotalSupplyUpdate::NotInitialized);
    }
    let chain_word = word_of(chain_id);
    let migration_slot = solidity_mapping_slot(&chain_word.bytes, MIGRATION_NUMBER_SLOT);
    let ghost k2 = WarmStorageKey { address: contracts.chain_asset_handler, key: migration_slot };
    let migration_number = match storage.read(
        ee,
        resources,
        &contracts.chain_asset_handler,
        &migration_slot,
        oracle,
    ) {
        Ok(v) => v,
        Err(e) => {
            proof {
                storage.0.lemma_extends_trans(&s1, &s0);
            }
            return Err(e);
        },
    };
    let ghost s2 = storage.0;
    let ghost o2 = *oracle;
    proof {
        s2.lemma_extends_trans(&s1, &s0);
        lemma_read_keeps_state(s1, s2, o1, o2, k2, migration_number, s1.tx_id());
        assert(slot_state(s0, o0, k2) == Some(migration_number));
    }
    let level1 = solidity_mapping_slot(&migration_number.bytes, SAVED_TOTAL_SUPPLY_SLOT);
    let mut preimage: Vec<u8> = Vec::new();
    let mut i: usize = 0;
    while i < 32
        invariant
            i <= 32,
            preimage@ == asset_id@.subrange(0, i as int),
        decreases 32 - i,
    {
        preimage.push(asset_id.bytes[i]);
        i = i + 1;
        assert(preimage@ =~= asset_id@.subrange(0, i as int));
    }
    let mut j: usize = 0;
    while j < 32
        invariant
            j <= 32,
            preimage@ == asset_id@ + level1@.subrange(0, j as int),
        decreases 32 - j,
    {
        preimage.push(level1.bytes[j]);
        j = j + 1;
        assert(preimage@ =~= asset_id@ + level1@.subrange(0, j as int));
    }
    assert(asset_id@.subrange(0, 32) =~= asset_id@);
    assert(level1@.subrange(0, 32) =~= level1@);
    let slot = keccak256(preimage.as_slice());
    assert(slot@ == saved_total_supply_slot(migration_number@, asset_id@));
    let ghost k3 = WarmStorageKey { address: tracker, key: slot };
    let flag = match storage.read(ee, resources, &tracker, &slot, oracle) {
        Ok(v) => v,
        Err(e) => {
            proof {
                storage.0.lemma_extends_trans(&s2, &s0);
            }
            return Err(e);
        },
    };
    let ghost s3 = storage.0;
    let ghost o3 = *oracle;
    proof {
        s3.lemma_extends_trans(&s2, &s0);
        lemma_read_keeps_state(s2, s3, o2, o3, k3, flag, s2.tx_id());
        assert(slot_state(s0, o0, k3) == Some(flag));
        assert(slot_state(s0, o0, k1) == Some(asset_id));
    }
    if !flag.is_zero() {
        proof {
            assert(same_state(s3, o3, s0, o0)) by {
                assert forall|k: WarmStorageKey| #[trigger] slot_state(s3, o3, k) == slot_state(
                    s0,
                    o0,
                    k,
                ) by {
                    assert(slot_state(s3, o3, k) == slot_state(s2, o2, k));
                    assert(slot_state(s2, o2, k) == slot_state(s1, o1, k));
                }
            }
            assert(slot_value_is(s0, o0, tracker, word(BASE_TOKEN_ASSET_ID_SLOT as nat), asset_id@));
            assert(slot_value_is(
                s0,
                o0,
                contracts.chain_asset_handler,
                mapping_slot(word(chain_id as nat), MIGRATION_NUMBER_SLOT as nat),
                migration_number@,
            ));
            assert(slot_value_is(
                s0,
                o0,
                tracker,
                saved_total_supply_slot(migration_number@, asset_id@),
                flag@,
            ));
        }
        return Ok(TotalSupplyUpdate::AlreadySaved);
    }
    let pre_key = word_of(PRE_V31_TOTAL_SUPPLY_SLOT);
    let ghost k4 = WarmStorageKey { address: contracts.base_token, key: pre_key };
    let pre_bytes = match storage.read(ee, resources, &contracts.base_token, &pre_key, oracle) {
        Ok(v) => v,
        Err(e) => {
            proof {
                storage.0.lemma_extends_trans(&s3, &s0);
            }
            return Err(e);
        },
    };
    let ghost s4 = storage.0;
    let ghost o4 = *oracle;
    proof {
        s4.lemma_extends_trans(&s3, &s0);
        lemma_read_keeps_state(s3, s4, o3, o4, k4, pre_bytes, s3.tx_id());
        assert(slot_state(s0, o0, k4) == Some(pre_bytes));
    }
    let pre_v31_supply = from_be_bytes(&pre_bytes);
    let total_supply = base_token_total_supply(&pre_v31_supply, holder_balance);
    let one = word_of(1);
    if let Err(e) = storage.write(ee, resources, &tracker, &slot, &one, oracle) {
        proof {
            storage.0.lemma_extends_trans(&s4, &s0);
        }
        return Err(e);
    }
    let ghost s5 = storage.0;
    let ghost o5 = *oracle;
    proof {
        s5.lemma_extends_trans(&s4, &s0);
        lemma_write_keeps_others(s4, s5, o4, o5, k3);
        assert(s5.item(k3) matches Some(n) && n.properties.observed && n.current.value == Some(one));
        assert(slot_state(s5, o5, k3) == Some(one));
    }
    let amount_slot = next_slot(&slot);
    let stored = to_be_bytes(&total_supply);
    let ghost k6 = WarmStorageKey { address: tracker, key: amount_slot };
    if let Err(e) = storage.write(ee, resources, &tracker, &amount_slot, &stored, oracle) {
        proof {
            storage.0.lemma_extends_trans(&s5, &s0);
        }
        return Err(e);
    }
    let ghost s6 = storage.0;
    let ghost o6 = *oracle;
    proof {
        s6.lemma_extends_trans(&s5, &s0);
        lemma_write_keeps_others(s5, s6, o5, o6, k6);
        assert(k6 != k3) by {
            lemma_be_nat_len_bound(slot@);
            if amount_slot@ == slot@ {
                assert(be_nat(slot@) < modulus256()) by {
                    assert(crate::primitives::pow256(32) == modulus256()) by {
                        crate::crypto::lemma_pow256_32();
                    }
                }
                assert(false) by {
                    if be_nat(slot@) + 1 < modulus256() {
                        vstd::arithmetic::div_mod::lemma_small_mod(
                            (be_nat(slot@) + 1) as nat,
                            modulus256(),
                        );
                    } else {
                        vstd::arithmetic::div_mod::lemma_mod_self_0(modulus256() as int);
                    }
                }
            }
        }
        assert(slot_state(s6, o6, k3) == Some(one));
        assert(s6.item(k6) matches Some(n) && n.properties.observed && n.current.value == Some(
            stored,
        ));
        assert(slot_state(s6, o6, k6) == Some(stored));
        assert(slot_value_is(s6, o6, tracker, slot@, word(1)));
        assert(slot_value_is(s6, o6, tracker, amount_slot@, stored@));
        assert(slot_value_is(s0, o0, tracker, slot@, zero_word()));
        assert(slot_value_is(s0, o0, tracker, word(BASE_TOKEN_ASSET_ID_SLOT as nat), asset_id@));
        assert(slot_value_is(
            s0,
            o0,
            contracts.chain_asset_handler,
            mapping_slot(word(chain_id as nat), MIGRATION_NUMBER_SLOT as nat),
            migration_number@,
        ));
        assert(slot_value_is(
            s0,
            o0,
            contracts.base_token,
            word(PRE_V31_TOTAL_SUPPLY_SLOT as nat),
            pre_bytes@,
        ));
    }
    Ok(TotalSupplyUpdate::Saved { slot, amount: total_supply })
}

} // verus!
