//! Storage model in which account properties live under hashed keys of a special
//! account, and the pubdata a transaction produces is accounted per slot.
use vstd::prelude::*;

use crate::errors::{InternalError, SystemError};
use crate::primitives::{
    account_properties_address_bytes, account_properties_storage_address, Bytes32, B160,
};
use crate::resources::BaseResources;
use crate::storage_cache::{
    committed_item, materialize_failure, materialize_outcome, storage_value_of, touch_outcome,
    written_item, CacheItem, ExecutionEnvironmentType, GenericPubdataAwarePlainStorage,
    InitialStorageSlotOracle, StorageAccessPolicy, answer_acceptable, needs_initial_value,
    same_answers, slot_state, StorageSnapshotId, TransactionId, access_error, charge_result,
    materialize_charges, policy_never_fails, queried_once, write_charged, write_charges,
    WarmStorageKey, WarmStorageValue,
};

verus! {

/// The storage key under which the properties hash of `address` is kept: the address,
/// left-padded with zeros to 32 bytes.
pub fn address_into_special_storage_key(address: &B160) -> (r: Bytes32)
    ensures
        r@ == Seq::new(12, |i: int| 0u8) + address@,
{
    let mut b = [0u8; 32];
    let mut i: usize = 0;
    while i < 20
        invariant
            0 <= i <= 20,
            b@.len() == 32,
            address@.len() == 20,
            forall|j: int| 0 <= j < 12 ==> b@[j] == 0u8,
            forall|j: int| 0 <= j < i ==> b@[12 + j] == address@[j],
        decreases 20 - i,
    {
        b[12 + i] = address.bytes[i];
        i = i + 1;
    }
    let r = Bytes32 { bytes: b };
    assert(r@ =~= Seq::new(12, |i: int| 0u8) + address@);
    r
}

/// Whether a reported entry ends away from its initial value.
pub open spec fn changed_entry() -> spec_fn((WarmStorageKey, WarmStorageValue)) -> bool {
    |x: (WarmStorageKey, WarmStorageValue)| x.1.current_value != x.1.initial_value
}

/// Storage whose account properties are kept under hashes in a special account.
pub struct NewStorageWithAccountPropertiesUnderHash<P>(pub GenericPubdataAwarePlainStorage<P>);

impl<P: StorageAccessPolicy> NewStorageWithAccountPropertiesUnderHash<P> {
    pub fn read<O: InitialStorageSlotOracle>(
        &mut self,
        ee_type: ExecutionEnvironmentType,
        resources: &mut BaseResources,
        address: &B160,
        key: &Bytes32,
        oracle: &mut O,
    ) -> (r: Result<Bytes32, SystemError>)
        requires
            old(self).0.inv(),
            ({
                let k = WarmStorageKey { address: *address, key: *key };
                needs_initial_value(old(self).0.item(k)) ==> answer_acceptable(
                    old(oracle).initial_slot_data(k),
                )
            }),
        ensures
            final(self).0.inv(),
            final(self).0.extends(&old(self).0),
            final(self).0.tx_id() == old(self).0.tx_id(),
            same_answers(*final(oracle), *old(oracle)),
            ({
                let k = WarmStorageKey { address: *address, key: *key };
                &&& forall|k2: WarmStorageKey| k2 != k ==> final(self).0.item(k2) == old(self).0.item(k2)
                &&& r matches Ok(v) ==> final(self).0.item(k) matches Some(n) && n.current.value == Some(v)
                    && exists|w: bool| materialize_outcome(old(self).0.item(k), n, k, old(self).0.tx_id(), w)
                &&& r matches Ok(v) ==> (needs_initial_value(old(self).0.item(k)) ==> (old(
                    oracle,
                ).initial_slot_data(k) matches Ok(d) && v == d.initial_value))
                &&& r matches Ok(v) ==> slot_state(old(self).0, *old(oracle), k) == Some(v)
                &&& r is Err ==> materialize_failure(old(self).0.item(k), final(self).0.item(k))
            }),
            final(self).0.policy() == old(self).0.policy(),
            charge_result(
                materialize_charges(
                    old(self).0.policy(),
                    ee_type,
                    *old(resources),
                    old(self).0.item(WarmStorageKey { address: *address, key: *key }),
                    old(oracle).initial_slot_data(WarmStorageKey { address: *address, key: *key }),
                    old(self).0.tx_id(),
                ),
                r,
                *final(resources),
            ),
            policy_never_fails(old(self).0.policy()) && (needs_initial_value(
                old(self).0.item(WarmStorageKey { address: *address, key: *key }),
            ) ==> old(oracle).initial_slot_data(WarmStorageKey { address: *address, key: *key })
                is Ok) ==> (r is Ok),
            r matches Err(e) ==> access_error(old(self).0.policy(), e),
            queried_once(
                *old(oracle),
                *final(oracle),
                WarmStorageKey { address: *address, key: *key },
                needs_initial_value(old(self).0.item(WarmStorageKey { address: *address, key: *key }))
                    && old(self).0.policy().warm_read_charge(ee_type, *old(resources)) is Ok,
            ),
    {
        let k = WarmStorageKey { address: *address, key: *key };
        self.0.apply_read_impl(ee_type, &k, resources, oracle)
    }

    pub fn touch(
        &mut self,
        ee_type: ExecutionEnvironmentType,
        resources: &mut BaseResources,
        address: &B160,
        key: &Bytes32,
    ) -> (r: Result<(), SystemError>)
        requires
            old(self).0.inv(),
        ensures
            final(self).0.inv(),
            final(self).0.extends(&old(self).0),
            final(self).0.tx_id() == old(self).0.tx_id(),
            ({
                let k = WarmStorageKey { address: *address, key: *key };
                &&& forall|k2: WarmStorageKey| k2 != k ==> final(self).0.item(k2) == old(self).0.item(k2)
                &&& r is Err ==> final(self).0.item(k) == old(self).0.item(k)
                &&& r is Ok ==> final(self).0.item(k) == Some(touch_outcome(old(self).0.item(k), k, old(self).0.tx_id()))
            }),
            final(self).0.policy() == old(self).0.policy(),
            charge_result(old(self).0.policy().touch_charge(*old(resources)), r, *final(resources)),
    {
        let k = WarmStorageKey { address: *address, key: *key };
        self.0.touch_impl(&k, resources)
    }

    /// Writes a slot and returns its value before the write.
    pub fn write<O: InitialStorageSlotOracle>(
        &mut self,
        ee_type: ExecutionEnvironmentType,
        resources: &mut BaseResources,
        address: &B160,
        key: &Bytes32,
        new_value: &Bytes32,
        oracle: &mut O,
    ) -> (r: Result<Bytes32, SystemError>)
        requires
            old(self).0.inv(),
            ({
                let k = WarmStorageKey { address: *address, key: *key };
                needs_initial_value(old(self).0.item(k)) ==> answer_acceptable(
                    old(oracle).initial_slot_data(k),
                )
            }),
        ensures
            final(self).0.inv(),
            final(self).0.extends(&old(self).0),
            final(self).0.tx_id() == old(self).0.tx_id(),
            same_answers(*final(oracle), *old(oracle)),
            ({
                let k = WarmStorageKey { address: *address, key: *key };
                &&& forall|k2: WarmStorageKey| k2 != k ==> final(self).0.item(k2) == old(self).0.item(k2)
                &&& r matches Ok(old_value) ==> (needs_initial_value(old(self).0.item(k)) ==> (old(
                    oracle,
                ).initial_slot_data(k) matches Ok(d) && old_value == d.initial_value))
                &&& r matches Ok(old_value) ==> exists|m: CacheItem, w: bool|
                {
                    &&& materialize_outcome(old(self).0.item(k), m, k, old(self).0.tx_id(), w)
                    &&& final(self).0.item(k) == Some(written_item(m, *new_value))
                    &&& m.current.value == Some(old_value)
                }
            }),
            final(self).0.policy() == old(self).0.policy(),
            policy_never_fails(old(self).0.policy()) && (needs_initial_value(
                old(self).0.item(WarmStorageKey { address: *address, key: *key }),
            ) ==> old(oracle).initial_slot_data(WarmStorageKey { address: *address, key: *key })
                is Ok) ==> (r is Ok),
            r matches Err(e) ==> access_error(old(self).0.policy(), e),
            queried_once(
                *old(oracle),
                *final(oracle),
                WarmStorageKey { address: *address, key: *key },
                needs_initial_value(old(self).0.item(WarmStorageKey { address: *address, key: *key }))
                    && old(self).0.policy().warm_read_charge(ee_type, *old(resources)) is Ok,
            ),
            match materialize_charges(
                old(self).0.policy(),
                ee_type,
                *old(resources),
                old(self).0.item(WarmStorageKey { address: *address, key: *key }),
                old(oracle).initial_slot_data(WarmStorageKey { address: *address, key: *key }),
                old(self).0.tx_id(),
            ) {
                Err(e) => r matches Err(e2) && e2 == e,
                Ok(after_read) => exists|m: CacheItem, w: bool|
                    {
                        &&& materialize_outcome(old(self).0.item(WarmStorageKey { address: *address, key: *key }), m, WarmStorageKey { address: *address, key: *key }, old(self).0.tx_id(), w)
                        &&& write_charged(
                            write_charges(
                                old(self).0.policy(),
                                ee_type,
                                after_read,
                                m,
                                w,
                                *new_value,
                                old(self).0.refund_counter(),
                            ),
                            r,
                            *final(resources),
                            final(self).0.refund_counter(),
                        )
                    },
            },
    {
        let k = WarmStorageKey { address: *address, key: *key };
        match self.0.apply_write_impl(ee_type, &k, new_value, oracle, resources) {
            Ok((old_value, _val_at_tx_start)) => Ok(old_value),
            Err(e) => Err(e),
        }
    }

    /// Reads the properties hash of `address`.
    pub fn read_special_account_property<O: InitialStorageSlotOracle>(
        &mut self,
        ee_type: ExecutionEnvironmentType,
        resources: &mut BaseResources,
        address: &B160,
        oracle: &mut O,
    ) -> (r: Result<Bytes32, SystemError>)
        requires
            old(self).0.inv(),
            forall|k: WarmStorageKey|
                k.address@ == account_properties_address_bytes() && k.key@ == Seq::new(
                    12,
                    |i: int| 0u8,
                ) + address@ ==> (needs_initial_value(#[trigger] old(self).0.item(k))
                    ==> answer_acceptable(old(oracle).initial_slot_data(k))),
        ensures
            same_answers(*final(oracle), *old(oracle)),
            final(self).0.inv(),
            final(self).0.extends(&old(self).0),
            r matches Ok(v) ==> exists|k: WarmStorageKey|
                {
                    &&& k.address@ == account_properties_address_bytes()
                    &&& k.key@ == Seq::new(12, |i: int| 0u8) + address@
                    &&& final(self).0.item(k) matches Some(n) && n.current.value == Some(v)
                },
    {
        let key = address_into_special_storage_key(address);
        let k = WarmStorageKey { address: account_properties_storage_address(), key };
        let r = self.0.apply_read_impl(ee_type, &k, resources, oracle);
        proof {
            if r is Ok {
                assert(k.address@ == account_properties_address_bytes());
            }
        }
        r
    }

    /// Writes the properties hash of `address`; returns the previous one.
    pub fn write_special_account_property<O: InitialStorageSlotOracle>(
        &mut self,
        ee_type: ExecutionEnvironmentType,
        resources: &mut BaseResources,
        address: &B160,
        new_value: &Bytes32,
        oracle: &mut O,
    ) -> (r: Result<Bytes32, SystemError>)
        requires
            old(self).0.inv(),
            forall|k: WarmStorageKey|
                k.address@ == account_properties_address_bytes() && k.key@ == Seq::new(
                    12,
                    |i: int| 0u8,
                ) + address@ ==> (needs_initial_value(#[trigger] old(self).0.item(k))
                    ==> answer_acceptable(old(oracle).initial_slot_data(k))),
        ensures
            same_answers(*final(oracle), *old(oracle)),
            final(self).0.inv(),
            final(self).0.extends(&old(self).0),
            r is Ok ==> exists|k: WarmStorageKey|
                {
                    &&& k.address@ == account_properties_address_bytes()
                    &&& k.key@ == Seq::new(12, |i: int| 0u8) + address@
                    &&& final(self).0.item(k) matches Some(n) && n.current.value == Some(*new_value)
                },
    {
        let key = address_into_special_storage_key(address);
        let k = WarmStorageKey { address: account_properties_storage_address(), key };
        let (old_value, _) = self.0.apply_write_impl(ee_type, &k, new_value, oracle, resources)?;
        assert(k.address@ == account_properties_address_bytes());
        Ok(old_value)
    }

    pub fn begin_new_tx(&mut self)
        requires
            old(self).0.inv(),
        ensures
            final(self).0.inv(),
            final(self).0.tx_id() == old(self).0.tx_id(),
            final(self).0.history_len() == 0,
            forall|k: WarmStorageKey|
                #![trigger final(self).0.item(k)]
                final(self).0.item(k) == match old(self).0.item(k) {
                    Some(o) => Some(committed_item(o)),
                    None => None,
                },
    {
        self.0.begin_new_tx();
    }

    pub fn finish_tx(&mut self) -> (r: Result<(), InternalError>)
        requires
            old(self).0.inv(),
            old(self).0.tx_id().0 < u32::MAX,
        ensures
            r is Ok,
            final(self).0.inv(),
            final(self).0.tx_id() == TransactionId((old(self).0.tx_id().0 + 1) as u32),
            forall|k: WarmStorageKey| final(self).0.item(k) == old(self).0.item(k),
    {
        self.0.finish_tx();
        Ok(())
    }

    pub fn start_frame(&self) -> (r: StorageSnapshotId)
        ensures
            r.cache == self.0.history_len(),
            r.evm_refunds_counter == self.0.refund_history_len(),
    {
        self.0.start_frame()
    }

    pub fn finish_frame(&mut self, rollback_handle: Option<&StorageSnapshotId>) -> (r: Result<
        (),
        InternalError,
    >)
        requires
            old(self).0.inv(),
        ensures
            final(self).0.inv(),
            rollback_handle is None ==> r is Ok && final(self).0 == old(self).0,
            rollback_handle matches Some(h) ==> {
                &&& (h.cache <= old(self).0.history_len() ==> {
                    &&& r is Ok
                    &&& final(self).0.history_len() == h.cache
                    &&& forall|k: WarmStorageKey|
                        final(self).0.item(k) == old(self).0.item_at(k, h.cache as nat)
                })
                &&& (h.cache > old(self).0.history_len() ==> {
                    &&& r == Err::<(), InternalError>(InternalError::InvalidSnapshot)
                    &&& forall|k: WarmStorageKey| final(self).0.item(k) == old(self).0.item(k)
                })
            },
    {
        self.0.finish_frame_impl(rollback_handle)
    }

    /// All observed slots with their current and initial values; touched-only slots are
    /// left out.
    pub fn iter_as_storage_types(&self) -> (r: Vec<(WarmStorageKey, WarmStorageValue)>)
        requires
            self.0.inv(),
        ensures
            forall|k: WarmStorageKey, v: WarmStorageValue|
                r@.contains((k, v)) <==> (self.0.item(k) matches Some(it) && it.properties.observed
                    && v == storage_value_of(it)),
            forall|a: int, b: int| 0 <= a < b < r@.len() ==> r@[a].0 != r@[b].0,
    {
        self.0.observed_entries()
    }

    /// All accessed slots; used for merkle proof validation, includes initial reads.
    pub fn net_accesses_iter(&self) -> (r: Vec<(WarmStorageKey, WarmStorageValue)>)
        requires
            self.0.inv(),
        ensures
            forall|k: WarmStorageKey, v: WarmStorageValue|
                r@.contains((k, v)) <==> (self.0.item(k) matches Some(it) && it.properties.observed
                    && v == storage_value_of(it)),
    {
        self.iter_as_storage_types()
    }

    /// Slots whose current value differs from their initial one.
    pub fn net_diffs_iter(&self) -> (r: Vec<(WarmStorageKey, WarmStorageValue)>)
        requires
            self.0.inv(),
        ensures
            forall|k: WarmStorageKey, v: WarmStorageValue|
                r@.contains((k, v)) <==> (self.0.item(k) matches Some(it) && it.properties.observed
                    && v == storage_value_of(it) && v.current_value != v.initial_value),
    {
        let all = self.iter_as_storage_types();
        let ghost changed = changed_entry();
        let mut r: Vec<(WarmStorageKey, WarmStorageValue)> = Vec::new();
        let mut i: usize = 0;
        while i < all.len()
            invariant
                i <= all@.len(),
                changed == changed_entry(),
                r@ == all@.subrange(0, i as int).filter(changed),
            decreases all@.len() - i,
        {
            let (k, v) = all[i];
            proof {
                assert(all@[i as int] == (k, v));
                assert(all@.subrange(0, i + 1) =~= all@.subrange(0, i as int).push((k, v)));
                all@.subrange(0, i as int).lemma_filter_push((k, v), changed);
                assert(changed((k, v)) == (v.current_value != v.initial_value));
                assert(all@.subrange(0, i + 1).filter(changed) == if changed((k, v)) {
                    all@.subrange(0, i as int).filter(changed).push((k, v))
                } else {
                    all@.subrange(0, i as int).filter(changed)
                });
            }
            let ghost r0 = r@;
            if !v.current_value.equals(&v.initial_value) {
                r.push((k, v));
                assert(r@ == r0.push((k, v)));
            }
            assert(r@ == all@.subrange(0, i + 1).filter(changed));
            i = i + 1;
        }
        proof {
            assert(all@.subrange(0, all@.len() as int) =~= all@);
            assert forall|k: WarmStorageKey, v: WarmStorageValue|
                r@.contains((k, v)) <==> (self.0.item(k) matches Some(it) && it.properties.observed
                    && v == storage_value_of(it) && v.current_value != v.initial_value) by {
                if r@.contains((k, v)) {
                    all@.lemma_filter_contains_rev(changed, (k, v));
                    let q = choose|q: int| 0 <= q < r@.len() && r@[q] == (k, v);
                    all@.lemma_filter_pred(changed, q);
                }
                if all@.contains((k, v)) && v.current_value != v.initial_value {
                    let q = choose|q: int| 0 <= q < all@.len() && all@[q] == (k, v);
                    all@.lemma_filter_contains(changed, q);
                }
            }
        }
        r
    }

    /// Pubdata published for the slots changed by the current transaction.
    pub fn calculate_pubdata_used_by_tx(&self) -> (r: u32)
        requires
            self.0.inv(),
            self.0.slot_count() * 65 <= u32::MAX,
        ensures
            r == self.0.pubdata_total(),
    {
        self.0.pubdata_used()
    }
}

} // verus!
