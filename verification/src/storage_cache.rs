//! Storage cache backed by a history log.
//!
//! Every storage slot that was touched or read has an element with three records:
//! its initial record (as first seen in the block), its committed record (as of the
//! start of the current transaction) and its current record. Changes made through
//! `update` are appended to a chronological log and can be rolled back to any
//! snapshot; changes made in place (only ever to slots whose value has not been
//! observed yet) are not rolled back.
use vstd::prelude::*;

use crate::errors::{InternalError, SystemError};
use crate::primitives::{
    account_properties_address_bytes, account_properties_storage_address, be_nat, Bytes32, B160,
};
use crate::pubdata::{compression_len, lemma_compression_len_bound, optimal_compression_length};
use crate::resources::BaseResources;

verus! {

/// Distinguishes transactions of a block; it only needs to be unique per transaction.
#[derive(Clone, Copy, Debug, PartialEq, Eq, PartialOrd, Ord)]
pub struct TransactionId(pub u32);

/// Whether a storage read found its slot already warm in the current transaction.
#[derive(Clone, Copy, Debug, PartialEq, Eq)]
pub struct IsWarmRead(pub bool);

/// The execution environment on whose behalf a storage access is made.
#[derive(Clone, Copy, Debug, PartialEq, Eq)]
pub enum ExecutionEnvironmentType {
    NoEE,
    EVM,
}

/// A storage slot: account address and slot key.
#[derive(Clone, Copy, Debug, PartialEq, Eq)]
pub struct WarmStorageKey {
    pub address: B160,
    pub key: Bytes32,
}

impl WarmStorageKey {
    pub fn equals(&self, other: &WarmStorageKey) -> (r: bool)
        ensures
            r == (*self == *other),
    {
        self.address.equals(&other.address) && self.key.equals(&other.key)
    }
}

/// Bookkeeping attached to every cached slot.
#[derive(Clone, Copy, Debug, PartialEq, Eq)]
pub struct StorageElementMetadata {
    /// Transaction where this slot was last accessed.
    /// Considered warm if equal to `Some(current_tx)`.
    pub last_touched_in_tx: Option<TransactionId>,
}

impl StorageElementMetadata {
    pub open spec fn spec_considered_warm(&self, current_tx_id: TransactionId) -> bool {
        self.last_touched_in_tx == Some(current_tx_id)
    }

    pub fn considered_warm(&self, current_tx_id: TransactionId) -> (r: bool)
        ensures
            r == self.spec_considered_warm(current_tx_id),
    {
        match self.last_touched_in_tx {
            Some(t) => t.0 == current_tx_id.0,
            None => false,
        }
    }
}

/// A slot value (absent while it has not been read from the oracle) and its metadata.
#[derive(Clone, Copy, Debug, PartialEq, Eq)]
pub struct CacheRecord {
    pub value: Option<Bytes32>,
    pub metadata: StorageElementMetadata,
}

/// Per-slot flags that are never rolled back.
#[derive(Clone, Copy, Debug, PartialEq, Eq)]
pub struct CacheElementProperties {
    /// The slot did not exist in the state before the block.
    pub is_new: bool,
    /// The slot's value was obtained from the oracle.
    pub observed: bool,
}

/// A cached slot.
#[derive(Clone, Copy, Debug)]
pub struct CacheElement {
    pub key: WarmStorageKey,
    pub properties: CacheElementProperties,
    pub initial: CacheRecord,
    pub committed: CacheRecord,
}

/// One rollback-able change: the new current record of element `index`.
#[derive(Clone, Copy, Debug)]
pub struct LogEntry {
    pub index: usize,
    pub record: CacheRecord,
}

/// Everything that can be observed about one cached slot.
#[derive(Clone, Copy, Debug, PartialEq, Eq)]
pub struct CacheItem {
    pub key: WarmStorageKey,
    pub properties: CacheElementProperties,
    /// The record as first seen in this block.
    pub initial: CacheRecord,
    /// The record at the start of the current transaction.
    pub committed: CacheRecord,
    /// The record now.
    pub current: CacheRecord,
    /// Whether the slot has rollback-able changes since the start of the transaction.
    pub altered_since_commit: bool,
}

/// A position in the history of the cache and of the refund counter.
#[derive(Clone, Copy, Debug, PartialEq, Eq)]
pub struct StorageSnapshotId {
    pub cache: usize,
    pub evm_refunds_counter: usize,
}

/// Initial data of a slot, as given by the oracle.
#[derive(Clone, Copy, Debug, PartialEq, Eq)]
pub struct InitialStorageSlotData {
    pub is_new_storage_slot: bool,
    pub initial_value: Bytes32,
}

/// Source of the values that storage slots had before the block.
pub trait InitialStorageSlotOracle {
    /// The answer for `key`: the slot's data before the block, or why it is missing.
    spec fn initial_slot_data(&self, key: WarmStorageKey) -> Result<InitialStorageSlotData, InternalError>;

    /// The keys asked for so far, in order.
    spec fn queried_keys(&self) -> Vec<WarmStorageKey>;

    /// Answers with the slot's data before the block and records the question; asking
    /// changes no answer.
    fn query_initial_storage_slot(&mut self, key: &WarmStorageKey) -> (r: Result<
        InitialStorageSlotData,
        InternalError,
    >)
        ensures
            r == old(self).initial_slot_data(*key),
            final(self).queried_keys()@ == old(self).queried_keys()@.push(*key),
            forall|k: WarmStorageKey|
                #[trigger] final(self).initial_slot_data(k) == old(self).initial_slot_data(k),
    ;
}

/// An answer the cache can take: a slot reported new has the zero value.
pub open spec fn answer_acceptable(answer: Result<InitialStorageSlotData, InternalError>) -> bool {
    match answer {
        Ok(d) => d.is_new_storage_slot ==> d.initial_value@ == Seq::new(32, |i: int| 0u8),
        Err(_) => true,
    }
}

/// A cached item that still needs its initial value from the oracle: absent, or only
/// touched.
pub open spec fn needs_initial_value(item: Option<CacheItem>) -> bool {
    match item {
        None => true,
        Some(o) => !o.properties.observed,
    }
}

/// The item `n` holds the oracle's answer `answer` as its initial value.
pub open spec fn holds_answer(n: CacheItem, answer: Result<InitialStorageSlotData, InternalError>) -> bool {
    match answer {
        Ok(d) => n.initial.value == Some(d.initial_value) && n.properties.is_new
            == d.is_new_storage_slot,
        Err(_) => false,
    }
}

/// The value of slot `k`: as the cache holds it once read from the state, or, before
/// that, as the oracle gives it.
pub open spec fn slot_state<P: StorageAccessPolicy, O: InitialStorageSlotOracle>(
    storage: GenericPubdataAwarePlainStorage<P>,
    oracle: O,
    k: WarmStorageKey,
) -> Option<Bytes32> {
    if needs_initial_value(storage.item(k)) {
        match oracle.initial_slot_data(k) {
            Ok(d) => Some(d.initial_value),
            Err(_) => None,
        }
    } else {
        storage.item(k)->0.current.value
    }
}

/// Every answer of the oracle is acceptable.
pub open spec fn oracle_acceptable<O: InitialStorageSlotOracle>(oracle: O) -> bool {
    forall|k: WarmStorageKey| #[trigger] answer_acceptable(oracle.initial_slot_data(k))
}

/// The oracle gives the same answers.
pub open spec fn same_answers<O: InitialStorageSlotOracle>(a: O, b: O) -> bool {
    forall|k: WarmStorageKey| #[trigger] a.initial_slot_data(k) == b.initial_slot_data(k)
}

/// What a slot's initial value is, given the oracle's answer: a failed query means the
/// value is missing, and a new slot must have the zero value.
pub open spec fn initial_slot_outcome(answer: Result<InitialStorageSlotData, InternalError>) -> Result<
    (Bytes32, bool),
    SystemError,
> {
    match answer {
        Err(_) => Err(SystemError::LeafDefect(InternalError::MissingInitialSlotValue)),
        Ok(data) => if data.is_new_storage_slot && data.initial_value@ != Seq::new(
            32,
            |i: int| 0u8,
        ) {
            Err(SystemError::LeafDefect(InternalError::NonTrivialInitialValueOfEmptySlot))
        } else {
            Ok((data.initial_value, data.is_new_storage_slot))
        },
    }
}

/// A slot's initial value and whether the slot is new, from the oracle's answer.
pub fn initial_slot_value(answer: Result<InitialStorageSlotData, InternalError>) -> (r: Result<
    (Bytes32, bool),
    SystemError,
>)
    ensures
        r == initial_slot_outcome(answer),
{
    match answer {
        Err(_) => Err(SystemError::LeafDefect(InternalError::MissingInitialSlotValue)),
        Ok(data) => {
            if data.is_new_storage_slot && !data.initial_value.is_zero() {
                Err(SystemError::LeafDefect(InternalError::NonTrivialInitialValueOfEmptySlot))
            } else {
                Ok((data.initial_value, data.is_new_storage_slot))
            }
        },
    }
}

/// How storage accesses are charged. Each charge is a function of the policy, its
/// arguments and the resources before it: it gives the resources left, or an error.
pub trait StorageAccessPolicy {
    /// The outcome of charging a warm read.
    spec fn warm_read_charge(&self, ee_type: ExecutionEnvironmentType, resources: BaseResources) -> Result<
        BaseResources,
        SystemError,
    >;

    /// The outcome of charging the extra cost of a cold read.
    spec fn cold_read_extra_charge(
        &self,
        ee_type: ExecutionEnvironmentType,
        resources: BaseResources,
        is_new_slot: bool,
    ) -> Result<BaseResources, SystemError>;

    /// The outcome of charging the extra cost of a write.
    spec fn write_extra_charge(
        &self,
        ee_type: ExecutionEnvironmentType,
        initial_value: Bytes32,
        current_value: Bytes32,
        new_value: Bytes32,
        resources: BaseResources,
        is_warm_write: bool,
        is_new_slot: bool,
    ) -> Result<BaseResources, SystemError>;

    /// The outcome of the refund of a write: the resources and the refund counter after it.
    spec fn write_refund(
        &self,
        ee_type: ExecutionEnvironmentType,
        value_at_tx_start: Bytes32,
        current_value: Bytes32,
        new_value: Bytes32,
        resources: BaseResources,
        refund_counter: BaseResources,
    ) -> Result<(BaseResources, BaseResources), SystemError>;

    /// The outcome of charging an access-list touch.
    spec fn touch_charge(&self, resources: BaseResources) -> Result<BaseResources, SystemError>;

    fn charge_warm_storage_read(
        &self,
        ee_type: ExecutionEnvironmentType,
        resources: &mut BaseResources,
    ) -> (r: Result<(), SystemError>)
        ensures
            charge_result(self.warm_read_charge(ee_type, *old(resources)), r, *final(resources)),
    ;

    fn charge_cold_storage_read_extra(
        &self,
        ee_type: ExecutionEnvironmentType,
        resources: &mut BaseResources,
        is_new_slot: bool,
    ) -> (r: Result<(), SystemError>)
        ensures
            charge_result(
                self.cold_read_extra_charge(ee_type, *old(resources), is_new_slot),
                r,
                *final(resources),
            ),
    ;

    fn charge_storage_write_extra(
        &self,
        ee_type: ExecutionEnvironmentType,
        initial_value: &Bytes32,
        current_value: &Bytes32,
        new_value: &Bytes32,
        resources: &mut BaseResources,
        is_warm_write: bool,
        is_new_slot: bool,
    ) -> (r: Result<(), SystemError>)
        ensures
            charge_result(
                self.write_extra_charge(
                    ee_type,
                    *initial_value,
                    *current_value,
                    *new_value,
                    *old(resources),
                    is_warm_write,
                    is_new_slot,
                ),
                r,
                *final(resources),
            ),
    ;

    fn refund_for_storage_write(
        &self,
        ee_type: ExecutionEnvironmentType,
        value_at_tx_start: &Bytes32,
        current_value: &Bytes32,
        new_value: &Bytes32,
        resources: &mut BaseResources,
        refund_counter: &mut BaseResources,
    ) -> (r: Result<(), SystemError>)
        ensures
            match self.write_refund(
                ee_type,
                *value_at_tx_start,
                *current_value,
                *new_value,
                *old(resources),
                *old(refund_counter),
            ) {
                Ok((res, refund)) => r is Ok && *final(resources) == res && *final(refund_counter)
                    == refund,
                Err(e) => r == Err::<(), SystemError>(e),
            },
    ;

    fn charge_access_list_storage_touch(&self, resources: &mut BaseResources) -> (r: Result<
        (),
        SystemError,
    >)
        ensures
            charge_result(self.touch_charge(*old(resources)), r, *final(resources)),
    ;
}

/// A result that follows a charge's outcome: `Ok` with the resources the charge left, or
/// the charge's error.
pub open spec fn charge_result<T>(
    outcome: Result<BaseResources, SystemError>,
    r: Result<T, SystemError>,
    after: BaseResources,
) -> bool {
    match outcome {
        Ok(res) => r is Ok && after == res,
        Err(e) => r matches Err(e2) && e2 == e,
    }
}

/// The policy charges every access successfully, whatever the resources.
pub open spec fn policy_never_fails<P: StorageAccessPolicy>(p: P) -> bool {
    &&& forall|ee: ExecutionEnvironmentType, res: BaseResources| #[trigger]
        p.warm_read_charge(ee, res) is Ok
    &&& forall|ee: ExecutionEnvironmentType, res: BaseResources, n: bool| #[trigger]
        p.cold_read_extra_charge(ee, res, n) is Ok
    &&& forall|
        ee: ExecutionEnvironmentType,
        a: Bytes32,
        b: Bytes32,
        c: Bytes32,
        res: BaseResources,
        w: bool,
        n: bool,
    | #[trigger] p.write_extra_charge(ee, a, b, c, res, w, n) is Ok
    &&& forall|
        ee: ExecutionEnvironmentType,
        a: Bytes32,
        b: Bytes32,
        c: Bytes32,
        res: BaseResources,
        rf: BaseResources,
    | #[trigger] p.write_refund(ee, a, b, c, res, rf) is Ok
    &&& forall|res: BaseResources| #[trigger] p.touch_charge(res) is Ok
}

/// `e` is an error some charge of the policy fails with.
pub open spec fn policy_error<P: StorageAccessPolicy>(p: P, e: SystemError) -> bool {
    ||| exists|ee: ExecutionEnvironmentType, res: BaseResources| #[trigger]
        p.warm_read_charge(ee, res) == Err::<BaseResources, SystemError>(e)
    ||| exists|ee: ExecutionEnvironmentType, res: BaseResources, n: bool| #[trigger]
        p.cold_read_extra_charge(ee, res, n) == Err::<BaseResources, SystemError>(e)
    ||| exists|
        ee: ExecutionEnvironmentType,
        a: Bytes32,
        b: Bytes32,
        c: Bytes32,
        res: BaseResources,
        w: bool,
        n: bool,
    | #[trigger] p.write_extra_charge(ee, a, b, c, res, w, n) == Err::<BaseResources, SystemError>(e)
    ||| exists|
        ee: ExecutionEnvironmentType,
        a: Bytes32,
        b: Bytes32,
        c: Bytes32,
        res: BaseResources,
        rf: BaseResources,
    | #[trigger] p.write_refund(ee, a, b, c, res, rf) == Err::<(BaseResources, BaseResources), SystemError>(e)
    ||| exists|res: BaseResources| #[trigger] p.touch_charge(res) == Err::<BaseResources, SystemError>(e)
}

/// The error of a slot whose initial value the oracle could not give.
pub open spec fn missing_initial_value() -> SystemError {
    SystemError::LeafDefect(InternalError::MissingInitialSlotValue)
}

/// Where an access's error comes from: a charge of the policy, or the oracle's failure to
/// give an initial value.
pub open spec fn access_error<P: StorageAccessPolicy>(p: P, e: SystemError) -> bool {
    policy_error(p, e) || e == missing_initial_value()
}

/// The oracle was asked for `key` once if `asked`, and not at all otherwise.
pub open spec fn queried_once<O: InitialStorageSlotOracle>(
    before: O,
    after: O,
    key: WarmStorageKey,
    asked: bool,
) -> bool {
    if asked {
        after.queried_keys()@ == before.queried_keys()@.push(key)
    } else {
        after.queried_keys()@ == before.queried_keys()@
    }
}

/// The oracle gives every initial value.
pub open spec fn oracle_answers<O: InitialStorageSlotOracle>(o: O) -> bool {
    forall|k: WarmStorageKey| #[trigger] o.initial_slot_data(k) is Ok
}

/// What materializing a slot charges, in order: a warm read; then, on the slot's first
/// access in the transaction, the extra of a cold read of a new or existing slot. It
/// fails with the first charge that fails, or with the oracle's failure where the slot
/// still needs its initial value.
pub open spec fn materialize_charges<P: StorageAccessPolicy>(
    p: P,
    ee_type: ExecutionEnvironmentType,
    resources: BaseResources,
    old: Option<CacheItem>,
    answer: Result<InitialStorageSlotData, InternalError>,
    tx: TransactionId,
) -> Result<BaseResources, SystemError> {
    match p.warm_read_charge(ee_type, resources) {
        Err(e) => Err(e),
        Ok(after_warm) => if needs_initial_value(old) && answer is Err {
            Err(missing_initial_value())
        } else {
            let is_new = if needs_initial_value(old) {
                answer->Ok_0.is_new_storage_slot
            } else {
                old->Some_0.properties.is_new
            };
            let warm = match old {
                None => false,
                Some(o) => o.current.metadata.spec_considered_warm(tx),
            };
            if warm {
                Ok(after_warm)
            } else {
                p.cold_read_extra_charge(ee_type, after_warm, is_new)
            }
        },
    }
}

/// A write's result that follows the outcome of its charges: `Ok` with the resources and
/// refund counter they left, or their error.
pub open spec fn write_charged<T>(
    outcome: Result<(BaseResources, BaseResources), SystemError>,
    r: Result<T, SystemError>,
    after: BaseResources,
    refund_after: BaseResources,
) -> bool {
    match outcome {
        Ok((res, refund)) => r is Ok && after == res && refund_after == refund,
        Err(e) => r matches Err(e2) && e2 == e,
    }
}

/// What writing `new_value` over the materialized item `m` charges after the
/// materialization: the write extra, then the refund, from `resources` and the refund
/// counter `refund`.
pub open spec fn write_charges<P: StorageAccessPolicy>(
    p: P,
    ee_type: ExecutionEnvironmentType,
    resources: BaseResources,
    m: CacheItem,
    is_warm: bool,
    new_value: Bytes32,
    refund: BaseResources,
) -> Result<(BaseResources, BaseResources), SystemError> {
    let at_start = m.committed.value->Some_0;
    let current = m.current.value->Some_0;
    match p.write_extra_charge(
        ee_type,
        at_start,
        current,
        new_value,
        resources,
        is_warm,
        m.properties.is_new,
    ) {
        Err(e) => Err(e),
        Ok(res) => p.write_refund(ee_type, at_start, current, new_value, res, refund),
    }
}

/// The keys of the elements, in order.
pub open spec fn keys_of(elems: Seq<CacheElement>) -> Seq<WarmStorageKey> {
    elems.map_values(|e: CacheElement| e.key)
}

/// The position of key `k` in `keys`, if any.
pub open spec fn key_index(keys: Seq<WarmStorageKey>, k: WarmStorageKey) -> Option<int> {
    if exists|i: int| 0 <= i < keys.len() && keys[i] == k {
        Some(choose|i: int| 0 <= i < keys.len() && keys[i] == k)
    } else {
        None
    }
}

/// No two elements share a key.
pub open spec fn keys_unique(keys: Seq<WarmStorageKey>) -> bool {
    forall|i: int, j: int| 0 <= i < keys.len() && 0 <= j < keys.len() && i != j ==> keys[i] != keys[j]
}

/// The current record of element `i`: its last logged record, else the committed one.
pub open spec fn current_record(log: Seq<LogEntry>, i: int, committed: CacheRecord) -> CacheRecord
    decreases log.len(),
{
    if log.len() == 0 {
        committed
    } else if log.last().index == i {
        log.last().record
    } else {
        current_record(log.drop_last(), i, committed)
    }
}

/// Whether element `i` has entries in the log.
pub open spec fn logged(log: Seq<LogEntry>, i: int) -> bool {
    exists|j: int| 0 <= j < log.len() && log[j].index == i
}

pub open spec fn item_of(elems: Seq<CacheElement>, log: Seq<LogEntry>, i: int) -> CacheItem {
    CacheItem {
        key: elems[i].key,
        properties: elems[i].properties,
        initial: elems[i].initial,
        committed: elems[i].committed,
        current: current_record(log, i, elems[i].committed),
        altered_since_commit: logged(log, i),
    }
}

/// The record of a slot touched in transaction `tx` without being read.
pub open spec fn touched_record(tx: TransactionId) -> CacheRecord {
    CacheRecord {
        value: None,
        metadata: StorageElementMetadata { last_touched_in_tx: Some(tx) },
    }
}

/// `r` with its last-touched transaction set to `tx`.
pub open spec fn warmed(r: CacheRecord, tx: TransactionId) -> CacheRecord {
    CacheRecord {
        value: r.value,
        metadata: StorageElementMetadata { last_touched_in_tx: Some(tx) },
    }
}

/// `r` with value `v`.
pub open spec fn with_value(r: CacheRecord, v: Bytes32) -> CacheRecord {
    CacheRecord { value: Some(v), metadata: r.metadata }
}


/// The item of a slot after `touch_impl` in transaction `tx`, given its item before.
pub open spec fn touch_outcome(old: Option<CacheItem>, key: WarmStorageKey, tx: TransactionId) -> CacheItem {
    match old {
        None => CacheItem {
            key,
            properties: CacheElementProperties { is_new: false, observed: false },
            initial: touched_record(tx),
            committed: touched_record(tx),
            current: touched_record(tx),
            altered_since_commit: false,
        },
        Some(o) => if o.current.metadata.spec_considered_warm(tx) {
            o
        } else if o.properties.observed {
            CacheItem { current: warmed(o.current, tx), altered_since_commit: true, ..o }
        } else {
            CacheItem {
                initial: warmed(o.initial, tx),
                committed: warmed(o.committed, tx),
                current: warmed(o.current, tx),
                ..o
            }
        },
    }
}


/// The item `new` of a slot after a successful materialization in transaction `tx`,
/// given its item `old` before; `is_warm` is the returned warmness.
pub open spec fn materialize_outcome(
    old: Option<CacheItem>,
    new: CacheItem,
    key: WarmStorageKey,
    tx: TransactionId,
    is_warm: bool,
) -> bool {
    &&& new.key == key
    &&& new.properties.observed
    &&& new.current.value is Some
    &&& new.current.metadata.spec_considered_warm(tx)
    &&& match old {
        None => {
            &&& !is_warm
            &&& new.initial == new.committed
            &&& new.initial.value is Some
            &&& new.initial.metadata.last_touched_in_tx is None
            &&& new.current == warmed(new.initial, tx)
            &&& new.altered_since_commit
        },
        Some(o) => {
            &&& is_warm == o.current.metadata.spec_considered_warm(tx)
            &&& if o.properties.observed {
                &&& new.properties == o.properties
                &&& new.initial == o.initial
                &&& new.committed == o.committed
                &&& new.current == (if is_warm {
                    o.current
                } else {
                    warmed(o.current, tx)
                })
                &&& new.altered_since_commit == (o.altered_since_commit || !is_warm)
            } else {
                &&& new.initial == new.committed
                &&& new.initial.value is Some
                &&& new.initial.metadata == o.initial.metadata
                &&& new.current == (if is_warm {
                    new.committed
                } else {
                    warmed(new.committed, tx)
                })
                &&& new.altered_since_commit == !is_warm
            }
        },
    }
}

/// What a failed materialization may leave behind for a slot: nothing for an absent or
/// observed slot; an unobserved slot may have received its value in place.
pub open spec fn materialize_failure(old: Option<CacheItem>, new: Option<CacheItem>) -> bool {
    match old {
        None => new is None,
        Some(o) => if o.properties.observed {
            new == old
        } else {
            new == old || (new matches Some(n) && n.key == o.key && n.properties.observed
                && n.initial == n.committed && n.current == n.committed && n.committed.value is Some
                && n.committed.metadata == o.committed.metadata && !n.altered_since_commit)
        },
    }
}


/// `v` is the all-zero word.
pub open spec fn is_zero_word(v: Bytes32) -> bool {
    v@ == Seq::new(32, |i: int| 0u8)
}

/// The item `n` of slot `o` after clearing the storage of `address`: observed slots of
/// that address get the zero value, everything else is unchanged.
pub open spec fn cleared(o: CacheItem, n: CacheItem, address: B160) -> bool {
    if o.key.address == address && o.properties.observed {
        &&& n == CacheItem { current: n.current, altered_since_commit: true, ..o }
        &&& n.current.metadata == o.current.metadata
        &&& n.current.value matches Some(v) && is_zero_word(v)
    } else {
        n == o
    }
}

/// The item of a slot after its transaction is committed.
pub open spec fn committed_item(o: CacheItem) -> CacheItem {
    CacheItem { committed: o.current, current: o.current, altered_since_commit: false, ..o }
}

/// The item after a write of `v` on top of materialized item `m`.
pub open spec fn written_item(m: CacheItem, v: Bytes32) -> CacheItem {
    CacheItem { current: with_value(m.current, v), altered_since_commit: true, ..m }
}

pub proof fn lemma_current_push(log: Seq<LogEntry>, e: LogEntry, i: int, c: CacheRecord)
    ensures
        current_record(log.push(e), i, c) == (if e.index == i {
            e.record
        } else {
            current_record(log, i, c)
        }),
{
    assert(log.push(e).drop_last() =~= log);
}

pub proof fn lemma_logged_push(log: Seq<LogEntry>, e: LogEntry, i: int)
    ensures
        logged(log.push(e), i) == (e.index == i || logged(log, i)),
{
    if logged(log, i) {
        let j = choose|j: int| 0 <= j < log.len() && log[j].index == i;
        assert(log.push(e)[j].index == i);
    }
    if e.index == i {
        assert(log.push(e)[log.len() as int].index == i);
    }
    if logged(log.push(e), i) {
        let j = choose|j: int| 0 <= j < log.push(e).len() && log.push(e)[j].index == i;
        if j < log.len() {
            assert(log[j].index == i);
        }
    }
}

/// An element that was never logged is at its committed record.
pub proof fn lemma_current_unlogged(log: Seq<LogEntry>, i: int, c: CacheRecord)
    requires
        !logged(log, i),
    ensures
        current_record(log, i, c) == c,
    decreases log.len(),
{
    if log.len() > 0 {
        assert(log[log.len() - 1].index != i);
        assert forall|j: int| 0 <= j < log.drop_last().len() implies log.drop_last()[j].index
            != i by {
            assert(log[j].index != i);
        }
        lemma_current_unlogged(log.drop_last(), i, c);
    }
}

/// Every logged record of element `i` has property `p`, and so has its committed record:
/// then its current record has it too.
pub proof fn lemma_current_has_value(log: Seq<LogEntry>, i: int, c: CacheRecord)
    requires
        c.value is Some,
        forall|j: int| 0 <= j < log.len() && log[j].index == i ==> (#[trigger] log[j]).record.value is Some,
    ensures
        current_record(log, i, c).value is Some,
    decreases log.len(),
{
    if log.len() > 0 {
        assert(log[log.len() - 1] == log.last());
        assert forall|j: int|
            0 <= j < log.drop_last().len() && log.drop_last()[j].index == i implies (
            #[trigger] log.drop_last()[j]).record.value is Some by {
            assert(log.drop_last()[j] == log[j]);
        }
        lemma_current_has_value(log.drop_last(), i, c);
    }
}

pub proof fn lemma_key_index_found(keys: Seq<WarmStorageKey>, i: int)
    requires
        keys_unique(keys),
        0 <= i < keys.len(),
    ensures
        key_index(keys, keys[i]) == Some(i),
{
    let k = keys[i];
    let j = choose|j: int| 0 <= j < keys.len() && keys[j] == k;
    assert(j == i);
}

pub proof fn lemma_key_index_absent(keys: Seq<WarmStorageKey>, k: WarmStorageKey)
    requires
        forall|i: int| 0 <= i < keys.len() ==> keys[i] != k,
    ensures
        key_index(keys, k) is None,
{
}

/// Logging a change of element `e.index` affects only that element's item.
pub proof fn lemma_push_items(elems: Seq<CacheElement>, log: Seq<LogEntry>, e: LogEntry)
    requires
        0 <= e.index < elems.len(),
    ensures
        forall|j: int|
            0 <= j < elems.len() && j != e.index ==> item_of(elems, log.push(e), j) == item_of(
                elems,
                log,
                j,
            ),
        item_of(elems, log.push(e), e.index as int) == (CacheItem {
            current: e.record,
            altered_since_commit: true,
            ..item_of(elems, log, e.index as int)
        }),
{
    assert forall|j: int| 0 <= j < elems.len() implies item_of(elems, log.push(e), j) == (
    if j == e.index {
        CacheItem { current: e.record, altered_since_commit: true, ..item_of(elems, log, j) }
    } else {
        item_of(elems, log, j)
    }) by {
        lemma_current_push(log, e, j, elems[j].committed);
        lemma_logged_push(log, e, j);
    }
}

/// Replacing element `i` by one with the same key affects only that element's item.
pub proof fn lemma_replace_items(
    elems: Seq<CacheElement>,
    log: Seq<LogEntry>,
    i: int,
    e: CacheElement,
)
    requires
        0 <= i < elems.len(),
        e.key == elems[i].key,
    ensures
        keys_of(elems.update(i, e)) == keys_of(elems),
        forall|j: int|
            0 <= j < elems.len() && j != i ==> item_of(elems.update(i, e), log, j) == item_of(
                elems,
                log,
                j,
            ),
        item_of(elems.update(i, e), log, i) == (CacheItem {
            key: e.key,
            properties: e.properties,
            initial: e.initial,
            committed: e.committed,
            current: current_record(log, i, e.committed),
            altered_since_commit: logged(log, i),
        }),
{
    assert(keys_of(elems.update(i, e)) =~= keys_of(elems));
}

/// Appending a new element keeps the positions of the other keys.
pub proof fn lemma_push_element(elems: Seq<CacheElement>, e: CacheElement)
    requires
        keys_unique(keys_of(elems)),
        key_index(keys_of(elems), e.key) is None,
    ensures
        keys_of(elems.push(e)) == keys_of(elems).push(e.key),
        keys_unique(keys_of(elems.push(e))),
        key_index(keys_of(elems.push(e)), e.key) == Some(elems.len() as int),
        forall|k: WarmStorageKey|
            k != e.key ==> key_index(keys_of(elems.push(e)), k) == key_index(keys_of(elems), k),
{
    let ks = keys_of(elems);
    let ks2 = keys_of(elems.push(e));
    assert(ks2 =~= ks.push(e.key));
    assert forall|i: int| 0 <= i < ks.len() implies ks[i] != e.key by {
        if ks[i] == e.key {
            assert(key_index(ks, e.key) is Some);
        }
    }
    lemma_key_index_found(ks2, elems.len() as int);
    assert forall|k: WarmStorageKey| k != e.key implies key_index(ks2, k) == key_index(ks, k) by {
        if key_index(ks, k) is Some {
            let i = choose|i: int| 0 <= i < ks.len() && ks[i] == k;
            lemma_key_index_found(ks, i);
            lemma_key_index_found(ks2, i);
        } else {
            assert forall|i: int| 0 <= i < ks2.len() implies ks2[i] != k by {
                if i < ks.len() {
                    assert(ks[i] != k);
                }
            }
        }
    }
}


/// A read that follows a write of `v` to the same slot in the same transaction is warm,
/// changes nothing and returns `v`.
pub proof fn lemma_read_after_write(
    before: Option<CacheItem>,
    m: CacheItem,
    key: WarmStorageKey,
    tx: TransactionId,
    w0: bool,
    v: Bytes32,
    n: CacheItem,
    w: bool,
)
    requires
        materialize_outcome(before, m, key, tx, w0),
        materialize_outcome(Some(written_item(m, v)), n, key, tx, w),
    ensures
        w,
        n == written_item(m, v),
        n.current.value == Some(v),
{
}

/// A slot is warm in the transaction in which it was touched, and touching it never
/// changes or reveals its value.
pub proof fn lemma_touch_warms(old: Option<CacheItem>, key: WarmStorageKey, tx: TransactionId)
    ensures
        touch_outcome(old, key, tx).current.metadata.spec_considered_warm(tx),
        touch_outcome(old, key, tx).current.value == match old {
            Some(o) => o.current.value,
            None => None,
        },
        touch_outcome(old, key, tx).properties.observed == match old {
            Some(o) => o.properties.observed,
            None => false,
        },
{
}

/// A slot read in a transaction is warm for the rest of it, and a second read returns
/// the same value without any change.
pub proof fn lemma_read_twice(
    before: Option<CacheItem>,
    m: CacheItem,
    key: WarmStorageKey,
    tx: TransactionId,
    w0: bool,
    n: CacheItem,
    w: bool,
)
    requires
        materialize_outcome(before, m, key, tx, w0),
        materialize_outcome(Some(m), n, key, tx, w),
    ensures
        w,
        n == m,
{
}

/// After a commit no slot has pending changes and each is committed at its current
/// record; reading it then is a cold access in the next transaction.
pub proof fn lemma_commit_settles(o: CacheItem)
    ensures
        !committed_item(o).altered_since_commit,
        committed_item(o).committed == o.current,
        committed_item(o).current == o.current,
        committed_item(o).initial == o.initial,
{
}

/// The cache of storage slots.
pub struct GenericPubdataAwarePlainStorage<P> {
    pub(crate) elements: Vec<CacheElement>,
    pub(crate) log: Vec<LogEntry>,
    pub(crate) resources_policy: P,
    // Note: this doesn't need to be equal to the actual tx number in the block, it just
    // needs to be able to differentiate between transactions.
    pub(crate) current_tx_id: TransactionId,
    /// Used to keep track of EVM gas refunds.
    pub(crate) refund_initial: BaseResources,
    pub(crate) refund_updates: Vec<BaseResources>,
}

impl<P: StorageAccessPolicy> GenericPubdataAwarePlainStorage<P> {
    /// The internal consistency of the cache.
    pub closed spec fn inv(&self) -> bool {
        let elems = self.elements@;
        let log = self.log@;
        &&& keys_unique(keys_of(elems))
        &&& forall|j: int| 0 <= j < log.len() ==> 0 <= (#[trigger] log[j]).index < elems.len()
        &&& forall|j: int|
            0 <= j < log.len() ==> {
                &&& elems[(#[trigger] log[j]).index as int].properties.observed
                &&& log[j].record.value is Some
            }
        &&& forall|i: int|
            0 <= i < elems.len() ==> {
                let e = #[trigger] elems[i];
                &&& !e.properties.observed ==> e.initial == e.committed && e.committed.value is None
                &&& e.properties.observed ==> e.initial.value is Some && e.committed.value is Some
            }
    }

    /// What the cache holds for `key`.
    pub closed spec fn item(&self, key: WarmStorageKey) -> Option<CacheItem> {
        match key_index(keys_of(self.elements@), key) {
            Some(i) => Some(item_of(self.elements@, self.log@, i)),
            None => None,
        }
    }

    /// The number of rollback-able changes made so far in this transaction.
    pub closed spec fn history_len(&self) -> nat {
        self.log@.len()
    }

    pub closed spec fn tx_id(&self) -> TransactionId {
        self.current_tx_id
    }

    /// The current value of the refund counter.
    pub closed spec fn refund_counter(&self) -> BaseResources {
        if self.refund_updates@.len() == 0 {
            self.refund_initial
        } else {
            self.refund_updates@.last()
        }
    }

    pub closed spec fn refund_history_len(&self) -> nat {
        self.refund_updates@.len()
    }

    pub closed spec fn policy(&self) -> P {
        self.resources_policy
    }

    /// A cache with no slots, at transaction 0.
    pub fn new_from_parts(resources_policy: P) -> (r: Self)
        ensures
            r.inv(),
            forall|k: WarmStorageKey| r.item(k) is None,
            r.tx_id() == TransactionId(0),
            r.refund_counter() == (BaseResources { ergs: 0, native: 0 }),
            r.history_len() == 0,
            r.refund_history_len() == 0,
            r.policy() == resources_policy,
    {
        GenericPubdataAwarePlainStorage {
            elements: Vec::new(),
            log: Vec::new(),
            resources_policy,
            current_tx_id: TransactionId(0),
            refund_initial: BaseResources::empty(),
            refund_updates: Vec::new(),
        }
    }

    /// Position of `key` among the elements.
    fn find_index(&self, key: &WarmStorageKey) -> (r: Option<usize>)
        requires
            self.inv(),
        ensures
            r matches Some(i) ==> key_index(keys_of(self.elements@), *key) == Some(i as int),
            r is None ==> key_index(keys_of(self.elements@), *key) is None,
    {
        let mut i: usize = 0;
        while i < self.elements.len()
            invariant
                0 <= i <= self.elements@.len(),
                keys_unique(keys_of(self.elements@)),
                forall|j: int| 0 <= j < i ==> self.elements@[j].key != *key,
            decreases self.elements@.len() - i,
        {
            if self.elements[i].key.equals(key) {
                proof {
                    lemma_key_index_found(keys_of(self.elements@), i as int);
                }
                return Some(i);
            }
            i = i + 1;
        }
        proof {
            lemma_key_index_absent(keys_of(self.elements@), *key);
        }
        None
    }

    /// The current record of element `i`.
    pub(crate) fn current_of(&self, i: usize) -> (r: CacheRecord)
        requires
            i < self.elements@.len(),
        ensures
            r == current_record(self.log@, i as int, self.elements@[i as int].committed),
    {
        let mut j = self.log.len();
        assert(self.log@.subrange(0, j as int) =~= self.log@);
        while j > 0
            invariant
                j <= self.log@.len(),
                i < self.elements@.len(),
                current_record(self.log@, i as int, self.elements@[i as int].committed)
                    == current_record(
                    self.log@.subrange(0, j as int),
                    i as int,
                    self.elements@[i as int].committed,
                ),
            decreases j,
        {
            let e = self.log[j - 1];
            proof {
                let s = self.log@.subrange(0, j as int);
                assert(s.drop_last() =~= self.log@.subrange(0, j - 1));
                assert(s.last() == e);
            }
            if e.index == i {
                return e.record;
            }
            j = j - 1;
        }
        self.elements[i].committed
    }

    /// Whether element `i` was changed in a rollback-able way.
    pub(crate) fn is_logged(&self, i: usize) -> (r: bool)
        ensures
            r == logged(self.log@, i as int),
    {
        let mut j: usize = 0;
        while j < self.log.len()
            invariant
                j <= self.log@.len(),
                forall|t: int| 0 <= t < j ==> self.log@[t].index != i,
            decreases self.log@.len() - j,
        {
            if self.log[j].index == i {
                return true;
            }
            j = j + 1;
        }
        false
    }

    /// What the cache holds for `key`.
    pub fn get(&self, key: &WarmStorageKey) -> (r: Option<CacheItem>)
        requires
            self.inv(),
        ensures
            r == self.item(*key),
    {
        match self.find_index(key) {
            None => None,
            Some(i) => {
                let e = self.elements[i];
                Some(
                    CacheItem {
                        key: e.key,
                        properties: e.properties,
                        initial: e.initial,
                        committed: e.committed,
                        current: self.current_of(i),
                        altered_since_commit: self.is_logged(i),
                    },
                )
            },
        }
    }


    /// `self` is reached from `earlier` by changes within one transaction: observed
    /// slots are only changed through the log, the log and the refund history only grow.
    pub closed spec fn extends(&self, earlier: &Self) -> bool {
        &&& earlier.elements@.len() <= self.elements@.len()
        &&& forall|i: int|
            0 <= i < earlier.elements@.len() ==> {
                &&& (#[trigger] self.elements@[i]).key == earlier.elements@[i].key
                &&& earlier.elements@[i].properties.observed ==> self.elements@[i]
                    == earlier.elements@[i]
            }
        &&& earlier.log@.is_prefix_of(self.log@)
        &&& earlier.refund_updates@.is_prefix_of(self.refund_updates@)
        &&& earlier.refund_initial == self.refund_initial
        &&& earlier.current_tx_id == self.current_tx_id
    }

    /// What the cache would hold for `key` if only the first `n` logged changes were kept.
    pub closed spec fn item_at(&self, key: WarmStorageKey, n: nat) -> Option<CacheItem> {
        match key_index(keys_of(self.elements@), key) {
            Some(i) => Some(item_of(self.elements@, self.log@.subrange(0, n as int), i)),
            None => None,
        }
    }

    /// The refund counter if only the first `n` recorded values were kept.
    pub closed spec fn refund_counter_at(&self, n: nat) -> BaseResources {
        if n == 0 || self.refund_updates@.len() == 0 {
            self.refund_initial
        } else if n >= self.refund_updates@.len() {
            self.refund_updates@.last()
        } else {
            self.refund_updates@[n - 1]
        }
    }

    pub proof fn lemma_extends_refl(&self)
        ensures
            self.extends(self),
    {
        assert(self.log@.is_prefix_of(self.log@));
        assert(self.refund_updates@.is_prefix_of(self.refund_updates@));
    }

    pub proof fn lemma_extends_trans(&self, mid: &Self, earlier: &Self)
        requires
            self.extends(mid),
            mid.extends(earlier),
        ensures
            self.extends(earlier),
    {
        assert forall|i: int| 0 <= i < earlier.elements@.len() implies {
            &&& (#[trigger] self.elements@[i]).key == earlier.elements@[i].key
            &&& earlier.elements@[i].properties.observed ==> self.elements@[i]
                == earlier.elements@[i]
        } by {
            assert(mid.elements@[i].key == earlier.elements@[i].key);
        }
    }

    /// Appends a rollback-able change of element `i`.
    fn log_update(&mut self, i: usize, record: CacheRecord)
        requires
            old(self).inv(),
            i < old(self).elements@.len(),
            old(self).elements@[i as int].properties.observed,
            record.value is Some,
        ensures
            final(self).inv(),
            final(self).elements@ == old(self).elements@,
            final(self).log@ == old(self).log@.push(LogEntry { index: i, record }),
            final(self).current_tx_id == old(self).current_tx_id,
            final(self).refund_initial == old(self).refund_initial,
            final(self).refund_updates@ == old(self).refund_updates@,
            final(self).resources_policy == old(self).resources_policy,
            final(self).extends(&*old(self)),
    {
        self.log.push(LogEntry { index: i, record });
        proof {
            let l0 = old(self).log@;
            assert(l0.is_prefix_of(self.log@));
            assert(self.refund_updates@.is_prefix_of(self.refund_updates@));
            assert forall|j: int| 0 <= j < self.log@.len() implies 0 <= (#[trigger] self.log@[j]).index < self.elements@.len() by {
                if j < l0.len() {
                    assert(self.log@[j] == l0[j]);
                }
            }
            assert forall|j: int| 0 <= j < self.log@.len() implies {
                &&& self.elements@[(#[trigger] self.log@[j]).index as int].properties.observed
                &&& self.log@[j].record.value is Some
            } by {
                if j < l0.len() {
                    assert(self.log@[j] == l0[j]);
                }
            }
        }
    }

    /// Replaces element `i` by `e`, which has the same key; only done for slots that
    /// have no logged changes.
    fn replace_element(&mut self, i: usize, e: CacheElement)
        requires
            old(self).inv(),
            i < old(self).elements@.len(),
            e.key == old(self).elements@[i as int].key,
            !old(self).elements@[i as int].properties.observed,
            !e.properties.observed ==> e.initial == e.committed && e.committed.value is None,
            e.properties.observed ==> e.initial.value is Some && e.committed.value is Some,
        ensures
            final(self).inv(),
            final(self).elements@ == old(self).elements@.update(i as int, e),
            final(self).log@ == old(self).log@,
            final(self).current_tx_id == old(self).current_tx_id,
            final(self).refund_initial == old(self).refund_initial,
            final(self).refund_updates@ == old(self).refund_updates@,
            final(self).resources_policy == old(self).resources_policy,
            final(self).extends(&*old(self)),
    {
        self.elements.set(i, e);
        proof {
            let e0 = old(self).elements@;
            assert(keys_of(self.elements@) =~= keys_of(e0));
            assert forall|j: int| 0 <= j < self.log@.len() implies {
                &&& self.elements@[(#[trigger] self.log@[j]).index as int].properties.observed
                &&& self.log@[j].record.value is Some
            } by {
                assert(e0[self.log@[j].index as int].properties.observed);
            }
            assert(self.log@.is_prefix_of(self.log@));
            assert(self.refund_updates@.is_prefix_of(self.refund_updates@));
        }
    }

    /// Appends a new element with a key not yet present.
    fn push_element(&mut self, e: CacheElement) -> (r: usize)
        requires
            old(self).inv(),
            key_index(keys_of(old(self).elements@), e.key) is None,
            !e.properties.observed ==> e.initial == e.committed && e.committed.value is None,
            e.properties.observed ==> e.initial.value is Some && e.committed.value is Some,
        ensures
            final(self).inv(),
            r == old(self).elements@.len(),
            final(self).elements@ == old(self).elements@.push(e),
            final(self).log@ == old(self).log@,
            final(self).current_tx_id == old(self).current_tx_id,
            final(self).refund_initial == old(self).refund_initial,
            final(self).refund_updates@ == old(self).refund_updates@,
            final(self).resources_policy == old(self).resources_policy,
            final(self).extends(&*old(self)),
            final(self).item(e.key) == Some(
                CacheItem {
                    key: e.key,
                    properties: e.properties,
                    initial: e.initial,
                    committed: e.committed,
                    current: e.committed,
                    altered_since_commit: false,
                },
            ),
            forall|k: WarmStorageKey| k != e.key ==> final(self).item(k) == old(self).item(k),
    {
        let r = self.elements.len();
        self.elements.push(e);
        proof {
            let e0 = old(self).elements@;
            lemma_push_element(e0, e);
            assert(!logged(self.log@, r as int)) by {
                if logged(self.log@, r as int) {
                    let j = choose|j: int| 0 <= j < self.log@.len() && self.log@[j].index == r as int;
                    assert(self.log@[j].index < e0.len());
                }
            }
            lemma_current_unlogged(self.log@, r as int, e.committed);
            assert forall|j: int| 0 <= j < self.log@.len() implies {
                &&& self.elements@[(#[trigger] self.log@[j]).index as int].properties.observed
                &&& self.log@[j].record.value is Some
            } by {
                assert(self.elements@[self.log@[j].index as int] == e0[self.log@[j].index as int]);
            }
            assert forall|k: WarmStorageKey| k != e.key implies self.item(k) == old(self).item(k) by {
                if let Some(j) = key_index(keys_of(e0), k) {
                    assert(self.elements@[j] == e0[j]);
                }
            }
            assert(self.log@.is_prefix_of(self.log@));
            assert(self.refund_updates@.is_prefix_of(self.refund_updates@));
        }
        r
    }


    /// An element whose value was never observed has no logged changes.
    proof fn lemma_unobserved_unlogged(&self, i: int)
        requires
            self.inv(),
            0 <= i < self.elements@.len(),
            !self.elements@[i].properties.observed,
        ensures
            !logged(self.log@, i),
            current_record(self.log@, i, self.elements@[i].committed) == self.elements@[i].committed,
    {
        if logged(self.log@, i) {
            let j = choose|j: int| 0 <= j < self.log@.len() && self.log@[j].index == i;
            assert(self.elements@[self.log@[j].index as int].properties.observed);
        }
        lemma_current_unlogged(self.log@, i, self.elements@[i].committed);
    }

    /// The current record of an observed element holds a value.
    pub(crate) proof fn lemma_observed_has_value(&self, i: int)
        requires
            self.inv(),
            0 <= i < self.elements@.len(),
            self.elements@[i].properties.observed,
        ensures
            current_record(self.log@, i, self.elements@[i].committed).value is Some,
            self.elements@[i].initial.value is Some,
            self.elements@[i].committed.value is Some,
    {
        assert(self.elements@[i].committed.value is Some);
        assert forall|j: int| 0 <= j < self.log@.len() && self.log@[j].index == i implies (
        #[trigger] self.log@[j]).record.value is Some by {}
        lemma_current_has_value(self.log@, i, self.elements@[i].committed);
    }

    /// Marks a slot as accessed in the current transaction without reading its value
    /// (EIP-2930 access lists).
    pub fn touch_impl(&mut self, key: &WarmStorageKey, resources: &mut BaseResources) -> (r:
        Result<(), SystemError>)
        requires
            old(self).inv(),
        ensures
            final(self).inv(),
            final(self).extends(&*old(self)),
            final(self).tx_id() == old(self).tx_id(),
            final(self).refund_counter() == old(self).refund_counter(),
            final(self).refund_history_len() == old(self).refund_history_len(),
            final(self).policy() == old(self).policy(),
            forall|k: WarmStorageKey| k != *key ==> final(self).item(k) == old(self).item(k),
            charge_result(old(self).policy().touch_charge(*old(resources)), r, *final(resources)),
            r is Err ==> final(self).item(*key) == old(self).item(*key),
            r is Ok ==> final(self).item(*key) == Some(
                touch_outcome(old(self).item(*key), *key, old(self).tx_id()),
            ),
            policy_never_fails(old(self).policy()) ==> (r is Ok),
            r matches Err(e) ==> policy_error(old(self).policy(), e),
    {
        let charged = self.resources_policy.charge_access_list_storage_touch(resources);
        if let Err(e) = charged {
            return Err(e);
        }
        let tx = self.current_tx_id;
        match self.find_index(key) {
            None => {
                let rec = CacheRecord {
                    value: None,
                    metadata: StorageElementMetadata { last_touched_in_tx: Some(tx) },
                };
                let e = CacheElement {
                    key: *key,
                    properties: CacheElementProperties { is_new: false, observed: false },
                    initial: rec,
                    committed: rec,
                };
                self.push_element(e);
                Ok(())
            },
            Some(i) => {
                let cur = self.current_of(i);
                if !cur.metadata.considered_warm(tx) {
                    let e = self.elements[i];
                    let rec = CacheRecord {
                        value: cur.value,
                        metadata: StorageElementMetadata { last_touched_in_tx: Some(tx) },
                    };
                    if e.properties.observed {
                        proof {
                            self.lemma_observed_has_value(i as int);
                            lemma_push_items(self.elements@, self.log@, LogEntry { index: i, record: rec });
                        }
                        self.log_update(i, rec);
                    } else {
                        proof {
                            self.lemma_unobserved_unlogged(i as int);
                        }
                        let e2 = CacheElement { key: e.key, properties: e.properties, initial: rec, committed: rec };
                        proof {
                            lemma_replace_items(self.elements@, self.log@, i as int, e2);
                        }
                        self.replace_element(i, e2);
                        proof {
                            self.lemma_unobserved_unlogged(i as int);
                        }
                    }
                }
                Ok(())
            },
        }
    }


    /// The initial value of a slot; a new slot must have the zero value.
    fn query_initial_value<O: InitialStorageSlotOracle>(key: &WarmStorageKey, oracle: &mut O) -> (r:
        Result<(Bytes32, bool), SystemError>)
        ensures
            r == initial_slot_outcome(old(oracle).initial_slot_data(*key)),
            same_answers(*final(oracle), *old(oracle)),
            final(oracle).queried_keys()@ == old(oracle).queried_keys()@.push(*key),
    {
        let answer = oracle.query_initial_storage_slot(key);
        initial_slot_value(answer)
    }

    /// Reads a slot into the cache if needed and warms it up.
    fn materialize_index<O: InitialStorageSlotOracle>(
        &mut self,
        ee_type: ExecutionEnvironmentType,
        resources: &mut BaseResources,
        key: &WarmStorageKey,
        oracle: &mut O,
    ) -> (r: Result<(usize, IsWarmRead), SystemError>)
        requires
            old(self).inv(),
            needs_initial_value(old(self).item(*key)) ==> answer_acceptable(
                old(oracle).initial_slot_data(*key),
            ),
        ensures
            final(self).inv(),
            final(self).extends(&*old(self)),
            final(self).current_tx_id == old(self).current_tx_id,
            final(self).refund_updates@ == old(self).refund_updates@,
            final(self).resources_policy == old(self).resources_policy,
            same_answers(*final(oracle), *old(oracle)),
            forall|k: WarmStorageKey| k != *key ==> final(self).item(k) == old(self).item(k),
            r matches Ok((i, w)) ==> {
                &&& key_index(keys_of(final(self).elements@), *key) == Some(i as int)
                &&& final(self).item(*key) matches Some(n) && materialize_outcome(
                    old(self).item(*key),
                    n,
                    *key,
                    old(self).tx_id(),
                    w.0,
                ) && (needs_initial_value(old(self).item(*key)) ==> holds_answer(
                    n,
                    old(oracle).initial_slot_data(*key),
                ))
            },
            r is Err ==> materialize_failure(old(self).item(*key), final(self).item(*key)),
            charge_result(
                materialize_charges(
                    old(self).policy(),
                    ee_type,
                    *old(resources),
                    old(self).item(*key),
                    old(oracle).initial_slot_data(*key),
                    old(self).tx_id(),
                ),
                r,
                *final(resources),
            ),
            queried_once(
                *old(oracle),
                *final(oracle),
                *key,
                needs_initial_value(old(self).item(*key)) && old(self).policy().warm_read_charge(
                    ee_type,
                    *old(resources),
                ) is Ok,
            ),
    {
        let ghost answer = oracle.initial_slot_data(*key);
        let charged = self.resources_policy.charge_warm_storage_read(ee_type, resources);
        if let Err(e) = charged {
            return Err(e);
        }
        let tx = self.current_tx_id;
        let ghost s0 = *self;
        let ghost o = s0.item(*key);
        proof {
            s0.lemma_extends_refl();
        }
        let found = self.find_index(key);
        let (i, initialized) = match found {
            None => {
                let (value, is_new) = match Self::query_initial_value(key, oracle) {
                    Ok(v) => v,
                    Err(e) => {
                        return Err(e);
                    },
                };
                let cold = self.resources_policy.charge_cold_storage_read_extra(
                    ee_type,
                    resources,
                    is_new,
                );
                if let Err(e) = cold {
                    return Err(e);
                }
                let rec = CacheRecord {
                    value: Some(value),
                    metadata: StorageElementMetadata { last_touched_in_tx: None },
                };
                let e = CacheElement {
                    key: *key,
                    properties: CacheElementProperties { is_new, observed: true },
                    initial: rec,
                    committed: rec,
                };
                let i = self.push_element(e);
                proof {
                    lemma_push_element(s0.elements@, e);
                }
                (i, true)
            },
            Some(i) => (i, false),
        };
        let ghost s1 = *self;
        assert(key_index(keys_of(self.elements@), *key) == Some(i as int));
        assert(initialized ==> o is None);
        assert(!initialized ==> s1 == s0 && o is Some);
        if !self.elements[i].properties.observed {
            let (value, is_new) = match Self::query_initial_value(key, oracle) {
                Ok(v) => v,
                Err(e) => {
                    return Err(e);
                },
            };
            let e = self.elements[i];
            let rec = CacheRecord { value: Some(value), metadata: e.committed.metadata };
            let e2 = CacheElement {
                key: e.key,
                properties: CacheElementProperties { is_new, observed: true },
                initial: rec,
                committed: rec,
            };
            proof {
                self.lemma_unobserved_unlogged(i as int);
                lemma_replace_items(self.elements@, self.log@, i as int, e2);
            }
            self.replace_element(i, e2);
            proof {
                lemma_current_unlogged(self.log@, i as int, rec);
                assert(self.item(*key) == Some(
                    CacheItem {
                        key: *key,
                        properties: e2.properties,
                        initial: rec,
                        committed: rec,
                        current: rec,
                        altered_since_commit: false,
                    },
                ));
                assert forall|k: WarmStorageKey| k != *key implies self.item(k) == s1.item(k) by {
                    if let Some(j) = key_index(keys_of(s1.elements@), k) {
                        assert(j != i);
                    }
                }
                s1.lemma_extends_trans(&s0, &s0);
                self.lemma_extends_trans(&s1, &s0);
            }
        }
        let ghost s2 = *self;
        assert(key_index(keys_of(self.elements@), *key) == Some(i as int));
        proof {
            self.lemma_observed_has_value(i as int);
            if let Some(oo) = o {
                if !oo.properties.observed {
                    let j = i as int;
                    s0.lemma_unobserved_unlogged(j);
                }
            }
        }
        let cur = self.current_of(i);
        let is_warm = cur.metadata.considered_warm(tx);
        assert(s2.item(*key) matches Some(n) && n.current == cur);
        if !is_warm {
            if !initialized {
                let is_new = self.elements[i].properties.is_new;
                let charged = self.resources_policy.charge_cold_storage_read_extra(
                    ee_type,
                    resources,
                    is_new,
                );
                if let Err(err) = charged {
                    return Err(err);
                }
            }
            let rec = CacheRecord {
                value: cur.value,
                metadata: StorageElementMetadata { last_touched_in_tx: Some(tx) },
            };
            proof {
                lemma_push_items(self.elements@, self.log@, LogEntry { index: i, record: rec });
            }
            self.log_update(i, rec);
            proof {
                self.lemma_extends_trans(&s2, &s0);
            }
        }
        Ok((i, IsWarmRead(is_warm)))
    }

    /// Reads a slot into the cache if needed and warms it up, charging warm and, on the
    /// first access in the transaction, cold read costs. Returns whether it was warm.
    pub fn materialize_element<O: InitialStorageSlotOracle>(
        &mut self,
        ee_type: ExecutionEnvironmentType,
        resources: &mut BaseResources,
        key: &WarmStorageKey,
        oracle: &mut O,
    ) -> (r: Result<IsWarmRead, SystemError>)
        requires
            old(self).inv(),
            needs_initial_value(old(self).item(*key)) ==> answer_acceptable(
                old(oracle).initial_slot_data(*key),
            ),
        ensures
            final(self).inv(),
            final(self).extends(&*old(self)),
            final(self).tx_id() == old(self).tx_id(),
            final(self).refund_counter() == old(self).refund_counter(),
            final(self).refund_history_len() == old(self).refund_history_len(),
            final(self).policy() == old(self).policy(),
            same_answers(*final(oracle), *old(oracle)),
            forall|k: WarmStorageKey| k != *key ==> final(self).item(k) == old(self).item(k),
            r matches Ok(w) ==> final(self).item(*key) matches Some(n) && materialize_outcome(
                old(self).item(*key),
                n,
                *key,
                old(self).tx_id(),
                w.0,
            ) && (needs_initial_value(old(self).item(*key)) ==> holds_answer(
                n,
                old(oracle).initial_slot_data(*key),
            )),
            r is Err ==> materialize_failure(old(self).item(*key), final(self).item(*key)),
            charge_result(
                materialize_charges(
                    old(self).policy(),
                    ee_type,
                    *old(resources),
                    old(self).item(*key),
                    old(oracle).initial_slot_data(*key),
                    old(self).tx_id(),
                ),
                r,
                *final(resources),
            ),
            policy_never_fails(old(self).policy()) && (needs_initial_value(old(self).item(*key))
                ==> old(oracle).initial_slot_data(*key) is Ok) ==> (r is Ok),
            r matches Err(e) ==> access_error(old(self).policy(), e),
            queried_once(
                *old(oracle),
                *final(oracle),
                *key,
                needs_initial_value(old(self).item(*key)) && old(self).policy().warm_read_charge(
                    ee_type,
                    *old(resources),
                ) is Ok,
            ),
    {
        match self.materialize_index(ee_type, resources, key, oracle) {
            Ok((_, w)) => Ok(w),
            Err(e) => Err(e),
        }
    }


    /// Reads a slot, fetching its initial value from the oracle on first access.
    pub fn apply_read_impl<O: InitialStorageSlotOracle>(
        &mut self,
        ee_type: ExecutionEnvironmentType,
        key: &WarmStorageKey,
        resources: &mut BaseResources,
        oracle: &mut O,
    ) -> (r: Result<Bytes32, SystemError>)
        requires
            old(self).inv(),
            needs_initial_value(old(self).item(*key)) ==> answer_acceptable(
                old(oracle).initial_slot_data(*key),
            ),
        ensures
            final(self).inv(),
            final(self).extends(&*old(self)),
            final(self).tx_id() == old(self).tx_id(),
            final(self).refund_counter() == old(self).refund_counter(),
            final(self).refund_history_len() == old(self).refund_history_len(),
            final(self).policy() == old(self).policy(),
            same_answers(*final(oracle), *old(oracle)),
            forall|k: WarmStorageKey| k != *key ==> final(self).item(k) == old(self).item(k),
            r matches Ok(v) ==> final(self).item(*key) matches Some(n) && n.current.value == Some(v)
                && exists|w: bool| materialize_outcome(old(self).item(*key), n, *key, old(self).tx_id(), w),
            r matches Ok(v) ==> (needs_initial_value(old(self).item(*key)) ==> (old(
                oracle,
            ).initial_slot_data(*key) matches Ok(d) && v == d.initial_value)),
            r matches Ok(v) ==> slot_state(*old(self), *old(oracle), *key) == Some(v),
            r is Err ==> materialize_failure(old(self).item(*key), final(self).item(*key)),
            charge_result(
                materialize_charges(
                    old(self).policy(),
                    ee_type,
                    *old(resources),
                    old(self).item(*key),
                    old(oracle).initial_slot_data(*key),
                    old(self).tx_id(),
                ),
                r,
                *final(resources),
            ),
            policy_never_fails(old(self).policy()) && (needs_initial_value(old(self).item(*key))
                ==> old(oracle).initial_slot_data(*key) is Ok) ==> (r is Ok),
            r matches Err(e) ==> access_error(old(self).policy(), e),
            queried_once(
                *old(oracle),
                *final(oracle),
                *key,
                needs_initial_value(old(self).item(*key)) && old(self).policy().warm_read_charge(
                    ee_type,
                    *old(resources),
                ) is Ok,
            ),
    {
        let (i, _w) = match self.materialize_index(ee_type, resources, key, oracle) {
            Ok(v) => v,
            Err(e) => {
                return Err(e);
            },
        };
        proof {
            self.lemma_observed_has_value(i as int);
        }
        let cur = self.current_of(i);
        Ok(cur.value.unwrap())
    }

    /// Writes a slot, charging for the write and recording the EVM refund.
    /// Returns the value before the write and the value at the start of the transaction.
    pub fn apply_write_impl<O: InitialStorageSlotOracle>(
        &mut self,
        ee_type: ExecutionEnvironmentType,
        key: &WarmStorageKey,
        new_value: &Bytes32,
        oracle: &mut O,
        resources: &mut BaseResources,
    ) -> (r: Result<(Bytes32, Bytes32), SystemError>)
        requires
            old(self).inv(),
            needs_initial_value(old(self).item(*key)) ==> answer_acceptable(
                old(oracle).initial_slot_data(*key),
            ),
        ensures
            final(self).inv(),
            final(self).extends(&*old(self)),
            final(self).tx_id() == old(self).tx_id(),
            final(self).policy() == old(self).policy(),
            same_answers(*final(oracle), *old(oracle)),
            r matches Ok((old_value, value_at_tx_start)) ==> (needs_initial_value(
                old(self).item(*key),
            ) ==> (old(oracle).initial_slot_data(*key) matches Ok(d) && old_value == d.initial_value
                && value_at_tx_start == d.initial_value)),
            forall|k: WarmStorageKey| k != *key ==> final(self).item(k) == old(self).item(k),
            r matches Ok((old_value, value_at_tx_start)) ==> exists|m: CacheItem, w: bool|
                {
                    &&& materialize_outcome(old(self).item(*key), m, *key, old(self).tx_id(), w)
                    &&& final(self).item(*key) == Some(written_item(m, *new_value))
                    &&& m.current.value == Some(old_value)
                    &&& m.committed.value == Some(value_at_tx_start)
                },
            r is Ok ==> final(self).refund_history_len() == old(self).refund_history_len() + 1,
            r is Err ==> materialize_failure(old(self).item(*key), final(self).item(*key))
                || exists|m: CacheItem, w: bool|
                {
                    &&& materialize_outcome(old(self).item(*key), m, *key, old(self).tx_id(), w)
                    &&& (final(self).item(*key) == Some(m) || final(self).item(*key) == Some(
                        written_item(m, *new_value),
                    ))
                },
            match materialize_charges(
                old(self).policy(),
                ee_type,
                *old(resources),
                old(self).item(*key),
                old(oracle).initial_slot_data(*key),
                old(self).tx_id(),
            ) {
                Err(e) => r matches Err(e2) && e2 == e,
                Ok(after_read) => exists|m: CacheItem, w: bool|
                    {
                        &&& materialize_outcome(old(self).item(*key), m, *key, old(self).tx_id(), w)
                        &&& (needs_initial_value(old(self).item(*key)) ==> holds_answer(
                            m,
                            old(oracle).initial_slot_data(*key),
                        ))
                        &&& write_charged(
                            write_charges(
                                old(self).policy(),
                                ee_type,
                                after_read,
                                m,
                                w,
                                *new_value,
                                old(self).refund_counter(),
                            ),
                            r,
                            *final(resources),
                            final(self).refund_counter(),
                        )
                    },
            },
            policy_never_fails(old(self).policy()) && (needs_initial_value(old(self).item(*key))
                ==> old(oracle).initial_slot_data(*key) is Ok) ==> (r is Ok),
            r matches Err(e) ==> access_error(old(self).policy(), e),
            queried_once(
                *old(oracle),
                *final(oracle),
                *key,
                needs_initial_value(old(self).item(*key)) && old(self).policy().warm_read_charge(
                    ee_type,
                    *old(resources),
                ) is Ok,
            ),
    {
        let ghost s0 = *self;
        let ghost answer = oracle.initial_slot_data(*key);
        let (i, w) = match self.materialize_index(ee_type, resources, key, oracle) {
            Ok(v) => v,
            Err(e) => {
                return Err(e);
            },
        };
        let ghost s1 = *self;
        let ghost m = s1.item(*key).unwrap();
        let ghost after_read = *resources;
        let ghost refund0 = s0.refund_counter();
        proof {
            self.lemma_observed_has_value(i as int);
        }
        let cur = self.current_of(i);
        let val_current = cur.value.unwrap();
        let val_at_tx_start = self.elements[i].committed.value.unwrap();
        let is_new_slot = self.elements[i].properties.is_new;
        let charged = self.resources_policy.charge_storage_write_extra(
            ee_type,
            &val_at_tx_start,
            &val_current,
            new_value,
            resources,
            w.0,
            is_new_slot,
        );
        if let Err(e) = charged {
            assert(write_charged(
                write_charges(s0.policy(), ee_type, after_read, m, w.0, *new_value, refund0),
                Err::<(Bytes32, Bytes32), SystemError>(e),
                *resources,
                self.refund_counter(),
            ));
            return Err(e);
        }
        let rec = CacheRecord { value: Some(*new_value), metadata: cur.metadata };
        proof {
            lemma_push_items(self.elements@, self.log@, LogEntry { index: i, record: rec });
        }
        self.log_update(i, rec);
        proof {
            self.lemma_extends_trans(&s1, &s0);
            assert(self.item(*key) == Some(written_item(m, *new_value)));
        }
        let mut refund_counter_value = self.refund_value();
        let refunded = self.resources_policy.refund_for_storage_write(
            ee_type,
            &val_at_tx_start,
            &val_current,
            new_value,
            resources,
            &mut refund_counter_value,
        );
        if let Err(e) = refunded {
            assert(write_charged(
                write_charges(s0.policy(), ee_type, after_read, m, w.0, *new_value, refund0),
                Err::<(Bytes32, Bytes32), SystemError>(e),
                *resources,
                self.refund_counter(),
            ));
            return Err(e);
        }
        let ghost s2 = *self;
        self.refund_updates.push(refund_counter_value);
        proof {
            assert(s2.refund_updates@.is_prefix_of(self.refund_updates@));
            assert(self.log@.is_prefix_of(self.log@));
            self.lemma_extends_trans(&s2, &s0);
            assert(self.item(*key) == s2.item(*key));
            assert(self.refund_counter() == refund_counter_value);
            assert(write_charged(
                write_charges(s0.policy(), ee_type, after_read, m, w.0, *new_value, refund0),
                Ok::<(Bytes32, Bytes32), SystemError>((val_current, val_at_tx_start)),
                *resources,
                self.refund_counter(),
            ));
        }
        Ok((val_current, val_at_tx_start))
    }

    /// The current value of the refund counter.
    fn refund_value(&self) -> (r: BaseResources)
        ensures
            r == self.refund_counter(),
    {
        if self.refund_updates.len() == 0 {
            self.refund_initial
        } else {
            self.refund_updates[self.refund_updates.len() - 1]
        }
    }

    /// Sets every observed slot of `address` to zero (account destruction).
    pub fn clear_state_impl(&mut self, address: &B160) -> (r: Result<(), SystemError>)
        requires
            old(self).inv(),
        ensures
            r is Ok,
            final(self).inv(),
            final(self).extends(&*old(self)),
            final(self).tx_id() == old(self).tx_id(),
            final(self).refund_counter() == old(self).refund_counter(),
            final(self).refund_history_len() == old(self).refund_history_len(),
            final(self).policy() == old(self).policy(),
            forall|k: WarmStorageKey|
                (old(self).item(k) is None <==> final(self).item(k) is None),
            forall|k: WarmStorageKey|
                #![trigger final(self).item(k)]
                old(self).item(k) matches Some(o) ==> cleared(o, final(self).item(k).unwrap(), *address),
    {
        let ghost s0 = *self;
        proof {
            s0.lemma_extends_refl();
        }
        let zero = Bytes32::zero();
        let n = self.elements.len();
        let mut i: usize = 0;
        while i < n
            invariant
                n == self.elements@.len(),
                0 <= i <= n,
                self.inv(),
                self.extends(&s0),
                self.elements@ == s0.elements@,
                self.current_tx_id == s0.current_tx_id,
                self.refund_initial == s0.refund_initial,
                self.refund_updates@ == s0.refund_updates@,
                self.resources_policy == s0.resources_policy,
                is_zero_word(zero),
                forall|j: int|
                    0 <= j < i ==> cleared(
                        item_of(s0.elements@, s0.log@, j),
                        #[trigger] item_of(self.elements@, self.log@, j),
                        *address,
                    ),
                forall|j: int|
                    i <= j < n ==> #[trigger] item_of(self.elements@, self.log@, j) == item_of(
                        s0.elements@,
                        s0.log@,
                        j,
                    ),
            decreases n - i,
        {
            let e = self.elements[i];
            let ghost sb = *self;
            if e.key.address.equals(address) && e.properties.observed {
                proof {
                    self.lemma_observed_has_value(i as int);
                }
                let cur = self.current_of(i);
                let rec = CacheRecord { value: Some(zero), metadata: cur.metadata };
                proof {
                    lemma_push_items(self.elements@, self.log@, LogEntry { index: i, record: rec });
                }
                self.log_update(i, rec);
                proof {
                    self.lemma_extends_trans(&sb, &s0);
                    assert(item_of(sb.elements@, sb.log@, i as int) == item_of(s0.elements@, s0.log@, i as int));
                }
            }
            proof {
                assert forall|j: int| 0 <= j < n && j != i implies #[trigger] item_of(self.elements@, self.log@, j)
                    == item_of(sb.elements@, sb.log@, j) by {}
                assert(cleared(
                    item_of(s0.elements@, s0.log@, i as int),
                    item_of(self.elements@, self.log@, i as int),
                    *address,
                ));
            }
            i = i + 1;
        }
        proof {
            assert forall|k: WarmStorageKey| #![trigger self.item(k)] old(self).item(k) is Some implies cleared(
                old(self).item(k).unwrap(),
                self.item(k).unwrap(),
                *address,
            ) by {
                let j = key_index(keys_of(s0.elements@), k).unwrap();
                assert(cleared(item_of(s0.elements@, s0.log@, j), item_of(self.elements@, self.log@, j), *address));
            }
        }
        Ok(())
    }

    /// Commits the previous transaction: current records become the committed ones and
    /// the refund counter restarts from zero.
    pub fn begin_new_tx(&mut self)
        requires
            old(self).inv(),
        ensures
            final(self).inv(),
            final(self).tx_id() == old(self).tx_id(),
            final(self).policy() == old(self).policy(),
            final(self).history_len() == 0,
            final(self).refund_history_len() == 0,
            final(self).refund_counter() == (BaseResources { ergs: 0, native: 0 }),
            forall|k: WarmStorageKey|
                #![trigger final(self).item(k)]
                final(self).item(k) == match old(self).item(k) {
                    Some(o) => Some(committed_item(o)),
                    None => None,
                },
    {
        let ghost s0 = *self;
        let len = self.log.len();
        let mut j: usize = 0;
        while j < len
            invariant
                len == s0.log@.len(),
                0 <= j <= len,
                self.log@ == s0.log@,
                self.elements@.len() == s0.elements@.len(),
                self.current_tx_id == s0.current_tx_id,
                self.resources_policy == s0.resources_policy,
                s0.inv(),
                forall|t: int|
                    0 <= t < self.elements@.len() ==> #[trigger] self.elements@[t] == (CacheElement {
                        committed: current_record(s0.log@.subrange(0, j as int), t, s0.elements@[t].committed),
                        ..s0.elements@[t]
                    }),
            decreases len - j,
        {
            let entry = self.log[j];
            let idx = entry.index;
            let mut e = self.elements[idx];
            e.committed = entry.record;
            self.elements.set(idx, e);
            proof {
                let pre = s0.log@.subrange(0, j as int);
                assert(s0.log@.subrange(0, j + 1) =~= pre.push(entry));
                assert forall|t: int| 0 <= t < self.elements@.len() implies #[trigger] self.elements@[t] == (CacheElement {
                    committed: current_record(s0.log@.subrange(0, j + 1), t, s0.elements@[t].committed),
                    ..s0.elements@[t]
                }) by {
                    lemma_current_push(pre, entry, t, s0.elements@[t].committed);
                }
            }
            j = j + 1;
        }
        self.log.clear();
        self.refund_initial = BaseResources::empty();
        self.refund_updates = Vec::new();
        proof {
            assert(s0.log@.subrange(0, len as int) =~= s0.log@);
            assert(keys_of(self.elements@) =~= keys_of(s0.elements@));
            assert forall|t: int| 0 <= t < self.elements@.len() implies {
                let e = #[trigger] self.elements@[t];
                &&& !e.properties.observed ==> e.initial == e.committed && e.committed.value is None
                &&& e.properties.observed ==> e.initial.value is Some && e.committed.value is Some
            } by {
                if s0.elements@[t].properties.observed {
                    s0.lemma_observed_has_value(t);
                } else {
                    s0.lemma_unobserved_unlogged(t);
                }
            }
            assert forall|k: WarmStorageKey| #![trigger self.item(k)] self.item(k) == match s0.item(k) {
                Some(o) => Some(committed_item(o)),
                None => None,
            } by {
                if let Some(t) = key_index(keys_of(s0.elements@), k) {
                    lemma_current_unlogged(self.log@, t, self.elements@[t].committed);
                }
            }
        }
    }

    /// Moves on to the next transaction id.
    pub fn finish_tx(&mut self)
        requires
            old(self).inv(),
            old(self).tx_id().0 < u32::MAX,
        ensures
            final(self).inv(),
            final(self).tx_id() == TransactionId((old(self).tx_id().0 + 1) as u32),
            final(self).policy() == old(self).policy(),
            final(self).history_len() == old(self).history_len(),
            final(self).refund_counter() == old(self).refund_counter(),
            final(self).refund_history_len() == old(self).refund_history_len(),
            forall|k: WarmStorageKey| final(self).item(k) == old(self).item(k),
    {
        self.current_tx_id = TransactionId(self.current_tx_id.0 + 1);
    }

    /// A handle to the current state, for a later rollback.
    pub fn start_frame(&self) -> (r: StorageSnapshotId)
        ensures
            r.cache == self.history_len(),
            r.evm_refunds_counter == self.refund_history_len(),
    {
        StorageSnapshotId { cache: self.log.len(), evm_refunds_counter: self.refund_updates.len() }
    }

    /// Ends a frame; with a handle, undoes the changes logged since it was taken.
    pub fn finish_frame_impl(&mut self, rollback_handle: Option<&StorageSnapshotId>) -> (r: Result<
        (),
        InternalError,
    >)
        requires
            old(self).inv(),
        ensures
            final(self).inv(),
            final(self).tx_id() == old(self).tx_id(),
            final(self).policy() == old(self).policy(),
            rollback_handle is None ==> r is Ok && *final(self) == *old(self),
            rollback_handle matches Some(h) ==> {
                &&& final(self).refund_counter() == old(self).refund_counter_at(
                    h.evm_refunds_counter as nat,
                )
                &&& final(self).refund_history_len() == if h.evm_refunds_counter
                    <= old(self).refund_history_len() {
                    h.evm_refunds_counter as nat
                } else {
                    old(self).refund_history_len()
                }
                &&& (h.cache <= old(self).history_len() ==> {
                    &&& r is Ok
                    &&& final(self).history_len() == h.cache
                    &&& forall|k: WarmStorageKey|
                        final(self).item(k) == old(self).item_at(k, h.cache as nat)
                })
                &&& (h.cache > old(self).history_len() ==> {
                    &&& r == Err::<(), InternalError>(InternalError::InvalidSnapshot)
                    &&& forall|k: WarmStorageKey| final(self).item(k) == old(self).item(k)
                })
            },
    {
        match rollback_handle {
            None => Ok(()),
            Some(x) => {
                self.refund_updates.truncate(x.evm_refunds_counter);
                if x.cache > self.log.len() {
                    return Err(InternalError::InvalidSnapshot);
                }
                self.log.truncate(x.cache);
                proof {
                    let l0 = old(self).log@;
                    assert forall|j: int| 0 <= j < self.log@.len() implies self.log@[j] == l0[j] by {}
                }
                Ok(())
            },
        }
    }

    /// The refund counter.
    pub fn get_refund_counter_impl(&self) -> (r: &BaseResources)
        ensures
            *r == self.refund_counter(),
    {
        if self.refund_updates.len() == 0 {
            &self.refund_initial
        } else {
            &self.refund_updates[self.refund_updates.len() - 1]
        }
    }

    /// Adds the ergs of `refund` to the refund counter.
    pub fn add_to_refund_counter_impl(&mut self, refund: BaseResources) -> (r: Result<(), SystemError>)
        requires
            old(self).inv(),
            old(self).refund_counter().ergs + refund.ergs <= u64::MAX,
        ensures
            r is Ok,
            final(self).inv(),
            final(self).extends(&*old(self)),
            final(self).tx_id() == old(self).tx_id(),
            final(self).policy() == old(self).policy(),
            final(self).history_len() == old(self).history_len(),
            final(self).refund_history_len() == old(self).refund_history_len() + 1,
            final(self).refund_counter() == (BaseResources {
                ergs: (old(self).refund_counter().ergs + refund.ergs) as u64,
                ..old(self).refund_counter()
            }),
            forall|k: WarmStorageKey| final(self).item(k) == old(self).item(k),
    {
        let mut t = self.refund_value();
        t.add_ergs(refund.ergs());
        self.refund_updates.push(t);
        proof {
            assert(old(self).refund_updates@.is_prefix_of(self.refund_updates@));
            assert(self.log@.is_prefix_of(self.log@));
            assert(self.refund_updates@.last() == t);
        }
        Ok(())
    }

    /// The keys of the slots with rollback-able changes in the current transaction,
    /// in order of their first change.
    pub fn altered_keys_since_commit(&self) -> (r: Vec<WarmStorageKey>)
        requires
            self.inv(),
        ensures
            forall|k: WarmStorageKey|
                r@.contains(k) <==> (self.item(k) matches Some(it) && it.altered_since_commit),
            r@.no_duplicates(),
    {
        let mut r: Vec<WarmStorageKey> = Vec::new();
        let n = self.elements.len();
        let mut i: usize = 0;
        while i < n
            invariant
                self.inv(),
                i <= n,
                n == self.elements@.len(),
                forall|x: WarmStorageKey|
                    r@.contains(x) <==> exists|t: int|
                        0 <= t < i && logged(self.log@, t) && keys_of(self.elements@)[t] == x,
                r@.no_duplicates(),
            decreases n - i,
        {
            if self.is_logged(i) {
                let ghost r0 = r@;
                let k = self.elements[i].key;
                proof {
                    assert(keys_of(self.elements@)[i as int] == k);
                    if r0.contains(k) {
                        let t = choose|t: int|
                            0 <= t < i && logged(self.log@, t) && keys_of(self.elements@)[t] == k;
                        assert(false);
                    }
                }
                r.push(k);
                proof {
                    assert forall|x: WarmStorageKey|
                        r@.contains(x) <==> exists|t: int|
                            0 <= t < i + 1 && logged(self.log@, t) && keys_of(self.elements@)[t] == x by {
                        if r@.contains(x) && !r0.contains(x) {
                            let q = choose|q: int| 0 <= q < r@.len() && r@[q] == x;
                            assert(q == r0.len());
                            assert(x == k);
                        }
                        if x == k {
                            assert(r@[r0.len() as int] == k);
                        }
                        if exists|t: int|
                            0 <= t < i + 1 && logged(self.log@, t) && keys_of(self.elements@)[t] == x {
                            let t = choose|t: int|
                                0 <= t < i + 1 && logged(self.log@, t) && keys_of(self.elements@)[t] == x;
                            if t < i {
                                assert(r0.contains(x));
                                let q = choose|q: int| 0 <= q < r0.len() && r0[q] == x;
                                assert(r@[q] == x);
                            } else {
                                assert(x == k);
                            }
                        }
                    }
                }
            }
            i = i + 1;
        }
        proof {
            assert forall|k: WarmStorageKey|
                r@.contains(k) <==> (self.item(k) matches Some(it) && it.altered_since_commit) by {
                if r@.contains(k) {
                    let t = choose|t: int|
                        0 <= t < n && logged(self.log@, t) && keys_of(self.elements@)[t] == k;
                    lemma_key_index_found(keys_of(self.elements@), t);
                }
                if let Some(t) = key_index(keys_of(self.elements@), k) {
                    assert(keys_of(self.elements@)[t] == k);
                }
            }
        }
        r
    }


    /// Rolling back to a snapshot taken at `earlier` restores every slot whose value had
    /// been observed by then, and the refund counter, whatever was done in between
    /// within the same transaction.
    pub proof fn lemma_rollback_restores(earlier: &Self, later: &Self)
        requires
            earlier.inv(),
            later.inv(),
            later.extends(earlier),
        ensures
            forall|k: WarmStorageKey|
                #![trigger later.item_at(k, earlier.history_len())]
                earlier.item(k) matches Some(o) && o.properties.observed ==> later.item_at(
                    k,
                    earlier.history_len(),
                ) == earlier.item(k),
            later.refund_counter_at(earlier.refund_history_len()) == earlier.refund_counter(),
    {
        let n = earlier.log@.len();
        assert(later.log@.subrange(0, n as int) =~= earlier.log@);
        assert forall|k: WarmStorageKey|
            #![trigger later.item_at(k, earlier.history_len())]
            earlier.item(k) matches Some(o) && o.properties.observed implies later.item_at(
                k,
                earlier.history_len(),
            ) == earlier.item(k) by {
            let i = key_index(keys_of(earlier.elements@), k).unwrap();
            assert(keys_of(earlier.elements@)[i] == k);
            assert(later.elements@[i] == earlier.elements@[i]);
            assert(keys_of(later.elements@)[i] == k);
            lemma_key_index_found(keys_of(later.elements@), i);
        }
        let m = earlier.refund_updates@.len();
        if m > 0 {
            assert(later.refund_updates@[m - 1] == earlier.refund_updates@[m - 1]);
        }
    }

    /// A frame that is ended with the handle of its start undoes all changes made
    /// within it to slots observed at its start, and to the refund counter.
    pub proof fn lemma_frame_rollback(at_start: &Self, before_end: &Self, after_end: &Self, handle: StorageSnapshotId)
        requires
            at_start.inv(),
            before_end.inv(),
            before_end.extends(at_start),
            handle.cache == at_start.history_len(),
            handle.evm_refunds_counter == at_start.refund_history_len(),
            forall|k: WarmStorageKey|
                after_end.item(k) == before_end.item_at(k, handle.cache as nat),
            after_end.refund_counter() == before_end.refund_counter_at(
                handle.evm_refunds_counter as nat,
            ),
        ensures
            forall|k: WarmStorageKey|
                #![trigger after_end.item(k)]
                at_start.item(k) matches Some(o) && o.properties.observed ==> after_end.item(k)
                    == at_start.item(k),
            after_end.refund_counter() == at_start.refund_counter(),
    {
        Self::lemma_rollback_restores(at_start, before_end);
        assert forall|k: WarmStorageKey|
            #![trigger after_end.item(k)]
            at_start.item(k) matches Some(o) && o.properties.observed implies after_end.item(k)
                == at_start.item(k) by {
            assert(after_end.item(k) == before_end.item_at(k, handle.cache as nat));
        }
    }

    pub fn current_tx_id(&self) -> (r: TransactionId)
        ensures
            r == self.tx_id(),
    {
        self.current_tx_id
    }

    pub fn resources_policy(&self) -> (r: &P)
        ensures
            *r == self.policy(),
    {
        &self.resources_policy
    }
}


/// What is reported about an observed slot at the end of execution.
#[derive(Clone, Copy, Debug, PartialEq, Eq)]
pub struct WarmStorageValue {
    pub current_value: Bytes32,
    pub is_new_storage_slot: bool,
    pub initial_value: Bytes32,
    pub initial_value_used: bool,
}

/// The reported value of an observed item.
pub open spec fn storage_value_of(it: CacheItem) -> WarmStorageValue {
    WarmStorageValue {
        current_value: it.current.value.unwrap(),
        is_new_storage_slot: it.properties.is_new,
        initial_value: it.initial.value.unwrap(),
        initial_value_used: true,
    }
}

/// The pubdata an item accounts for: its key and compressed diff, if it was changed in
/// this transaction, ends away from its initial value and away from the value at the
/// start of the transaction; slots of the account-properties account publish preimages
/// instead and are not counted.
pub open spec fn item_pubdata(it: CacheItem) -> nat {
    if it.altered_since_commit && it.key.address@ != account_properties_address_bytes()
        && it.current.value is Some && it.initial.value is Some && it.committed.value is Some
        && it.current.value != it.initial.value && it.committed.value != it.current.value {
        32 + compression_len(
            be_nat(it.committed.value.unwrap()@),
            be_nat(it.current.value.unwrap()@),
        )
    } else {
        0
    }
}

/// The pubdata of the first `n` elements.
pub open spec fn pubdata_sum(elems: Seq<CacheElement>, log: Seq<LogEntry>, n: int) -> nat
    decreases n,
{
    if n <= 0 {
        0
    } else {
        pubdata_sum(elems, log, n - 1) + item_pubdata(item_of(elems, log, n - 1))
    }
}

/// A slot publishes nothing when its value is back at its value from the start of the
/// block, or has not moved since the start of the transaction.
pub proof fn lemma_unchanged_slot_publishes_nothing(it: CacheItem)
    requires
        it.current.value == it.initial.value || it.current.value == it.committed.value,
    ensures
        item_pubdata(it) == 0,
{
}

/// A slot of an ordinary account changed in this transaction, whose value differs both
/// from its value at the start of the block and from its value at the start of the
/// transaction, publishes its 32-byte key and the compressed diff from the latter: at
/// least 33 and at most 65 bytes.
pub proof fn lemma_changed_slot_publishes_key_and_diff(it: CacheItem)
    requires
        it.altered_since_commit,
        it.key.address@ != account_properties_address_bytes(),
        it.current.value matches Some(c) && it.initial.value is Some && it.committed.value is Some,
        it.current.value != it.initial.value,
        it.current.value != it.committed.value,
    ensures
        item_pubdata(it) == 32 + compression_len(
            be_nat(it.committed.value.unwrap()@),
            be_nat(it.current.value.unwrap()@),
        ),
        33 <= item_pubdata(it) <= 65,
{
    crate::pubdata::lemma_compression_len_bound(
        be_nat(it.committed.value.unwrap()@),
        be_nat(it.current.value.unwrap()@),
    );
}

/// Slots that publish nothing add nothing to a sum.
proof fn lemma_pubdata_sum_zero(elems: Seq<CacheElement>, log: Seq<LogEntry>, n: int)
    requires
        forall|i: int| 0 <= i < n ==> #[trigger] item_pubdata(item_of(elems, log, i)) == 0,
    ensures
        pubdata_sum(elems, log, n) == 0,
    decreases n,
{
    if n > 0 {
        lemma_pubdata_sum_zero(elems, log, n - 1);
    }
}

pub proof fn lemma_item_pubdata_bound(it: CacheItem)
    ensures
        item_pubdata(it) <= 65,
{
    if item_pubdata(it) > 0 {
        lemma_compression_len_bound(
            be_nat(it.committed.value.unwrap()@),
            be_nat(it.current.value.unwrap()@),
        );
    }
}

/// The reported entry of element `t`.
pub open spec fn entry_at(elems: Seq<CacheElement>, log: Seq<LogEntry>, t: int) -> (
    WarmStorageKey,
    WarmStorageValue,
) {
    (elems[t].key, storage_value_of(item_of(elems, log, t)))
}

/// The reported entries of the observed elements among the first `n`, in order.
pub open spec fn observed_entries_upto(elems: Seq<CacheElement>, log: Seq<LogEntry>, n: int) -> Seq<
    (WarmStorageKey, WarmStorageValue),
>
    decreases n,
{
    if n <= 0 {
        Seq::empty()
    } else {
        let prev = observed_entries_upto(elems, log, n - 1);
        if elems[n - 1].properties.observed {
            prev.push(entry_at(elems, log, n - 1))
        } else {
            prev
        }
    }
}

pub proof fn lemma_observed_entries_upto(elems: Seq<CacheElement>, log: Seq<LogEntry>, n: int)
    requires
        0 <= n <= elems.len(),
        keys_unique(keys_of(elems)),
    ensures
        forall|x: (WarmStorageKey, WarmStorageValue)|
            observed_entries_upto(elems, log, n).contains(x) <==> exists|t: int|
                0 <= t < n && elems[t].properties.observed && x == entry_at(elems, log, t),
        forall|a: int, b: int|
            0 <= a < b < observed_entries_upto(elems, log, n).len() ==> observed_entries_upto(
                elems,
                log,
                n,
            )[a].0 != observed_entries_upto(elems, log, n)[b].0,
    decreases n,
{
    if n > 0 {
        lemma_observed_entries_upto(elems, log, n - 1);
        let prev = observed_entries_upto(elems, log, n - 1);
        let cur = observed_entries_upto(elems, log, n);
        if elems[n - 1].properties.observed {
            let e = entry_at(elems, log, n - 1);
            assert(cur == prev.push(e));
            assert forall|x: (WarmStorageKey, WarmStorageValue)|
                cur.contains(x) <==> exists|t: int|
                    0 <= t < n && elems[t].properties.observed && x == entry_at(elems, log, t) by {
                if cur.contains(x) {
                    let q = choose|q: int| 0 <= q < cur.len() && cur[q] == x;
                    if q < prev.len() {
                        assert(prev[q] == x);
                        assert(prev.contains(x));
                    } else {
                        assert(x == entry_at(elems, log, n - 1));
                    }
                }
                if exists|t: int|
                    0 <= t < n && elems[t].properties.observed && x == entry_at(elems, log, t) {
                    let t = choose|t: int|
                        0 <= t < n && elems[t].properties.observed && x == entry_at(elems, log, t);
                    if t < n - 1 {
                        assert(prev.contains(x));
                        let q = choose|q: int| 0 <= q < prev.len() && prev[q] == x;
                        assert(cur[q] == x);
                    } else {
                        assert(cur[prev.len() as int] == x);
                    }
                }
            }
            assert forall|a: int, b: int| 0 <= a < b < cur.len() implies cur[a].0 != cur[b].0 by {
                assert(cur[a] == prev[a] || a == prev.len());
                if b == prev.len() {
                    assert(cur[a] == prev[a]);
                    assert(prev.contains(prev[a]));
                    let t = choose|t: int|
                        0 <= t < n - 1 && elems[t].properties.observed && prev[a] == entry_at(
                            elems,
                            log,
                            t,
                        );
                    assert(keys_of(elems)[t] == elems[t].key);
                    assert(keys_of(elems)[n - 1] == elems[n - 1].key);
                } else {
                    assert(cur[a] == prev[a]);
                    assert(cur[b] == prev[b]);
                }
            }
        } else {
            assert(cur == prev);
            assert forall|x: (WarmStorageKey, WarmStorageValue)|
                cur.contains(x) <==> exists|t: int|
                    0 <= t < n && elems[t].properties.observed && x == entry_at(elems, log, t) by {
                if exists|t: int|
                    0 <= t < n && elems[t].properties.observed && x == entry_at(elems, log, t) {
                    let t = choose|t: int|
                        0 <= t < n && elems[t].properties.observed && x == entry_at(elems, log, t);
                    assert(t < n - 1);
                }
            }
        }
    }
}

impl<P: StorageAccessPolicy> GenericPubdataAwarePlainStorage<P> {
    /// The number of cached slots.
    pub closed spec fn slot_count(&self) -> nat {
        self.elements@.len()
    }

    /// The pubdata of all cached slots.
    pub closed spec fn pubdata_total(&self) -> nat {
        pubdata_sum(self.elements@, self.log@, self.elements@.len() as int)
    }

    /// Observed slots with their reported values, each key once; touched-only slots are
    /// left out.
    pub fn observed_entries(&self) -> (r: Vec<(WarmStorageKey, WarmStorageValue)>)
        requires
            self.inv(),
        ensures
            forall|k: WarmStorageKey, v: WarmStorageValue|
                r@.contains((k, v)) <==> (self.item(k) matches Some(it) && it.properties.observed
                    && v == storage_value_of(it)),
            forall|a: int, b: int| 0 <= a < b < r@.len() ==> r@[a].0 != r@[b].0,
    {
        let mut r: Vec<(WarmStorageKey, WarmStorageValue)> = Vec::new();
        let n = self.elements.len();
        let mut i: usize = 0;
        while i < n
            invariant
                self.inv(),
                i <= n,
                n == self.elements@.len(),
                r@ == observed_entries_upto(self.elements@, self.log@, i as int),
            decreases n - i,
        {
            let e = self.elements[i];
            if e.properties.observed {
                proof {
                    self.lemma_observed_has_value(i as int);
                }
                let cur = self.current_of(i);
                let v = WarmStorageValue {
                    current_value: cur.value.unwrap(),
                    is_new_storage_slot: e.properties.is_new,
                    initial_value: e.initial.value.unwrap(),
                    initial_value_used: true,
                };
                r.push((e.key, v));
            }
            i = i + 1;
        }
        proof {
            let elems = self.elements@;
            let log = self.log@;
            lemma_observed_entries_upto(elems, log, n as int);
            assert forall|k: WarmStorageKey, v: WarmStorageValue|
                r@.contains((k, v)) <==> (self.item(k) matches Some(it) && it.properties.observed
                    && v == storage_value_of(it)) by {
                if r@.contains((k, v)) {
                    let t = choose|t: int|
                        0 <= t < n && elems[t].properties.observed && (k, v) == entry_at(
                            elems,
                            log,
                            t,
                        );
                    assert(keys_of(elems)[t] == k);
                    lemma_key_index_found(keys_of(elems), t);
                }
                if let Some(t) = key_index(keys_of(elems), k) {
                    assert(keys_of(elems)[t] == k);
                    if self.item(k) matches Some(it) && it.properties.observed && v
                        == storage_value_of(it) {
                        assert((k, v) == entry_at(elems, log, t));
                    }
                }
            }
        }
        r
    }

    /// A cache whose every slot holds the value it had at the start of the block (or has
    /// not moved in this transaction) makes the transaction publish nothing.
    pub proof fn lemma_unchanged_slots_publish_nothing(&self)
        requires
            self.inv(),
            forall|k: WarmStorageKey|
                #[trigger] self.item(k) matches Some(it) ==> (it.current.value == it.initial.value
                    || it.current.value == it.committed.value),
        ensures
            self.pubdata_total() == 0,
    {
        let elems = self.elements@;
        let log = self.log@;
        assert forall|i: int| 0 <= i < elems.len() implies #[trigger] item_pubdata(
            item_of(elems, log, i),
        ) == 0 by {
            lemma_key_index_found(keys_of(elems), i);
            let k = keys_of(elems)[i];
            assert(self.item(k) == Some(item_of(elems, log, i)));
            lemma_unchanged_slot_publishes_nothing(item_of(elems, log, i));
        }
        lemma_pubdata_sum_zero(elems, log, elems.len() as int);
    }

    /// The sum of `item_pubdata` over all cached slots.
    pub fn pubdata_used(&self) -> (r: u32)
        requires
            self.inv(),
            self.slot_count() * 65 <= u32::MAX,
        ensures
            r == self.pubdata_total(),
    {
        let props = account_properties_storage_address();
        let n = self.elements.len();
        let mut total: u32 = 0;
        let mut i: usize = 0;
        while i < n
            invariant
                self.inv(),
                i <= n,
                n == self.elements@.len(),
                n * 65 <= u32::MAX,
                props@ == account_properties_address_bytes(),
                total == pubdata_sum(self.elements@, self.log@, i as int),
                total <= i * 65,
            decreases n - i,
        {
            let e = self.elements[i];
            let ghost it = item_of(self.elements@, self.log@, i as int);
            proof {
                lemma_item_pubdata_bound(it);
            }
            if self.is_logged(i) && !e.key.address.equals(&props) {
                let cur = self.current_of(i);
                match (cur.value, e.initial.value, e.committed.value) {
                    (Some(current_value), Some(initial_value), Some(at_tx_start_value)) => {
                        if !current_value.equals(&initial_value) && !at_tx_start_value.equals(
                            &current_value,
                        ) {
                            let c = optimal_compression_length(&at_tx_start_value, &current_value);
                            total = total + 32 + c as u32;
                        }
                    },
                    _ => {},
                }
            }
            i = i + 1;
        }
        total
    }
}

} // verus!
