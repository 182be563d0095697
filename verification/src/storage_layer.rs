//! A guest program's view of storage: a cache of 32-bit slots that asks the host for
//! a slot's value on its first read, and commits to the final state by summing it.
use std::collections::BTreeMap;
use vstd::prelude::*;
use vstd::std_specs::iter::IteratorSpec;

verus! {

broadcast use vstd::std_specs::btree::group_btree_axioms, vstd::laws_cmp::group_laws_cmp;

/// The host that answers the program's requests for slot values.
pub trait StorageSlotOracle {
    /// The host's value of slot `index`.
    spec fn slot_answer(&self, index: u32) -> u32;

    /// The slots requested so far, in order.
    spec fn requested_slots(&self) -> Vec<u32>;

    /// Requests slot `index`: the host answers with its value and records the request;
    /// asking changes no answer.
    fn request_storage_slot(&mut self, index: u32) -> (r: u32)
        ensures
            r == old(self).slot_answer(index),
            final(self).requested_slots()@ == old(self).requested_slots()@.push(index),
            forall|i: u32| #[trigger] final(self).slot_answer(i) == old(self).slot_answer(i),
    ;
}

/// The sum of a sequence of words.
pub open spec fn seq_sum(s: Seq<u32>) -> nat
    decreases s.len(),
{
    if s.len() == 0 {
        0
    } else {
        seq_sum(s.drop_last()) + s.last() as nat
    }
}

/// The values of `m` at `keys`, in that order.
pub open spec fn values_at(m: Map<u32, u32>, keys: Seq<u32>) -> Seq<u32> {
    keys.map_values(|k: u32| m[k])
}

/// `keys` lists the keys of `m`, each once.
pub open spec fn enumerates(m: Map<u32, u32>, keys: Seq<u32>) -> bool {
    keys.no_duplicates() && keys.to_set() == m.dom()
}

/// Cached storage slots.
pub struct StorageLayer {
    cache: BTreeMap<u32, u32>,
}

impl View for StorageLayer {
    type V = Map<u32, u32>;

    closed spec fn view(&self) -> Map<u32, u32> {
        self.cache@
    }
}

impl StorageLayer {
    pub fn new_in() -> (r: Self)
        ensures
            r@ == Map::<u32, u32>::empty(),
    {
        StorageLayer { cache: BTreeMap::new() }
    }

    /// The value of slot `index`; on its first read it is requested from the oracle
    /// and cached.
    pub fn get<O: StorageSlotOracle>(&mut self, index: u32, oracle: &mut O) -> (r: u32)
        ensures
            old(self)@.contains_key(index) ==> r == old(self)@[index] && final(self)@ == old(self)@
                && final(oracle).requested_slots()@ == old(oracle).requested_slots()@,
            !old(self)@.contains_key(index) ==> {
                &&& r == old(oracle).slot_answer(index)
                &&& final(self)@ == old(self)@.insert(index, r)
                &&& final(oracle).requested_slots()@ == old(oracle).requested_slots()@.push(index)
            },
            forall|i: u32| #[trigger] final(oracle).slot_answer(i) == old(oracle).slot_answer(i),
    {
        match self.cache.get(&index) {
            Some(v) => *v,
            None => {
                let value = oracle.request_storage_slot(index);
                self.cache.insert(index, value);
                value
            },
        }
    }

    /// Sets slot `index`.
    pub fn set(&mut self, index: u32, value: u32)
        ensures
            final(self)@ == old(self)@.insert(index, value),
    {
        self.cache.insert(index, value);
    }

    /// The sum of all slot values.
    pub fn commit(self) -> (r: u32)
        requires
            forall|keys: Seq<u32>| enumerates(self@, keys) ==> seq_sum(values_at(self@, keys)) <= u32::MAX,
        ensures
            exists|keys: Seq<u32>| enumerates(self@, keys) && r == seq_sum(values_at(self@, keys)),
    {
        let mut commitment: u32 = 0;
        let values = self.cache.values();
        let ghost keys = choose|key_seq: Seq<u32>|
            {
                &&& vstd::std_specs::btree::increasing_seq(key_seq)
                &&& key_seq.to_set() == self.cache@.dom()
                &&& key_seq.no_duplicates()
                &&& values.remaining() == key_seq.map(|i: int, k: u32| &self.cache@[k])
            };
        let ghost vals = values_at(self.cache@, keys);
        assert(enumerates(self@, keys));
        assert(seq_sum(values_at(self@, keys)) <= u32::MAX);
        for value in it: values
            invariant
                enumerates(self.cache@, keys),
                vals == values_at(self.cache@, keys),
                it.seq().len() == vals.len(),
                forall|i: int| 0 <= i < vals.len() ==> *it.seq()[i] == vals[i],
                seq_sum(vals) <= u32::MAX,
                commitment == seq_sum(vals.subrange(0, it.index() as int)),
        {
            proof {
                lemma_seq_sum_prefix_bound(vals, it.index() as int + 1);
                assert(vals.subrange(0, it.index() + 1).drop_last() =~= vals.subrange(0, it.index() as int));
            }
            commitment = commitment + *value;
        }
        proof {
            assert(vals.subrange(0, vals.len() as int) =~= vals);
            assert(enumerates(self@, keys) && commitment == seq_sum(values_at(self@, keys)));
        }
        commitment
    }
}

/// Prefix sums are bounded by the whole sum.
proof fn lemma_seq_sum_prefix_bound(s: Seq<u32>, k: int)
    requires
        0 <= k <= s.len(),
    ensures
        seq_sum(s.subrange(0, k)) <= seq_sum(s),
    decreases s.len() - k,
{
    if k < s.len() {
        lemma_seq_sum_prefix_bound(s, k + 1);
        assert(s.subrange(0, k + 1).drop_last() =~= s.subrange(0, k));
    } else {
        assert(s.subrange(0, k) =~= s);
    }
}

} // verus!
