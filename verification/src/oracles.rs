//! Non-determinism sources that answer the guest program's CSR reads, the CSR-based
//! I/O oracle of the guest side, and the responder that feeds transactions to it.
use std::collections::{HashMap, VecDeque};
use vstd::prelude::*;

use crate::batch::{NextTxResponse, TxSource};

verus! {

broadcast use vstd::std_specs::hash::group_hash_axioms;

/// Answers reads from a queue of prepared words; an empty queue reads as zero.
#[derive(Clone, Debug)]
pub struct VecDequeNonDetermenismSource {
    pub oracle: VecDeque<u32>,
}

impl VecDequeNonDetermenismSource {
    /// The next prepared word, or zero once they are used up.
    pub fn read(&mut self) -> (r: u32)
        ensures
            old(self).oracle@.len() > 0 ==> r == old(self).oracle@[0] && final(self).oracle@
                == old(self).oracle@.drop_first(),
            old(self).oracle@.len() == 0 ==> r == 0 && final(self).oracle@ == old(self).oracle@,
    {
        match self.oracle.pop_front() {
            Some(x) => x,
            None => 0,
        }
    }

    /// Words written by the program are ignored.
    pub fn write_with_memory_access(&mut self, value: u32)
        ensures
            final(self).oracle@ == old(self).oracle@,
    {
    }
}

/// Serves storage slots: the program writes a slot index and then reads its value,
/// zero for slots that were never set.
#[derive(Clone, Debug)]
pub struct DummyStorageNonDetermenismSource {
    buffer: VecDeque<u32>,
    storage: HashMap<u32, u32>,
}

impl DummyStorageNonDetermenismSource {
    pub closed spec fn spec_buffer(&self) -> Seq<u32> {
        self.buffer@
    }

    pub closed spec fn spec_storage(&self) -> Map<u32, u32> {
        self.storage@
    }

    pub fn new() -> (r: Self)
        ensures
            r.spec_buffer() == Seq::<u32>::empty(),
            r.spec_storage() == Map::<u32, u32>::empty(),
    {
        DummyStorageNonDetermenismSource { buffer: VecDeque::new(), storage: HashMap::new() }
    }

    /// Sets the value of a slot.
    pub fn set(&mut self, key: u32, value: u32)
        ensures
            final(self).spec_storage() == old(self).spec_storage().insert(key, value),
            final(self).spec_buffer() == old(self).spec_buffer(),
    {
        self.storage.insert(key, value);
    }

    /// The next answer; the program reads only after requesting.
    pub fn read(&mut self) -> (r: u32)
        requires
            old(self).spec_buffer().len() > 0,
        ensures
            r == old(self).spec_buffer()[0],
            final(self).spec_buffer() == old(self).spec_buffer().drop_first(),
            final(self).spec_storage() == old(self).spec_storage(),
    {
        match self.buffer.pop_front() {
            Some(x) => x,
            None => 0,
        }
    }

    /// The program requests the slot `value`; its value is queued.
    pub fn write_with_memory_access(&mut self, value: u32)
        ensures
            final(self).spec_storage() == old(self).spec_storage(),
            final(self).spec_buffer() == old(self).spec_buffer().push(
                if old(self).spec_storage().contains_key(value) {
                    old(self).spec_storage()[value]
                } else {
                    0
                },
            ),
    {
        let v = match self.storage.get(&value) {
            Some(x) => *x,
            None => 0,
        };
        self.buffer.push_back(v);
    }
}

/// Reads and writes of the guest's non-determinism CSR.
pub trait NonDeterminismCSRSourceImplementation {
    fn csr_read_impl() -> usize;

    fn csr_write_impl(value: usize);
}

/// The CSR as seen on the proving target.
#[derive(Clone, Copy, Debug)]
pub struct CSRBasedNonDeterminismSource;

/// A CSR that reads zero and drops writes, for running the guest code natively.
#[derive(Clone, Copy, Debug)]
pub struct DummyCSRImpl;

impl NonDeterminismCSRSourceImplementation for DummyCSRImpl {
    fn csr_read_impl() -> (r: usize)
        ensures
            r == 0,
    {
        0
    }

    fn csr_write_impl(value: usize) {
    }
}

/// The guest's I/O oracle, speaking over the CSR `I`.
#[derive(Debug)]
pub struct CsrBasedIOOracle<I> {
    _marker: core::marker::PhantomData<I>,
}

/// The answer of a query: `remaining` words still to be read from the CSR.
#[derive(Debug)]
pub struct CsrBasedIOOracleIterator<I> {
    remaining: usize,
    _marker: core::marker::PhantomData<I>,
}

impl<I: NonDeterminismCSRSourceImplementation> CsrBasedIOOracle<I> {
    pub fn init() -> Self {
        Self { _marker: core::marker::PhantomData }
    }

    /// Sends a query (its type, its length and its words) and returns the answer,
    /// whose length the host writes first.
    pub fn raw_query(&mut self, query_type: u32, input: &[usize]) -> (r: CsrBasedIOOracleIterator<I>) {
        I::csr_write_impl(query_type as usize);
        I::csr_write_impl(input.len());
        let mut i: usize = 0;
        while i < input.len()
            invariant
                i <= input@.len(),
            decreases input@.len() - i,
        {
            I::csr_write_impl(input[i]);
            i = i + 1;
        }
        let remaining = I::csr_read_impl();
        CsrBasedIOOracleIterator { remaining, _marker: core::marker::PhantomData }
    }
}

impl<I: NonDeterminismCSRSourceImplementation> CsrBasedIOOracleIterator<I> {
    pub closed spec fn spec_remaining(&self) -> usize {
        self.remaining
    }

    /// The number of words still to come.
    pub fn len(&self) -> (r: usize)
        ensures
            r == self.spec_remaining(),
    {
        self.remaining
    }

    /// The next word of the answer, read from the CSR.
    pub fn next(&mut self) -> (r: Option<usize>)
        ensures
            old(self).spec_remaining() == 0 ==> r is None && final(self).spec_remaining() == 0,
            old(self).spec_remaining() > 0 ==> r is Some && final(self).spec_remaining()
                == old(self).spec_remaining() - 1,
    {
        if self.remaining == 0 {
            None
        } else {
            self.remaining = self.remaining - 1;
            Some(I::csr_read_impl())
        }
    }
}

/// Why a transaction query cannot be answered.
#[derive(Clone, Copy, Debug, PartialEq, Eq, Structural)]
pub enum TxDataError {
    /// The source returned an empty transaction, which would read as "seal".
    EmptyTransaction,
    /// The transaction content was requested before its size, or after a seal.
    NoPendingTransaction,
}

/// Feeds transactions of a source to the guest: first their size, then their bytes.
#[derive(Clone, Debug)]
pub struct TxDataResponder<TS> {
    pub tx_source: TS,
    pub next_tx: Option<Vec<u8>>,
}

/// The answer to the size query when no transaction is pending, from what the source
/// gave: zero for the end of the block, the size (modulo `2^32`) of a transaction, which
/// then becomes pending; an empty transaction would read as the end of the block.
pub open spec fn size_answer(response: NextTxResponse) -> (Result<u32, TxDataError>, Option<Seq<u8>>) {
    match response {
        NextTxResponse::SealBlock => (Ok(0), None),
        NextTxResponse::Tx(t) => if t@.len() == 0 {
            (Err(TxDataError::EmptyTransaction), None)
        } else {
            (Ok(t@.len() as u32), Some(t@))
        },
    }
}

/// Answers the size query from the source's answer: the size, and the transaction that
/// is pending afterwards.
pub fn answer_size(response: NextTxResponse) -> (r: (Result<u32, TxDataError>, Option<Vec<u8>>))
    ensures
        (r.0, bytes_of(r.1)) == size_answer(response),
{
    match response {
        NextTxResponse::SealBlock => (Ok(0), None),
        NextTxResponse::Tx(tx) => {
            let len = tx.len();
            if len == 0 {
                (Err(TxDataError::EmptyTransaction), None)
            } else {
                (Ok(len as u32), Some(tx))
            }
        },
    }
}

/// The bytes of an optional transaction.
pub open spec fn bytes_of(t: Option<Vec<u8>>) -> Option<Seq<u8>> {
    match t {
        Some(v) => Some(v@),
        None => None,
    }
}

/// The source's next answer is not an empty transaction, which the guest could not
/// tell from the end of the block.
pub open spec fn no_empty_tx(response: NextTxResponse) -> bool {
    !(response matches NextTxResponse::Tx(t) && t@.len() == 0)
}

impl<TS: TxSource> TxDataResponder<TS> {
    /// Answers the size query: the size of the pending transaction, fetching the next
    /// one from the source if none is pending; zero once the source seals the block.
    /// Sizes are reported modulo `2^32`.
    pub fn next_tx_size(&mut self) -> (r: Result<u32, TxDataError>)
        requires
            old(self).next_tx is None ==> no_empty_tx(old(self).tx_source.next_response()),
        ensures
            old(self).next_tx matches Some(t) ==> r == Ok::<u32, TxDataError>(t@.len() as u32)
                && final(self).next_tx == old(self).next_tx && final(self).tx_source == old(
                self,
            ).tx_source,
            old(self).next_tx is None ==> (r, bytes_of(final(self).next_tx)) == size_answer(
                old(self).tx_source.next_response(),
            ),
            r is Ok,
    {
        match &self.next_tx {
            Some(tx) => Ok(tx.len() as u32),
            None => {
                let (answer, pending) = answer_size(self.tx_source.get_next_tx());
                self.next_tx = pending;
                answer
            },
        }
    }

    /// Answers the content query: hands out the pending transaction, which a size query
    /// must have fetched.
    pub fn take_tx_data(&mut self) -> (r: Result<Vec<u8>, TxDataError>)
        requires
            old(self).next_tx is Some,
        ensures
            final(self).next_tx is None,
            final(self).tx_source == old(self).tx_source,
            old(self).next_tx matches Some(t) && r matches Ok(d) && d@ == t@,
    {
        match self.next_tx.take() {
            Some(tx) => Ok(tx),
            None => Err(TxDataError::NoPendingTransaction),
        }
    }
}

} // verus!
