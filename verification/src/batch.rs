//! Running a batch of blocks natively: one cursor, shared by all sources, says which
//! block is current; each batch source forwards to the source of the current block.
use std::sync::atomic::{AtomicUsize, Ordering};
use std::sync::Arc;
use vstd::prelude::*;

use crate::api::PreimageSource;
use crate::primitives::Bytes32;

verus! {

/// The answer of a transaction source.
#[derive(Clone, Debug)]
pub enum NextTxResponse {
    Tx(Vec<u8>),
    SealBlock,
}

/// A source of the transactions of a block.
pub trait TxSource {
    /// The answer the source gives next.
    spec fn next_response(&self) -> NextTxResponse;

    /// The next transaction of the block, or the end of the block.
    fn get_next_tx(&mut self) -> (r: NextTxResponse)
        ensures
            r == old(self).next_response(),
    ;
}

/// Reads of the storage state a block starts from.
pub trait ReadStorage {
    fn read(&mut self, key: Bytes32) -> Option<Bytes32>;
}

/// Positions of keys in the storage tree.
pub trait ReadStorageTree: ReadStorage {
    fn tree_index(&mut self, key: Bytes32) -> Option<u64>;

    fn prev_tree_index(&mut self, key: Bytes32) -> u64;
}

/// The inputs of one block of a batch.
#[derive(Debug)]
pub struct NativeBatchBlockInput<B, T, PS, TS> {
    pub block_context: B,
    pub tree: T,
    pub preimage_source: PS,
    pub tx_source: TS,
}

/// The index of the current block of a batch, shared by every clone; it never passes
/// the last block.
#[derive(Debug, Clone)]
pub struct BatchCursor {
    index: Arc<AtomicUsize>,
    len: usize,
}

impl BatchCursor {
    /// The number of blocks of the batch.
    pub closed spec fn spec_len(&self) -> usize {
        self.len
    }

    /// A cursor at the first of `len` blocks.
    pub fn new(len: usize) -> (r: Self)
        requires
            len > 0,
        ensures
            r.spec_len() == len,
    {
        BatchCursor { index: Arc::new(AtomicUsize::new(0)), len }
    }

    /// The current block; clones advanced elsewhere move it too.
    pub fn current(&self) -> (r: usize)
        requires
            self.spec_len() > 0,
        ensures
            r < self.spec_len(),
    {
        let index = self.index.load(Ordering::SeqCst);
        if index < self.len - 1 {
            index
        } else {
            self.len - 1
        }
    }

    /// Moves to the next block, unless the current one is the last.
    pub fn advance(&self)
        requires
            self.spec_len() > 0,
    {
        let current = self.index.load(Ordering::SeqCst);
        if current < self.len - 1 {
            self.index.store(current + 1, Ordering::SeqCst);
        }
    }
}

/// Transactions of the current block of a batch.
#[derive(Debug)]
pub struct BatchTxSource<TS> {
    sources: Vec<TS>,
    cursor: BatchCursor,
}

impl<TS> BatchTxSource<TS> {
    /// One source per block.
    pub closed spec fn wf(&self) -> bool {
        self.cursor.spec_len() > 0 && self.sources@.len() >= self.cursor.spec_len()
    }

    pub fn new(sources: Vec<TS>, cursor: BatchCursor) -> (r: Self)
        requires
            cursor.spec_len() > 0,
            sources@.len() >= cursor.spec_len(),
        ensures
            r.wf(),
    {
        Self { sources, cursor }
    }

    fn current(&self) -> (r: usize)
        requires
            self.wf(),
        ensures
            r < self.sources@.len(),
    {
        self.cursor.current()
    }
}

impl<TS: TxSource> BatchTxSource<TS> {
    /// The next transaction of the current block.
    pub fn get_next_tx(&mut self) -> (r: NextTxResponse)
        requires
            old(self).wf(),
        ensures
            final(self).wf(),
    {
        let idx = self.current();
        let mut source = self.sources.remove(idx);
        let r = source.get_next_tx();
        self.sources.insert(idx, source);
        r
    }
}

/// Preimages for the current block of a batch.
#[derive(Debug)]
pub struct BatchPreimageSource<PS> {
    sources: Vec<PS>,
    cursor: BatchCursor,
}

impl<PS> BatchPreimageSource<PS> {
    pub closed spec fn wf(&self) -> bool {
        self.cursor.spec_len() > 0 && self.sources@.len() >= self.cursor.spec_len()
    }

    pub fn new(sources: Vec<PS>, cursor: BatchCursor) -> (r: Self)
        requires
            cursor.spec_len() > 0,
            sources@.len() >= cursor.spec_len(),
        ensures
            r.wf(),
    {
        Self { sources, cursor }
    }

    fn current(&self) -> (r: usize)
        requires
            self.wf(),
        ensures
            r < self.sources@.len(),
    {
        self.cursor.current()
    }
}

impl<PS: PreimageSource> BatchPreimageSource<PS> {
    /// The preimage of `hash` from the source of the current block.
    pub fn get_preimage(&mut self, hash: Bytes32) -> (r: Option<Vec<u8>>)
        requires
            old(self).wf(),
        ensures
            final(self).wf(),
    {
        let idx = self.current();
        let mut source = self.sources.remove(idx);
        let r = source.get_preimage(hash);
        self.sources.insert(idx, source);
        r
    }
}

/// The storage tree of the current block of a batch.
#[derive(Debug)]
pub struct BatchTree<T> {
    trees: Vec<T>,
    cursor: BatchCursor,
}

impl<T> BatchTree<T> {
    pub closed spec fn wf(&self) -> bool {
        self.cursor.spec_len() > 0 && self.trees@.len() >= self.cursor.spec_len()
    }

    pub fn new(trees: Vec<T>, cursor: BatchCursor) -> (r: Self)
        requires
            cursor.spec_len() > 0,
            trees@.len() >= cursor.spec_len(),
        ensures
            r.wf(),
    {
        Self { trees, cursor }
    }

    fn current(&self) -> (r: usize)
        requires
            self.wf(),
        ensures
            r < self.trees@.len(),
    {
        self.cursor.current()
    }
}

impl<T: ReadStorageTree> BatchTree<T> {
    pub fn read(&mut self, key: Bytes32) -> (r: Option<Bytes32>)
        requires
            old(self).wf(),
        ensures
            final(self).wf(),
    {
        let idx = self.current();
        let mut tree = self.trees.remove(idx);
        let r = tree.read(key);
        self.trees.insert(idx, tree);
        r
    }

    pub fn tree_index(&mut self, key: Bytes32) -> (r: Option<u64>)
        requires
            old(self).wf(),
        ensures
            final(self).wf(),
    {
        let idx = self.current();
        let mut tree = self.trees.remove(idx);
        let r = tree.tree_index(key);
        self.trees.insert(idx, tree);
        r
    }

    pub fn prev_tree_index(&mut self, key: Bytes32) -> (r: u64)
        requires
            old(self).wf(),
        ensures
            final(self).wf(),
    {
        let idx = self.current();
        let mut tree = self.trees.remove(idx);
        let r = tree.prev_tree_index(key);
        self.trees.insert(idx, tree);
        r
    }
}

/// Block metadata of the current block of a batch.
#[derive(Debug)]
pub struct BatchBlockMetadataResponder<B> {
    block_metadata: Vec<B>,
    cursor: BatchCursor,
}

impl<B: Copy> BatchBlockMetadataResponder<B> {
    pub closed spec fn wf(&self) -> bool {
        self.cursor.spec_len() > 0 && self.block_metadata@.len() >= self.cursor.spec_len()
    }

    /// The metadata of every block of the batch.
    pub closed spec fn spec_metadata(&self) -> Seq<B> {
        self.block_metadata@
    }

    pub fn new(block_metadata: Vec<B>, cursor: BatchCursor) -> (r: Self)
        requires
            cursor.spec_len() > 0,
            block_metadata@.len() >= cursor.spec_len(),
        ensures
            r.wf(),
            r.spec_metadata() == block_metadata@,
    {
        Self { block_metadata, cursor }
    }

    /// The metadata of the current block.
    pub fn current_metadata(&self) -> (r: &B)
        requires
            self.wf(),
        ensures
            exists|i: int| 0 <= i < self.spec_metadata().len() && *r == self.spec_metadata()[i],
    {
        let i = self.cursor.current();
        let r = &self.block_metadata[i];
        assert(*r == self.spec_metadata()[i as int]);
        r
    }
}

} // verus!
