//! Data availability commitments over published pubdata, and the hasher used to
//! verify storage proofs.
use vstd::prelude::*;

use crate::hashing::{blake2s256, blake2s256_of};
use crate::primitives::Bytes32;

verus! {

/// A sink for pubdata that commits to everything written to it.
pub trait DACommitmentGenerator {
    fn write(&mut self, buf: &[u8]);

    fn da_commitment(&mut self) -> Bytes32;
}

/// Commits to nothing: writes are dropped and the commitment is zero.
pub struct NopCommitmentGenerator;

impl DACommitmentGenerator for NopCommitmentGenerator {
    fn write(&mut self, buf: &[u8]) {
    }

    fn da_commitment(&mut self) -> (r: Bytes32)
        ensures
            r@ == Seq::new(32, |i: int| 0u8),
    {
        Bytes32::zero()
    }
}

/// Commits to the pubdata by its BLAKE2s-256 hash.
pub struct Blake2sCommitmentGenerator {
    /// The pubdata written since creation or the last commitment.
    absorbed: Vec<u8>,
}

impl View for Blake2sCommitmentGenerator {
    type V = Seq<u8>;

    closed spec fn view(&self) -> Seq<u8> {
        self.absorbed@
    }
}

impl Blake2sCommitmentGenerator {
    pub fn new() -> (r: Self)
        ensures
            r@ == Seq::<u8>::empty(),
    {
        Blake2sCommitmentGenerator { absorbed: Vec::new() }
    }

    /// Appends `buf` to the committed data.
    pub fn write_bytes(&mut self, buf: &[u8])
        ensures
            final(self)@ == old(self)@ + buf@,
    {
        let mut i: usize = 0;
        while i < buf.len()
            invariant
                i <= buf@.len(),
                self@ == old(self)@ + buf@.subrange(0, i as int),
            decreases buf@.len() - i,
        {
            self.absorbed.push(buf[i]);
            i = i + 1;
            assert(self@ =~= old(self)@ + buf@.subrange(0, i as int));
        }
        assert(buf@.subrange(0, buf@.len() as int) =~= buf@);
    }

    /// The BLAKE2s-256 hash of everything written since creation or the last
    /// commitment; starts over.
    pub fn commitment(&mut self) -> (r: Bytes32)
        ensures
            r@ == blake2s256_of(old(self)@),
            final(self)@ == Seq::<u8>::empty(),
    {
        let r = blake2s256(self.absorbed.as_slice());
        self.absorbed = Vec::new();
        r
    }
}

impl DACommitmentGenerator for Blake2sCommitmentGenerator {
    fn write(&mut self, buf: &[u8])
        ensures
            final(self)@ == old(self)@ + buf@,
    {
        self.write_bytes(buf)
    }

    fn da_commitment(&mut self) -> (r: Bytes32)
        ensures
            r@ == blake2s256_of(old(self)@),
            final(self)@ == Seq::<u8>::empty(),
    {
        self.commitment()
    }
}

/// The BLAKE2s-256 hasher that checks `zks_getProof` responses.
#[derive(Clone, Debug)]
pub struct Blake2sGetProofHasher {
    absorbed: Vec<u8>,
}

impl View for Blake2sGetProofHasher {
    type V = Seq<u8>;

    closed spec fn view(&self) -> Seq<u8> {
        self.absorbed@
    }
}

impl Blake2sGetProofHasher {
    pub fn new() -> (r: Self)
        ensures
            r@ == Seq::<u8>::empty(),
    {
        Blake2sGetProofHasher { absorbed: Vec::new() }
    }

    pub fn update(&mut self, input: &[u8])
        ensures
            final(self)@ == old(self)@ + input@,
    {
        let mut i: usize = 0;
        while i < input.len()
            invariant
                i <= input@.len(),
                self@ == old(self)@ + input@.subrange(0, i as int),
            decreases input@.len() - i,
        {
            self.absorbed.push(input[i]);
            i = i + 1;
            assert(self@ =~= old(self)@ + input@.subrange(0, i as int));
        }
        assert(input@.subrange(0, input@.len() as int) =~= input@);
    }

    /// The hash of everything absorbed; starts over.
    pub fn finalize_reset(&mut self) -> (r: [u8; 32])
        ensures
            r@ == blake2s256_of(old(self)@),
            final(self)@ == Seq::<u8>::empty(),
    {
        let h = blake2s256(self.absorbed.as_slice());
        self.absorbed = Vec::new();
        h.bytes
    }
}

} // verus!
