//! Execution resources: EVM gas measured in ergs, and native (prover) work.
use vstd::prelude::*;

verus! {

/// A bundle of ergs and native units.
#[derive(Clone, Copy, Debug, PartialEq, Eq)]
pub struct BaseResources {
    pub ergs: u64,
    pub native: u64,
}

/// The resources a transaction is given: those to run it, capped at the computational
/// limit; those in excess of it, which may only pay for pubdata; and the computational
/// native charged up front as intrinsic.
#[derive(Clone, Copy, Debug)]
pub struct ResourcesForTx {
    pub main_resources: BaseResources,
    pub withheld: BaseResources,
    pub intrinsic_computational_native_charged: u64,
}

impl BaseResources {
    /// No resources at all.
    pub fn empty() -> (r: BaseResources)
        ensures
            r.ergs == 0,
            r.native == 0,
    {
        BaseResources { ergs: 0, native: 0 }
    }

    /// The largest representable amount of both resources.
    pub fn formal_infinite() -> (r: BaseResources)
        ensures
            r.ergs == u64::MAX,
            r.native == u64::MAX,
    {
        BaseResources { ergs: u64::MAX, native: u64::MAX }
    }

    pub fn ergs(&self) -> (r: u64)
        ensures
            r == self.ergs,
    {
        self.ergs
    }

    /// Adds ergs; the native part is unchanged.
    pub fn add_ergs(&mut self, ergs: u64)
        requires
            old(self).ergs + ergs <= u64::MAX,
        ensures
            final(self).ergs == old(self).ergs + ergs,
            final(self).native == old(self).native,
    {
        self.ergs = self.ergs + ergs;
    }

    /// Whether `self` covers `other` in both dimensions.
    pub fn has_enough(&self, other: &BaseResources) -> (r: bool)
        ensures
            r == (self.ergs >= other.ergs && self.native >= other.native),
    {
        self.ergs >= other.ergs && self.native >= other.native
    }
}

} // verus!
