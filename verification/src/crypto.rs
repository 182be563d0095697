//! Conversions between byte strings and 256-bit integers as the cryptographic
//! primitives use them, and the interfaces of the crypto library.
use vstd::prelude::*;

use crate::primitives::{be_nat, le_nat, pow256, Bytes32};
use crate::u256::{checked_add, checked_mul, modulus256, to_be_bytes, U256};

verus! {

/// Operations of the big integer delegation circuit.
#[derive(Clone, Copy, Debug, PartialEq, Eq, Structural)]
pub enum BigIntOps {
    Add,
    Sub,
    SubAndNegate,
    MulLow,
    MulHigh,
    Eq,
    MemCpy,
}

impl BigIntOps {
    pub open spec fn spec_code(&self) -> u32 {
        match self {
            BigIntOps::Add => 0,
            BigIntOps::Sub => 1,
            BigIntOps::SubAndNegate => 2,
            BigIntOps::MulLow => 3,
            BigIntOps::MulHigh => 4,
            BigIntOps::Eq => 5,
            BigIntOps::MemCpy => 7,
        }
    }

    /// The operation's code as the circuit reads it.
    pub fn code(&self) -> (r: u32)
        ensures
            r == self.spec_code(),
    {
        match self {
            BigIntOps::Add => 0,
            BigIntOps::Sub => 1,
            BigIntOps::SubAndNegate => 2,
            BigIntOps::MulLow => 3,
            BigIntOps::MulHigh => 4,
            BigIntOps::Eq => 5,
            BigIntOps::MemCpy => 7,
        }
    }
}

/// A hash function with an incremental interface.
pub trait MiniDigest: Sized {
    type HashOutput;

    fn new() -> Self;

    fn digest(input: &[u8]) -> Self::HashOutput;

    fn update(&mut self, input: &[u8]);

    fn finalize(self) -> Self::HashOutput;

    fn finalize_reset(&mut self) -> Self::HashOutput;
}

/// Initializes the field and curve parameters of the delegation-backed arithmetic;
/// only the proving target has any to set up.
pub fn init_lib() {
}

/// `256^32` is `2^256`.
pub proof fn lemma_pow256_32()
    ensures
        pow256(32) == modulus256(),
{
    reveal_with_fuel(pow256, 33);
}

/// Parses at most 32 big-endian bytes.
pub fn parse_u256_be<const N: usize>(input: &[u8; N]) -> (r: U256)
    requires
        N <= 32,
    ensures
        r.value() == be_nat(input@),
{
    let mut acc = U256::zero();
    let mut i: usize = 0;
    proof {
        assert(input@.subrange(0, 0) =~= Seq::<u8>::empty());
        lemma_pow256_32();
    }
    while i < N
        invariant
            i <= N,
            N <= 32,
            input@.len() == N,
            pow256(32) == modulus256(),
            acc.value() == be_nat(input@.subrange(0, i as int)),
        decreases N - i,
    {
        proof {
            crate::primitives::lemma_be_nat_len_bound(input@.subrange(0, i as int));
            lemma_pow256_mono(i as nat, 31);
            crate::primitives::lemma_pow256_succ(31);
            assert(acc.value() * 256 + 255 < modulus256()) by (nonlinear_arith)
                requires
                    acc.value() < pow256(i as nat),
                    pow256(i as nat) <= pow256(31),
                    pow256(32) == 256 * pow256(31),
                    pow256(32) == modulus256(),
            ;
        }
        let shifted = match checked_mul(&acc, &U256::from_u64(256)) {
            Some(x) => x,
            None => U256::zero(),
        };
        let next = match checked_add(&shifted, &U256::from_u64(input[i] as u64)) {
            Some(x) => x,
            None => U256::zero(),
        };
        proof {
            let s = input@.subrange(0, i + 1);
            assert(s.drop_last() =~= input@.subrange(0, i as int));
            assert(s.last() == input@[i as int]);
        }
        acc = next;
        i = i + 1;
    }
    assert(input@.subrange(0, N as int) =~= input@);
    acc
}

/// Parses at most 32 little-endian bytes.
pub fn parse_u256_le<const N: usize>(input: &[u8; N]) -> (r: U256)
    requires
        N <= 32,
    ensures
        r.value() == le_nat(input@),
{
    let mut acc = U256::zero();
    let mut i: usize = N;
    proof {
        assert(input@.subrange(N as int, N as int) =~= Seq::<u8>::empty());
        lemma_pow256_32();
    }
    while i > 0
        invariant
            i <= N,
            N <= 32,
            input@.len() == N,
            pow256(32) == modulus256(),
            acc.value() == le_nat(input@.subrange(i as int, N as int)),
        decreases i,
    {
        proof {
            lemma_le_nat_len_bound(input@.subrange(i as int, N as int));
            lemma_pow256_mono((N - i) as nat, 31);
            crate::primitives::lemma_pow256_succ(31);
            assert(acc.value() * 256 + 255 < modulus256()) by (nonlinear_arith)
                requires
                    acc.value() < pow256((N - i) as nat),
                    pow256((N - i) as nat) <= pow256(31),
                    pow256(32) == 256 * pow256(31),
                    pow256(32) == modulus256(),
            ;
        }
        let shifted = match checked_mul(&acc, &U256::from_u64(256)) {
            Some(x) => x,
            None => U256::zero(),
        };
        let next = match checked_add(&shifted, &U256::from_u64(input[i - 1] as u64)) {
            Some(x) => x,
            None => U256::zero(),
        };
        proof {
            let s = input@.subrange(i - 1, N as int);
            assert(s.drop_first() =~= input@.subrange(i as int, N as int));
            assert(s[0] == input@[i - 1]);
        }
        acc = next;
        i = i - 1;
    }
    assert(input@.subrange(0, N as int) =~= input@);
    acc
}

/// The 32 big-endian bytes of a 256-bit integer.
pub fn u256_to_be(input: U256) -> (r: [u8; 32])
    ensures
        r@.len() == 32,
        be_nat(r@) == input.value(),
{
    let b: Bytes32 = to_be_bytes(&input);
    b.bytes
}

/// `256^a <= 256^b` for `a <= b`.
pub proof fn lemma_pow256_mono(a: nat, b: nat)
    ensures
        a <= b ==> pow256(a) <= pow256(b),
    decreases b,
{
    if a < b {
        lemma_pow256_mono(a, (b - 1) as nat);
        crate::primitives::lemma_pow256_succ((b - 1) as nat);
    }
}

/// A little-endian number with `n` bytes is below `256^n`.
pub proof fn lemma_le_nat_len_bound(s: Seq<u8>)
    ensures
        le_nat(s) < pow256(s.len()),
    decreases s.len(),
{
    if s.len() > 0 {
        lemma_le_nat_len_bound(s.drop_first());
        crate::primitives::lemma_pow256_succ((s.len() - 1) as nat);
        let a = le_nat(s.drop_first());
        let p = pow256((s.len() - 1) as nat);
        assert(s[0] as nat + 256 * a < 256 * p) by (nonlinear_arith)
            requires
                a < p,
                s[0] < 256,
        ;
    }
}

/// Little-endian bytes read as the big-endian bytes in reverse order: what
/// `parse_u256_le` gives of some bytes is what `parse_u256_be` gives of them reversed.
pub proof fn lemma_le_is_reversed_be(s: Seq<u8>)
    ensures
        le_nat(s) == be_nat(s.reverse()),
    decreases s.len(),
{
    if s.len() > 0 {
        lemma_le_is_reversed_be(s.drop_first());
        let t = s.reverse();
        assert(t.drop_last() =~= s.drop_first().reverse());
        assert(t.last() == s[0]);
        assert(be_nat(t) == be_nat(t.drop_last()) * 256 + t.last() as nat);
    }
}

/// Two byte strings of one length that encode the same big-endian number are equal.
pub proof fn lemma_be_nat_injective(a: Seq<u8>, b: Seq<u8>)
    requires
        a.len() == b.len(),
        be_nat(a) == be_nat(b),
    ensures
        a == b,
    decreases a.len(),
{
    if a.len() > 0 {
        let x = be_nat(a.drop_last());
        let y = be_nat(b.drop_last());
        let p = a.last() as nat;
        let q = b.last() as nat;
        assert(x * 256 + p == y * 256 + q);
        assert(p == q && x == y) by (nonlinear_arith)
            requires
                x * 256 + p == y * 256 + q,
                p < 256,
                q < 256,
        ;
        lemma_be_nat_injective(a.drop_last(), b.drop_last());
        assert(a =~= a.drop_last().push(a.last()));
        assert(b =~= b.drop_last().push(b.last()));
    } else {
        assert(a =~= b);
    }
}

/// Writing back what 32 big-endian bytes parse to gives those bytes: if `n` is
/// `parse_u256_be(b)` and `r` is `u256_to_be(n)`, then `r` is `b`.
pub proof fn lemma_be_round_trip(b: Seq<u8>, n: nat, r: Seq<u8>)
    requires
        b.len() == 32,
        r.len() == 32,
        n == be_nat(b),
        be_nat(r) == n,
    ensures
        r == b,
{
    lemma_be_nat_injective(r, b);
}

} // verus!
