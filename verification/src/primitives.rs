//! Fixed-size byte strings and addresses shared by the whole library.
use vstd::prelude::*;

verus! {

broadcast use vstd::array::group_array_axioms;

/// A 32-byte word, as stored in storage slots and hashed by the system.
#[derive(Clone, Copy, Debug, PartialEq, Eq)]
pub struct Bytes32 {
    pub bytes: [u8; 32],
}

impl View for Bytes32 {
    type V = Seq<u8>;

    open spec fn view(&self) -> Seq<u8> {
        self.bytes@
    }
}

/// Compares two byte arrays of the same length element by element.
fn bytes_equal<const N: usize>(a: &[u8; N], b: &[u8; N]) -> (r: bool)
    ensures
        r == (a@ == b@),
{
    let mut i: usize = 0;
    while i < N
        invariant
            0 <= i <= N,
            a@.len() == N,
            b@.len() == N,
            forall|j: int| 0 <= j < i ==> a@[j] == b@[j],
        decreases N - i,
    {
        if a[i] != b[i] {
            assert(a@[i as int] != b@[i as int]);
            return false;
        }
        i = i + 1;
    }
    assert(a@ =~= b@);
    true
}

impl Bytes32 {
    /// The all-zero word.
    pub fn zero() -> (r: Bytes32)
        ensures
            r@ == Seq::new(32, |i: int| 0u8),
    {
        let r = Bytes32 { bytes: [0u8; 32] };
        assert(r@ =~= Seq::new(32, |i: int| 0u8));
        r
    }

    pub fn from_array(bytes: [u8; 32]) -> (r: Bytes32)
        ensures
            r@ == bytes@,
    {
        Bytes32 { bytes }
    }

    pub fn as_u8_array(&self) -> (r: [u8; 32])
        ensures
            r@ == self@,
    {
        self.bytes
    }

    /// Whether every byte is zero.
    pub fn is_zero(&self) -> (r: bool)
        ensures
            r == (self@ == Seq::new(32, |i: int| 0u8)),
    {
        let z = Bytes32::zero();
        bytes_equal(&self.bytes, &z.bytes)
    }

    /// Byte-wise equality of two words.
    pub fn equals(&self, other: &Bytes32) -> (r: bool)
        ensures
            r == (self@ == other@),
            r == (*self == *other),
    {
        let r = bytes_equal(&self.bytes, &other.bytes);
        proof {
            if self.bytes@ == other.bytes@ {
                assert(self.bytes =~= other.bytes);
            }
        }
        r
    }
}

/// A 20-byte account address, big-endian.
#[derive(Clone, Copy, Debug, PartialEq, Eq)]
pub struct B160 {
    pub bytes: [u8; 20],
}

impl View for B160 {
    type V = Seq<u8>;

    open spec fn view(&self) -> Seq<u8> {
        self.bytes@
    }
}

impl B160 {
    pub fn from_array(bytes: [u8; 20]) -> (r: B160)
        ensures
            r@ == bytes@,
    {
        B160 { bytes }
    }

    pub fn equals(&self, other: &B160) -> (r: bool)
        ensures
            r == (self@ == other@),
            r == (*self == *other),
    {
        let r = bytes_equal(&self.bytes, &other.bytes);
        proof {
            if self.bytes@ == other.bytes@ {
                assert(self.bytes =~= other.bytes);
            }
        }
        r
    }
}

/// `0x...8003`, big-endian: the account whose storage maps account addresses to
/// hashes of their properties (nonce, balance, code hash, ...).
pub open spec fn account_properties_address_bytes() -> Seq<u8> {
    Seq::new(20, |i: int| if i == 18 { 0x80u8 } else if i == 19 { 0x03u8 } else { 0u8 })
}

/// The address of the account-properties storage account.
pub fn account_properties_storage_address() -> (r: B160)
    ensures
        r@ == account_properties_address_bytes(),
{
    let mut b = [0u8; 20];
    b[18] = 0x80;
    b[19] = 0x03;
    let r = B160 { bytes: b };
    assert(r@ =~= account_properties_address_bytes());
    r
}

/// `256^n`.
pub open spec fn pow256(n: nat) -> nat
    decreases n,
{
    if n == 0 {
        1
    } else {
        256 * pow256((n - 1) as nat)
    }
}

/// The big-endian number that a byte string encodes.
pub open spec fn be_nat(s: Seq<u8>) -> nat
    decreases s.len(),
{
    if s.len() == 0 {
        0
    } else {
        be_nat(s.drop_last()) * 256 + s.last() as nat
    }
}

/// The little-endian number that a byte string encodes.
pub open spec fn le_nat(s: Seq<u8>) -> nat
    decreases s.len(),
{
    if s.len() == 0 {
        0
    } else {
        s[0] as nat + 256 * le_nat(s.drop_first())
    }
}

pub proof fn lemma_pow256_succ(n: nat)
    ensures
        pow256(n + 1) == 256 * pow256(n),
        pow256(n) >= 1,
    decreases n,
{
    if n > 0 {
        lemma_pow256_succ((n - 1) as nat);
    }
}

pub proof fn lemma_pow256_ge_u64()
    ensures
        pow256(20) > u64::MAX,
        pow256(8) == 0x1_0000_0000_0000_0000,
{
    reveal_with_fuel(pow256, 21);
}

/// A big-endian number with `n` bytes is below `256^n`.
pub proof fn lemma_be_nat_len_bound(s: Seq<u8>)
    ensures
        be_nat(s) < pow256(s.len()),
    decreases s.len(),
{
    if s.len() > 0 {
        lemma_be_nat_len_bound(s.drop_last());
        lemma_pow256_succ((s.len() - 1) as nat);
        let a = be_nat(s.drop_last());
        let p = pow256((s.len() - 1) as nat);
        assert(a * 256 + (s.last() as nat) < 256 * p) by (nonlinear_arith)
            requires a < p, s.last() < 256;
    }
}

/// Splitting off the first byte of a big-endian number.
pub proof fn lemma_be_nat_prepend(s: Seq<u8>)
    requires
        s.len() > 0,
    ensures
        be_nat(s) == s[0] as nat * pow256((s.len() - 1) as nat) + be_nat(s.drop_first()),
    decreases s.len(),
{
    if s.len() == 1 {
        assert(s.drop_last().len() == 0);
        assert(s.drop_first().len() == 0);
        assert(be_nat(s) == be_nat(s.drop_last()) * 256 + s.last() as nat);
        assert(be_nat(s.drop_last()) == 0);
        assert(be_nat(s.drop_first()) == 0);
        assert(s.last() == s[0]);
        let z = (s.len() - 1) as nat;
        assert(z == 0);
        assert(pow256(z) == 1);
        assert((s[0] as nat) * pow256(z) == s[0] as nat);
        assert(be_nat(s) == (s[0] as nat) * pow256((s.len() - 1) as nat) + be_nat(s.drop_first()));
    } else {
        let t = s.drop_last();
        let u = s.drop_first();
        lemma_be_nat_prepend(t);
        assert(t.drop_first() =~= u.drop_last());
        assert(u.last() == s.last());
        assert(t[0] == s[0]);
        lemma_pow256_succ((s.len() - 2) as nat);
        let a = s[0] as nat;
        let p = pow256((s.len() - 2) as nat);
        let r = be_nat(t.drop_first());
        assert(be_nat(s) == be_nat(t) * 256 + s.last() as nat);
        assert(be_nat(u) == be_nat(u.drop_last()) * 256 + u.last() as nat);
        assert(be_nat(t) == a * p + r);
        assert((a * p + r) * 256 + s.last() as nat == a * (256 * p) + (r * 256 + s.last() as nat))
            by (nonlinear_arith);
        assert(pow256((s.len() - 1) as nat) == 256 * p);
        assert(be_nat(u) == r * 256 + s.last() as nat);
        assert(be_nat(s) == a * (256 * p) + be_nat(u));
        assert(be_nat(s) == (s[0] as nat) * pow256((s.len() - 1) as nat) + be_nat(s.drop_first()));
    }
}

/// The big-endian number of a concatenation.
pub proof fn lemma_be_nat_concat(a: Seq<u8>, b: Seq<u8>)
    ensures
        be_nat(a + b) == be_nat(a) * pow256(b.len()) + be_nat(b),
    decreases b.len(),
{
    if b.len() == 0 {
        assert(a + b =~= a);
        assert(pow256(0) == 1);
    } else {
        lemma_be_nat_concat(a, b.drop_last());
        assert((a + b).drop_last() =~= a + b.drop_last());
        assert((a + b).last() == b.last());
        lemma_pow256_succ((b.len() - 1) as nat);
        let x = be_nat(a);
        let p = pow256((b.len() - 1) as nat);
        let y = be_nat(b.drop_last());
        assert(be_nat(a + b) == be_nat((a + b).drop_last()) * 256 + (a + b).last() as nat);
        assert(be_nat(b) == y * 256 + b.last() as nat);
        assert((x * p + y) * 256 + b.last() as nat == x * (256 * p) + (y * 256 + b.last() as nat))
            by (nonlinear_arith);
    }
}

} // verus!
