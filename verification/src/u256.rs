//! 256-bit unsigned integers as four little-endian 64-bit limbs, with the arithmetic of
//! the `ruint` crate.
use vstd::arithmetic::power2::pow2;
use vstd::prelude::*;

use crate::primitives::{be_nat, pow256, Bytes32};

verus! {

pub open spec fn two64() -> nat {
    0x1_0000_0000_0000_0000
}

/// `2^256`.
pub open spec fn modulus256() -> nat {
    two64() * two64() * two64() * two64()
}

/// The number that four little-endian limbs encode.
pub open spec fn limbs_value(l: [u64; 4]) -> nat {
    l[0] as nat + two64() * (l[1] as nat + two64() * (l[2] as nat + two64() * (l[3] as nat)))
}

/// A 256-bit unsigned integer.
#[derive(Clone, Copy, Debug, PartialEq, Eq)]
pub struct U256 {
    /// Little-endian 64-bit limbs.
    pub limbs: [u64; 4],
}

impl U256 {
    /// The number this value represents.
    pub open spec fn value(&self) -> nat {
        limbs_value(self.limbs)
    }

    pub fn from_limbs(limbs: [u64; 4]) -> (r: U256)
        ensures
            r.limbs == limbs,
    {
        U256 { limbs }
    }

    pub fn zero() -> (r: U256)
        ensures
            r.value() == 0,
    {
        U256 { limbs: [0u64; 4] }
    }

    pub fn from_u64(v: u64) -> (r: U256)
        ensures
            r.value() == v,
    {
        U256 { limbs: [v, 0, 0, 0] }
    }

    /// The largest 256-bit number.
    pub fn max() -> (r: U256)
        ensures
            r.value() == modulus256() - 1,
    {
        U256 { limbs: [u64::MAX; 4] }
    }

    pub fn is_zero(&self) -> (r: bool)
        ensures
            r == (self.value() == 0),
    {
        self.limbs[0] == 0 && self.limbs[1] == 0 && self.limbs[2] == 0 && self.limbs[3] == 0
    }

    /// Equality of values.
    pub fn equals(&self, other: &U256) -> (r: bool)
        ensures
            r == (self.value() == other.value()),
    {
        proof {
            lemma_limbs_value_injective(self.limbs, other.limbs);
        }
        self.limbs[0] == other.limbs[0] && self.limbs[1] == other.limbs[1] && self.limbs[2]
            == other.limbs[2] && self.limbs[3] == other.limbs[3]
    }

    /// Whether `self < other`.
    pub fn lt(&self, other: &U256) -> (r: bool)
        ensures
            r == (self.value() < other.value()),
    {
        proof {
            lemma_limbs_value_lex(self.limbs, other.limbs);
        }
        if self.limbs[3] != other.limbs[3] {
            self.limbs[3] < other.limbs[3]
        } else if self.limbs[2] != other.limbs[2] {
            self.limbs[2] < other.limbs[2]
        } else if self.limbs[1] != other.limbs[1] {
            self.limbs[1] < other.limbs[1]
        } else {
            self.limbs[0] < other.limbs[0]
        }
    }

    /// Whether `self > other`.
    pub fn gt(&self, other: &U256) -> (r: bool)
        ensures
            r == (self.value() > other.value()),
    {
        other.lt(self)
    }

    /// The smaller of two values.
    pub fn min(self, other: U256) -> (r: U256)
        ensures
            r.value() == if self.value() <= other.value() {
                self.value()
            } else {
                other.value()
            },
    {
        if other.lt(&self) {
            other
        } else {
            self
        }
    }

    /// Limb-wise conjunction.
    pub fn bitand(&self, other: &U256) -> (r: U256)
        ensures
            forall|i: int| 0 <= i < 4 ==> r.limbs[i] == self.limbs[i] & other.limbs[i],
    {
        U256 {
            limbs: [
                self.limbs[0] & other.limbs[0],
                self.limbs[1] & other.limbs[1],
                self.limbs[2] & other.limbs[2],
                self.limbs[3] & other.limbs[3],
            ],
        }
    }

    /// Limb-wise disjunction.
    pub fn bitor(&self, other: &U256) -> (r: U256)
        ensures
            forall|i: int| 0 <= i < 4 ==> r.limbs[i] == self.limbs[i] | other.limbs[i],
    {
        U256 {
            limbs: [
                self.limbs[0] | other.limbs[0],
                self.limbs[1] | other.limbs[1],
                self.limbs[2] | other.limbs[2],
                self.limbs[3] | other.limbs[3],
            ],
        }
    }

    /// Limb-wise exclusive or.
    pub fn bitxor(&self, other: &U256) -> (r: U256)
        ensures
            forall|i: int| 0 <= i < 4 ==> r.limbs[i] == self.limbs[i] ^ other.limbs[i],
    {
        U256 {
            limbs: [
                self.limbs[0] ^ other.limbs[0],
                self.limbs[1] ^ other.limbs[1],
                self.limbs[2] ^ other.limbs[2],
                self.limbs[3] ^ other.limbs[3],
            ],
        }
    }

    /// Bitwise complement: `2^256 - 1 - self`.
    pub fn not(&self) -> (r: U256)
        ensures
            forall|i: int| 0 <= i < 4 ==> r.limbs[i] == !self.limbs[i],
            r.value() == modulus256() - 1 - self.value(),
    {
        let r = U256 {
            limbs: [!self.limbs[0], !self.limbs[1], !self.limbs[2], !self.limbs[3]],
        };
        proof {
            assert forall|x: u64| #[trigger] (!x) == u64::MAX - x by {
                assert(!x == u64::MAX - x) by (bit_vector);
            }
            lemma_limbs_value_bound(self.limbs);
            let a = self.limbs;
            let t = two64();
            assert(limbs_value(r.limbs) + limbs_value(a) == modulus256() - 1) by (nonlinear_arith)
                requires
                    r.limbs[0] + a[0] == t - 1,
                    r.limbs[1] + a[1] == t - 1,
                    r.limbs[2] + a[2] == t - 1,
                    r.limbs[3] + a[3] == t - 1,
                    t == two64(),
            ;
        }
        r
    }
}


/// The number of bytes needed to write `x` without leading zero bytes.
pub open spec fn byte_len_nat(x: nat) -> nat
    decreases x,
{
    if x == 0 {
        0
    } else {
        1 + byte_len_nat(x / 256)
    }
}

/// `ruint::Uint::wrapping_shl`: the value times `2^shift`, modulo `2^256`.
#[verifier::external_body]
pub(crate) fn shl(a: &U256, shift: usize) -> (r: U256)
    requires
        shift < 256,
    ensures
        r.value() == (a.value() * pow2(shift as nat)) % modulus256(),
{
    U256 { limbs: ruint::aliases::U256::from_limbs(a.limbs).wrapping_shl(shift).into_limbs() }
}

/// `ruint::Uint::wrapping_shr`: the value divided by `2^shift`, rounded down.
#[verifier::external_body]
pub(crate) fn shr(a: &U256, shift: usize) -> (r: U256)
    requires
        shift < 256,
    ensures
        r.value() == a.value() / pow2(shift as nat),
{
    U256 { limbs: ruint::aliases::U256::from_limbs(a.limbs).wrapping_shr(shift).into_limbs() }
}

/// `ruint::Uint::byte`: byte number `index`, counted from the least significant one.
#[verifier::external_body]
pub(crate) fn byte(a: &U256, index: usize) -> (r: u8)
    requires
        index < 32,
    ensures
        r == (a.value() / pow256(index as nat)) % 256,
{
    ruint::aliases::U256::from_limbs(a.limbs).byte(index)
}

/// `ruint::Uint::bit`: bit number `index`, counted from the least significant one.
#[verifier::external_body]
pub(crate) fn bit(a: &U256, index: usize) -> (r: bool)
    requires
        index < 256,
    ensures
        r == ((a.value() / pow2(index as nat)) % 2 == 1),
{
    ruint::aliases::U256::from_limbs(a.limbs).bit(index)
}

/// `ruint::Uint::wrapping_sub`: the difference modulo `2^256`.
#[verifier::external_body]
pub(crate) fn wrapping_sub(a: &U256, b: &U256) -> (r: U256)
    ensures
        r.value() == (a.value() + modulus256() - b.value()) % (modulus256() as int),
{
    U256 {
        limbs: ruint::aliases::U256::from_limbs(a.limbs).wrapping_sub(
            ruint::aliases::U256::from_limbs(b.limbs),
        ).into_limbs(),
    }
}

/// `ruint::Uint::saturating_sub`: the difference, or zero if it would be negative.
#[verifier::external_body]
pub(crate) fn saturating_sub(a: &U256, b: &U256) -> (r: U256)
    ensures
        r.value() == if a.value() >= b.value() {
            a.value() - b.value()
        } else {
            0
        },
{
    U256 {
        limbs: ruint::aliases::U256::from_limbs(a.limbs).saturating_sub(
            ruint::aliases::U256::from_limbs(b.limbs),
        ).into_limbs(),
    }
}

/// `ruint::Uint::checked_add`: the sum, if below `2^256`.
#[verifier::external_body]
pub(crate) fn checked_add(a: &U256, b: &U256) -> (r: Option<U256>)
    ensures
        a.value() + b.value() < modulus256() <==> r is Some,
        r matches Some(x) ==> x.value() == a.value() + b.value(),
{
    match ruint::aliases::U256::from_limbs(a.limbs).checked_add(
        ruint::aliases::U256::from_limbs(b.limbs),
    ) {
        Some(x) => Some(U256 { limbs: x.into_limbs() }),
        None => None,
    }
}

/// `ruint::Uint::checked_sub`: the difference, if not negative.
#[verifier::external_body]
pub(crate) fn checked_sub(a: &U256, b: &U256) -> (r: Option<U256>)
    ensures
        a.value() >= b.value() <==> r is Some,
        r matches Some(x) ==> x.value() == a.value() - b.value(),
{
    match ruint::aliases::U256::from_limbs(a.limbs).checked_sub(
        ruint::aliases::U256::from_limbs(b.limbs),
    ) {
        Some(x) => Some(U256 { limbs: x.into_limbs() }),
        None => None,
    }
}

/// `ruint::Uint::checked_mul`: the product, if below `2^256`.
#[verifier::external_body]
pub(crate) fn checked_mul(a: &U256, b: &U256) -> (r: Option<U256>)
    ensures
        a.value() * b.value() < modulus256() <==> r is Some,
        r matches Some(x) ==> x.value() == a.value() * b.value(),
{
    match ruint::aliases::U256::from_limbs(a.limbs).checked_mul(
        ruint::aliases::U256::from_limbs(b.limbs),
    ) {
        Some(x) => Some(U256 { limbs: x.into_limbs() }),
        None => None,
    }
}

/// `ruint::Uint::div_ceil`: the quotient rounded up.
#[verifier::external_body]
pub(crate) fn div_ceil(a: &U256, b: &U256) -> (r: U256)
    requires
        b.value() != 0,
    ensures
        r.value() == (a.value() + b.value() - 1) / (b.value() as int),
{
    U256 {
        limbs: ruint::aliases::U256::from_limbs(a.limbs).div_ceil(
            ruint::aliases::U256::from_limbs(b.limbs),
        ).into_limbs(),
    }
}

/// `ruint::Uint` division: the quotient rounded down.
#[verifier::external_body]
pub(crate) fn div(a: &U256, b: &U256) -> (r: U256)
    requires
        b.value() != 0,
    ensures
        r.value() == a.value() / b.value(),
{
    U256 {
        limbs: (ruint::aliases::U256::from_limbs(a.limbs) / ruint::aliases::U256::from_limbs(
            b.limbs,
        )).into_limbs(),
    }
}

/// `ruint::Uint::byte_len`: the number of bytes without leading zero bytes.
#[verifier::external_body]
pub(crate) fn byte_len(a: &U256) -> (r: usize)
    ensures
        r == byte_len_nat(a.value()),
{
    ruint::aliases::U256::from_limbs(a.limbs).byte_len()
}

/// `ruint::Uint::from_be_bytes`: the number that 32 big-endian bytes encode.
#[verifier::external_body]
pub(crate) fn from_be_bytes(b: &Bytes32) -> (r: U256)
    ensures
        r.value() == be_nat(b@),
{
    U256 { limbs: ruint::aliases::U256::from_be_bytes::<32>(b.bytes).into_limbs() }
}

/// `ruint::Uint::to_be_bytes`: the 32 big-endian bytes of the number.
#[verifier::external_body]
pub(crate) fn to_be_bytes(a: &U256) -> (r: Bytes32)
    ensures
        r@.len() == 32,
        be_nat(r@) == a.value(),
{
    Bytes32 { bytes: ruint::aliases::U256::from_limbs(a.limbs).to_be_bytes::<32>() }
}

/// The value as a `u64`, if it fits.
pub fn try_to_u64(a: &U256) -> (r: Option<u64>)
    ensures
        a.value() <= u64::MAX <==> r is Some,
        r matches Some(x) ==> x == a.value(),
{
    proof {
        let t = two64();
        let l = a.limbs;
        assert(limbs_value(l) >= t * (l[1] as nat + t * (l[2] as nat + t * (l[3] as nat)))) by (nonlinear_arith)
            requires t == two64(), limbs_value(l) == l[0] as nat + t * (l[1] as nat + t * (l[2] as nat + t * (l[3] as nat)));
        if l[1] != 0 || l[2] != 0 || l[3] != 0 {
            assert(t * (l[1] as nat + t * (l[2] as nat + t * (l[3] as nat))) >= t) by (nonlinear_arith)
                requires l[1] != 0 || l[2] != 0 || l[3] != 0, t == two64();
        }
    }
    if a.limbs[1] == 0 && a.limbs[2] == 0 && a.limbs[3] == 0 {
        Some(a.limbs[0])
    } else {
        None
    }
}

/// The value as a `u64`, or `u64::MAX` if it does not fit.
pub fn to_u64_saturated(a: &U256) -> (r: u64)
    ensures
        r == if a.value() <= u64::MAX {
            a.value()
        } else {
            u64::MAX as nat
        },
{
    match try_to_u64(a) {
        Some(x) => x,
        None => u64::MAX,
    }
}

pub proof fn lemma_limbs_value_bound(l: [u64; 4])
    ensures
        limbs_value(l) < modulus256(),
        limbs_value(l) >= 0,
{
    let t = two64();
    assert(limbs_value(l) < t * t * t * t) by (nonlinear_arith)
        requires
            l[0] < t,
            l[1] < t,
            l[2] < t,
            l[3] < t,
            t == two64(),
    ;
}

/// Values compare like their limbs from the most significant one down.
pub proof fn lemma_limbs_value_lex(a: [u64; 4], b: [u64; 4])
    ensures
        limbs_value(a) < limbs_value(b) <==> (if a[3] != b[3] {
            a[3] < b[3]
        } else if a[2] != b[2] {
            a[2] < b[2]
        } else if a[1] != b[1] {
            a[1] < b[1]
        } else {
            a[0] < b[0]
        }),
{
    let t = two64();
    let ra = a[0] as nat + t * (a[1] as nat + t * (a[2] as nat));
    let rb = b[0] as nat + t * (b[1] as nat + t * (b[2] as nat));
    assert(ra < t * t * t && rb < t * t * t) by (nonlinear_arith)
        requires
            a[0] < t, a[1] < t, a[2] < t, b[0] < t, b[1] < t, b[2] < t, t == two64(),
            ra == a[0] as nat + t * (a[1] as nat + t * (a[2] as nat)),
            rb == b[0] as nat + t * (b[1] as nat + t * (b[2] as nat)),
    ;
    assert(limbs_value(a) == ra + t * t * t * a[3]) by (nonlinear_arith)
        requires ra == a[0] as nat + t * (a[1] as nat + t * (a[2] as nat)), t == two64();
    assert(limbs_value(b) == rb + t * t * t * b[3]) by (nonlinear_arith)
        requires rb == b[0] as nat + t * (b[1] as nat + t * (b[2] as nat)), t == two64();
    if a[3] != b[3] {
        if a[3] < b[3] {
            assert(ra + t * t * t * a[3] < rb + t * t * t * b[3]) by (nonlinear_arith)
                requires ra < t * t * t, a[3] < b[3], rb >= 0;
        } else {
            assert(ra + t * t * t * a[3] > rb + t * t * t * b[3]) by (nonlinear_arith)
                requires rb < t * t * t, a[3] > b[3], ra >= 0;
        }
    } else {
        let sa = a[0] as nat + t * (a[1] as nat);
        let sb = b[0] as nat + t * (b[1] as nat);
        assert(sa < t * t && sb < t * t) by (nonlinear_arith)
            requires a[0] < t, a[1] < t, b[0] < t, b[1] < t, t == two64(),
                sa == a[0] as nat + t * (a[1] as nat), sb == b[0] as nat + t * (b[1] as nat);
        assert(ra == sa + t * t * a[2]) by (nonlinear_arith)
            requires ra == a[0] as nat + t * (a[1] as nat + t * (a[2] as nat)), sa == a[0] as nat + t * (a[1] as nat);
        assert(rb == sb + t * t * b[2]) by (nonlinear_arith)
            requires rb == b[0] as nat + t * (b[1] as nat + t * (b[2] as nat)), sb == b[0] as nat + t * (b[1] as nat);
        if a[2] != b[2] {
            if a[2] < b[2] {
                assert(sa + t * t * a[2] < sb + t * t * b[2]) by (nonlinear_arith)
                    requires sa < t * t, a[2] < b[2], sb >= 0;
            } else {
                assert(sa + t * t * a[2] > sb + t * t * b[2]) by (nonlinear_arith)
                    requires sb < t * t, a[2] > b[2], sa >= 0;
            }
        } else {
            if a[1] != b[1] {
                if a[1] < b[1] {
                    assert(a[0] as nat + t * a[1] < b[0] as nat + t * b[1]) by (nonlinear_arith)
                        requires a[0] < t, a[1] < b[1], b[0] >= 0;
                } else {
                    assert(a[0] as nat + t * a[1] > b[0] as nat + t * b[1]) by (nonlinear_arith)
                        requires b[0] < t, a[1] > b[1], a[0] >= 0;
                }
            }
        }
    }
}

/// Different limbs encode different numbers.
pub proof fn lemma_limbs_value_injective(a: [u64; 4], b: [u64; 4])
    ensures
        limbs_value(a) == limbs_value(b) <==> (a[0] == b[0] && a[1] == b[1] && a[2] == b[2] && a[3]
            == b[3]),
{
    lemma_limbs_value_lex(a, b);
    lemma_limbs_value_lex(b, a);
}

} // verus!
