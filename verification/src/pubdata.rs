//! Length of compressed storage value diffs, as published in pubdata.
//!
//! A diff from `initial` to `final` is published as one metadata byte followed by the
//! shortest of: the final value, `final - initial` (added to the old value) or
//! `initial - final` (subtracted from it), each modulo `2^256` and written without
//! leading zero bytes; never more than the 32 bytes of the plain value.
use vstd::prelude::*;

use crate::primitives::{be_nat, Bytes32};
use crate::u256::{byte_len, byte_len_nat, from_be_bytes, modulus256, wrapping_sub, U256};

verus! {

pub open spec fn min3(a: nat, b: nat, c: nat) -> nat {
    if a <= b && a <= c {
        a
    } else if b <= c {
        b
    } else {
        c
    }
}

/// The published length of the diff between two 256-bit values.
pub open spec fn compression_len(initial: nat, final_value: nat) -> nat {
    let add = (final_value + modulus256() - initial) % (modulus256() as int);
    let sub = (initial + modulus256() - final_value) % (modulus256() as int);
    1 + min3(byte_len_nat(add as nat), byte_len_nat(sub as nat), byte_len_nat(final_value))
}

/// Bytes of pubdata needed to publish the change of a slot from `initial` to `final_value`.
pub fn optimal_compression_length(initial: &Bytes32, final_value: &Bytes32) -> (r: usize)
    ensures
        r == compression_len(be_nat(initial@), be_nat(final_value@)),
        1 <= r <= 33,
{
    let a = from_be_bytes(initial);
    let b = from_be_bytes(final_value);
    let add = wrapping_sub(&b, &a);
    let sub = wrapping_sub(&a, &b);
    let l_add = byte_len(&add);
    let l_sub = byte_len(&sub);
    let l_tr = byte_len(&b);
    proof {
        lemma_byte_len_le_32(add.value());
        lemma_byte_len_le_32(sub.value());
        lemma_byte_len_le_32(b.value());
    }
    let m = if l_add <= l_sub && l_add <= l_tr {
        l_add
    } else if l_sub <= l_tr {
        l_sub
    } else {
        l_tr
    };
    1 + m
}

/// Bytes of pubdata needed to publish the change of a value from `initial` to
/// `final_value`.
pub fn optimal_compression_length_u256(initial: &U256, final_value: &U256) -> (r: usize)
    ensures
        r == compression_len(initial.value(), final_value.value()),
        1 <= r <= 33,
{
    let add = wrapping_sub(final_value, initial);
    let sub = wrapping_sub(initial, final_value);
    let l_add = byte_len(&add);
    let l_sub = byte_len(&sub);
    let l_tr = byte_len(final_value);
    proof {
        crate::u256::lemma_limbs_value_bound(final_value.limbs);
        lemma_byte_len_le_32(add.value());
        lemma_byte_len_le_32(sub.value());
        lemma_byte_len_le_32(final_value.value());
    }
    let m = if l_add <= l_sub && l_add <= l_tr {
        l_add
    } else if l_sub <= l_tr {
        l_sub
    } else {
        l_tr
    };
    1 + m
}

/// A number below `256^n` needs at most `n` bytes.
proof fn lemma_byte_len_bound(x: nat, n: nat, p: nat)
    requires
        x < p,
        p == crate::primitives::pow256(n),
    ensures
        byte_len_nat(x) <= n,
    decreases n,
{
    if x > 0 {
        if n == 0 {
            assert(p == 1);
        } else {
            crate::primitives::lemma_pow256_succ((n - 1) as nat);
            let q = crate::primitives::pow256((n - 1) as nat);
            assert(x / 256 < q) by (nonlinear_arith)
                requires x < 256 * q;
            lemma_byte_len_bound(x / 256, (n - 1) as nat, q);
        }
    }
}

/// A compressed diff takes between one and 33 bytes.
pub proof fn lemma_compression_len_bound(initial: nat, final_value: nat)
    ensures
        1 <= compression_len(initial, final_value) <= 33,
{
    let m = modulus256();
    let t = crate::u256::two64();
    assert(t * t * t * t > 0) by (nonlinear_arith)
        requires
            t > 0,
    ;
    let add = (final_value + m - initial) % (m as int);
    lemma_byte_len_le_32(add as nat);
}

pub proof fn lemma_byte_len_le_32(x: nat)
    requires
        x < modulus256(),
    ensures
        byte_len_nat(x) <= 32,
{
    crate::primitives::lemma_pow256_ge_u64();
    reveal_with_fuel(crate::primitives::pow256, 33);
    assert(crate::primitives::pow256(32) == modulus256());
    lemma_byte_len_bound(x, 32, crate::primitives::pow256(32));
}

/// A number needs fewer than `256^k` only if it has at most `k` bytes, and always fits
/// in its byte length.
proof fn lemma_byte_len_fits(x: nat)
    ensures
        x < crate::primitives::pow256(byte_len_nat(x)),
    decreases x,
{
    if x > 0 {
        lemma_byte_len_fits(x / 256);
        let q = crate::primitives::pow256(byte_len_nat(x / 256));
        assert(crate::primitives::pow256(byte_len_nat(x)) == 256 * q);
        assert(x < 256 * q) by (nonlinear_arith)
            requires
                x / 256 < q,
        ;
    }
}

/// The published length of a diff is that of its shortest encoding plus the metadata
/// byte: whenever the final value, or the difference `final - initial` or
/// `initial - final` modulo `2^256`, is below `256^k`, the diff takes at most `1 + k`
/// bytes; and one of the three always fits in the bytes the diff takes after the
/// metadata byte.
pub proof fn lemma_compression_len_optimal(initial: nat, final_value: nat, k: nat)
    requires
        initial < modulus256(),
        final_value < modulus256(),
    ensures
        (final_value < crate::primitives::pow256(k) || ((final_value + modulus256() - initial) % (
        modulus256() as int)) < crate::primitives::pow256(k) || ((initial + modulus256()
            - final_value) % (modulus256() as int)) < crate::primitives::pow256(k))
            ==> compression_len(initial, final_value) <= 1 + k,
        ({
            let n = (compression_len(initial, final_value) - 1) as nat;
            ||| final_value < crate::primitives::pow256(n)
            ||| ((final_value + modulus256() - initial) % (modulus256() as int))
                < crate::primitives::pow256(n)
            ||| ((initial + modulus256() - final_value) % (modulus256() as int))
                < crate::primitives::pow256(n)
        }),
{
    let m = modulus256() as int;
    let add = ((final_value + modulus256() - initial) % m) as nat;
    let sub = ((initial + modulus256() - final_value) % m) as nat;
    if final_value < crate::primitives::pow256(k) {
        lemma_byte_len_bound(final_value, k, crate::primitives::pow256(k));
    }
    if add < crate::primitives::pow256(k) {
        lemma_byte_len_bound(add, k, crate::primitives::pow256(k));
    }
    if sub < crate::primitives::pow256(k) {
        lemma_byte_len_bound(sub, k, crate::primitives::pow256(k));
    }
    lemma_byte_len_fits(final_value);
    lemma_byte_len_fits(add);
    lemma_byte_len_fits(sub);
}

/// In particular a diff never takes more than the metadata byte and the significant
/// bytes of the final value, nor more than those of either modular difference.
pub proof fn lemma_compression_len_at_most_plain(initial: nat, final_value: nat)
    requires
        initial < modulus256(),
        final_value < modulus256(),
    ensures
        compression_len(initial, final_value) <= 1 + byte_len_nat(final_value),
        compression_len(initial, final_value) <= 1 + byte_len_nat(
            ((final_value + modulus256() - initial) % (modulus256() as int)) as nat,
        ),
        compression_len(initial, final_value) <= 1 + byte_len_nat(
            ((initial + modulus256() - final_value) % (modulus256() as int)) as nat,
        ),
{
    let m = modulus256() as int;
    let add = ((final_value + modulus256() - initial) % m) as nat;
    let sub = ((initial + modulus256() - final_value) % m) as nat;
    lemma_byte_len_fits(final_value);
    lemma_byte_len_fits(add);
    lemma_byte_len_fits(sub);
    lemma_compression_len_optimal(initial, final_value, byte_len_nat(final_value));
    lemma_compression_len_optimal(initial, final_value, byte_len_nat(add));
    lemma_compression_len_optimal(initial, final_value, byte_len_nat(sub));
}

} // verus!
