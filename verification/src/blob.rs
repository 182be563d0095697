//! EIP-4844 blob helpers: the versioned hash of a KZG commitment, the evaluation point
//! drawn from a blob, and the evaluation of a blob's polynomial in the BLS12-381 scalar
//! field.
use vstd::arithmetic::div_mod::{lemma_mul_mod_noop_left, lemma_mul_mod_noop_right, lemma_small_mod};
use vstd::arithmetic::power::pow;
use vstd::prelude::*;

use crate::crypto::parse_u256_be;
use crate::hashing::{blake2s256, blake2s256_of, sha256, sha256_of};
use crate::primitives::{be_nat, pow256, Bytes32};
use crate::u256::U256;
// `from_bigint` and `into_bigint` of the field elements; `inverse_in_place` and `pow`.
use ark_ff::{Field, PrimeField};

verus! {

/// Bytes encoded in one blob element.
pub const BLOB_CHUNK_SIZE: usize = 31;

pub const ELEMENTS_PER_4844_BLOCK: usize = 4096;

pub const ENCODABLE_BYTES_PER_BLOB: usize = 126976;

/// Version byte of KZG versioned hashes.
pub const VERSIONED_HASH_VERSION_KZG: u8 = 0x01;

/// The order of the BLS12-381 scalar field.
pub open spec fn bls_r() -> nat {
    52435875175126190479447740508185965837690552500527637822603658699938581184513nat
}

/// Subtraction modulo the field order, of canonical representatives.
pub open spec fn fsub(a: nat, b: nat) -> nat {
    ((a + bls_r() - b) % (bls_r() as int)) as nat
}

/// Multiplication in the BLS12-381 scalar field (`ark_bls12_381::Fr`), on canonical
/// representatives.
#[verifier::external_body]
fn fr_mul(a: &U256, b: &U256) -> (r: U256)
    requires
        a.value() < bls_r(),
        b.value() < bls_r(),
    ensures
        r.value() == (a.value() * b.value()) % bls_r(),
{
    let x = ark_bls12_381::Fr::from_bigint(ark_ff::BigInt::new(a.limbs)).unwrap();
    let y = ark_bls12_381::Fr::from_bigint(ark_ff::BigInt::new(b.limbs)).unwrap();
    U256 { limbs: (x * y).into_bigint().0 }
}

/// Addition in the BLS12-381 scalar field (`ark_bls12_381::Fr`), on canonical
/// representatives.
#[verifier::external_body]
fn fr_add(a: &U256, b: &U256) -> (r: U256)
    requires
        a.value() < bls_r(),
        b.value() < bls_r(),
    ensures
        r.value() == (a.value() + b.value()) % bls_r(),
{
    let x = ark_bls12_381::Fr::from_bigint(ark_ff::BigInt::new(a.limbs)).unwrap();
    let y = ark_bls12_381::Fr::from_bigint(ark_ff::BigInt::new(b.limbs)).unwrap();
    U256 { limbs: (x + y).into_bigint().0 }
}

/// Subtraction in the BLS12-381 scalar field (`ark_bls12_381::Fr`), on canonical
/// representatives.
#[verifier::external_body]
fn fr_sub(a: &U256, b: &U256) -> (r: U256)
    requires
        a.value() < bls_r(),
        b.value() < bls_r(),
    ensures
        r.value() == fsub(a.value(), b.value()),
{
    let x = ark_bls12_381::Fr::from_bigint(ark_ff::BigInt::new(a.limbs)).unwrap();
    let y = ark_bls12_381::Fr::from_bigint(ark_ff::BigInt::new(b.limbs)).unwrap();
    U256 { limbs: (x - y).into_bigint().0 }
}

/// `Field::inverse_in_place` on an element of the BLS12-381 scalar field: nothing for
/// zero, and otherwise the element whose product with `a` is one.
#[verifier::external_body]
fn fr_inverse(a: &U256) -> (r: Option<U256>)
    requires
        a.value() < bls_r(),
    ensures
        r is None <==> a.value() == 0,
        r matches Some(y) ==> y.value() < bls_r() && (a.value() * y.value()) % bls_r() == 1,
{
    let mut x = ark_bls12_381::Fr::from_bigint(ark_ff::BigInt::new(a.limbs)).unwrap();
    match x.inverse_in_place() {
        Some(y) => Some(U256 { limbs: (*y).into_bigint().0 }),
        None => None,
    }
}

/// Division in the BLS12-381 scalar field (`ark_bls12_381::Fr`): `a` times the inverse of
/// `b`, the element whose product with `b` is `a`. It panics for a zero `b`.
#[verifier::external_body]
fn fr_div(a: &U256, b: &U256) -> (r: U256)
    requires
        a.value() < bls_r(),
        0 < b.value() < bls_r(),
    ensures
        r.value() < bls_r(),
        (b.value() * r.value()) % bls_r() == a.value(),
{
    let x = ark_bls12_381::Fr::from_bigint(ark_ff::BigInt::new(a.limbs)).unwrap();
    let y = ark_bls12_381::Fr::from_bigint(ark_ff::BigInt::new(b.limbs)).unwrap();
    U256 { limbs: (x / y).into_bigint().0 }
}

/// `Field::pow` in the BLS12-381 scalar field: `a` to the power `e`.
#[verifier::external_body]
fn fr_pow(a: &U256, e: u64) -> (r: U256)
    requires
        a.value() < bls_r(),
    ensures
        r.value() == pow(a.value() as int, e as nat) % (bls_r() as int),
{
    let x = ark_bls12_381::Fr::from_bigint(ark_ff::BigInt::new(a.limbs)).unwrap();
    U256 { limbs: x.pow([e]).into_bigint().0 }
}

/// `256^31` and `256^16` are below the field order.
proof fn lemma_small_in_field()
    ensures
        pow256(31) < bls_r(),
        pow256(16) < bls_r(),
        pow256(16) <= pow256(31),
{
    reveal_with_fuel(pow256, 32);
}

/// The KZG versioned hash of a commitment: its SHA-256 with the first byte replaced by
/// the version.
pub fn versioned_hash_for_kzg(data: &[u8]) -> (r: Bytes32)
    ensures
        r@ == sha256_of(data@).update(0, VERSIONED_HASH_VERSION_KZG),
{
    let h = sha256(data);
    let mut bytes = h.bytes;
    bytes[0] = VERSIONED_HASH_VERSION_KZG;
    let r = Bytes32 { bytes };
    assert(r@ =~= sha256_of(data@).update(0, VERSIONED_HASH_VERSION_KZG));
    r
}

/// The point at which a blob's polynomial is opened: the last 16 bytes of the
/// BLAKE2s-256 of the versioned hash followed by the blob, read big-endian (so below
/// `2^128`, a field element as it is).
pub fn calculate_evaluation_point(data: &[u8], versioned_hash: &[u8]) -> (r: U256)
    ensures
        r.value() == be_nat(blake2s256_of(versioned_hash@ + data@).subrange(16, 32)),
        r.value() < bls_r(),
{
    let mut input: Vec<u8> = Vec::new();
    let mut i: usize = 0;
    while i < versioned_hash.len()
        invariant
            i <= versioned_hash@.len(),
            input@ == versioned_hash@.subrange(0, i as int),
        decreases versioned_hash@.len() - i,
    {
        input.push(versioned_hash[i]);
        i = i + 1;
        assert(input@ =~= versioned_hash@.subrange(0, i as int));
    }
    let mut j: usize = 0;
    while j < data.len()
        invariant
            j <= data@.len(),
            input@ == versioned_hash@ + data@.subrange(0, j as int),
        decreases data@.len() - j,
    {
        input.push(data[j]);
        j = j + 1;
        assert(input@ =~= versioned_hash@ + data@.subrange(0, j as int));
    }
    assert(versioned_hash@.subrange(0, versioned_hash@.len() as int) =~= versioned_hash@);
    assert(data@.subrange(0, data@.len() as int) =~= data@);
    let hash = blake2s256(input.as_slice());
    let mut tail = [0u8; 16];
    let mut k: usize = 0;
    while k < 16
        invariant
            k <= 16,
            hash@.len() == 32,
            forall|t: int| 0 <= t < k ==> tail@[t] == hash@[16 + t],
        decreases 16 - k,
    {
        tail[k] = hash.bytes[16 + k];
        k = k + 1;
    }
    assert(tail@ =~= hash@.subrange(16, 32));
    let r = parse_u256_be(&tail);
    proof {
        crate::primitives::lemma_be_nat_len_bound(tail@);
        lemma_small_in_field();
    }
    r
}

/// The polynomial of the first `k` 31-byte chunks of `data`, as coefficients from the
/// highest degree down, evaluated at `x` (Horner's rule in the field).
pub open spec fn horner(data: Seq<u8>, x: nat, k: nat) -> nat
    decreases k,
{
    if k == 0 {
        0
    } else {
        (horner(data, x, (k - 1) as nat) * x % bls_r() + be_nat(
            data.subrange(31 * (k - 1), (31 * k) as int),
        )) % bls_r()
    }
}

/// Evaluates at `x` the polynomial whose coefficients are the blob's 31-byte chunks,
/// the first chunk the highest; a trailing partial chunk is not part of it.
pub fn evaluate_polynomial(data: &[u8], x: &U256) -> (r: U256)
    requires
        x.value() < bls_r(),
    ensures
        r.value() == horner(data@, x.value(), data@.len() / 31),
{
    let len = data.len();
    let n = len / BLOB_CHUNK_SIZE;
    let mut opening_value = U256::zero();
    let mut k: usize = 0;
    proof {
        lemma_small_in_field();
    }
    while k < n
        invariant
            k <= n,
            len == data@.len(),
            n == data@.len() / 31,
            x.value() < bls_r(),
            opening_value.value() == horner(data@, x.value(), k as nat),
            opening_value.value() < bls_r(),
            pow256(31) < bls_r(),
        decreases n - k,
    {
        assert(31 * (k + 1) <= data@.len()) by (nonlinear_arith)
            requires
                k < n,
                n == data@.len() / 31,
        ;
        let base: usize = 31 * k;
        let mut chunk = [0u8; 31];
        let mut t: usize = 0;
        while t < 31
            invariant
                t <= 31,
                base == 31 * k,
                base + 31 <= data@.len(),
                len == data@.len(),
                forall|u: int| 0 <= u < t ==> chunk@[u] == data@[31 * k + u],
            decreases 31 - t,
        {
            chunk[t] = data[base + t];
            t = t + 1;
        }
        assert(chunk@ =~= data@.subrange(31 * k as int, 31 * (k + 1)));
        let c = parse_u256_be(&chunk);
        proof {
            crate::primitives::lemma_be_nat_len_bound(chunk@);
        }
        let m = fr_mul(&opening_value, x);
        opening_value = fr_add(&m, &c);
        k = k + 1;
    }
    opening_value
}

/// The inverse of 4096 in the field.
pub open spec fn inv4096() -> nat {
    52423073447788513186850219087163459498374710080483563692275874603576291491841nat
}

/// Coefficient `i` of a blob's polynomial in evaluation form: the full 31-byte chunks
/// of the data read big-endian, then the partial tail padded with zeros, then zeros.
pub open spec fn blob_coeff(data: Seq<u8>, i: int) -> nat {
    let n = (data.len() / 31) as int;
    if i < n {
        be_nat(data.subrange(31 * i, 31 * i + 31))
    } else if i == n {
        be_nat(
            data.subrange(31 * n, data.len() as int) + Seq::new(
                (31 * n + 31 - data.len()) as nat,
                |k: int| 0u8,
            ),
        )
    } else {
        0
    }
}

/// `x` minus the evaluation point `i`.
pub open spec fn fr_diff(x: nat, roots: Seq<U256>, i: int) -> nat {
    fsub(x, roots[i].value())
}

/// The product of the first `k` differences `x - roots[i]`.
pub open spec fn diff_prefix(x: nat, roots: Seq<U256>, k: nat) -> nat
    decreases k,
{
    if k == 0 {
        1
    } else {
        (diff_prefix(x, roots, (k - 1) as nat) * fr_diff(x, roots, k - 1)) % bls_r()
    }
}

/// `y` is an inverse of `a` in the field.
pub open spec fn is_fr_inverse(a: nat, y: nat) -> bool {
    y < bls_r() && (a * y) % bls_r() == 1
}

/// The inverse of `a` in the field.
pub open spec fn fr_inv(a: nat) -> nat {
    choose|y: nat| is_fr_inverse(a, y)
}

/// The first `k` terms of the barycentric sum: `poly[i] * roots[i] / (x - roots[i])`.
pub open spec fn bary_sum(data: Seq<u8>, x: nat, roots: Seq<U256>, k: nat) -> nat
    decreases k,
{
    if k == 0 {
        0
    } else {
        (bary_sum(data, x, roots, (k - 1) as nat) + ((fr_inv(fr_diff(x, roots, k - 1))
            * roots[k - 1].value()) % bls_r() * blob_coeff(data, k - 1)) % bls_r()) % bls_r()
    }
}

/// The first evaluation point at or after `i` that equals `x` (4096 if none does).
pub open spec fn first_root(x: nat, roots: Seq<U256>, i: nat) -> nat
    decreases 4096 - i,
{
    if i >= 4096 {
        4096
    } else if roots[i as int].value() == x {
        i
    } else {
        first_root(x, roots, i + 1)
    }
}

/// The value at `x` of the polynomial that takes the blob's coefficients at the
/// evaluation points `roots`: the coefficient itself at an evaluation point, and
/// otherwise the barycentric formula `(x^4096 - 1) / 4096 * sum`.
pub open spec fn blob_poly_eval(data: Seq<u8>, x: nat, roots: Seq<U256>) -> nat {
    let i = first_root(x, roots, 0);
    if i < 4096 {
        blob_coeff(data, i as int)
    } else {
        ((bary_sum(data, x, roots, 4096) * inv4096()) % bls_r() * fsub(
            (pow(x as int, 4096) % (bls_r() as int)) as nat,
            1,
        )) % bls_r()
    }
}

/// Products of residues associate.
proof fn lemma_fr_mul_assoc(a: nat, b: nat, c: nat)
    ensures
        ((a * b) % bls_r() * c) % bls_r() == (a * ((b * c) % bls_r())) % bls_r(),
{
    let m = bls_r() as int;
    lemma_mul_mod_noop_left((a * b) as int, c as int, m);
    lemma_mul_mod_noop_right(a as int, (b * c) as int, m);
    assert((a * b) * c == a * (b * c)) by (nonlinear_arith);
}

/// An element has at most one inverse.
proof fn lemma_fr_inverse_unique(d: nat, y1: nat, y2: nat)
    requires
        y1 < bls_r(),
        y2 < bls_r(),
        (d * y1) % bls_r() == 1,
        (d * y2) % bls_r() == 1,
    ensures
        y1 == y2,
{
    lemma_fr_mul_assoc(y1, d, y2);
    assert(y1 * d == d * y1) by (nonlinear_arith);
    lemma_small_mod(y1, bls_r());
    lemma_small_mod(y2, bls_r());
}

/// A zero difference makes every longer product zero.
proof fn lemma_zero_diff(x: nat, roots: Seq<U256>, j: nat, k: nat)
    requires
        j < k,
        fr_diff(x, roots, j as int) == 0,
    ensures
        diff_prefix(x, roots, k) == 0,
    decreases k,
{
    let prev = diff_prefix(x, roots, (k - 1) as nat);
    let last = fr_diff(x, roots, k - 1);
    if j + 1 < k {
        lemma_zero_diff(x, roots, j, (k - 1) as nat);
        assert(prev * last == 0) by (nonlinear_arith)
            requires
                prev == 0,
        ;
    } else {
        assert(prev * last == 0) by (nonlinear_arith)
            requires
                last == 0,
        ;
    }
    assert(diff_prefix(x, roots, k) == (diff_prefix(x, roots, (k - 1) as nat) * fr_diff(
        x,
        roots,
        k - 1,
    )) % bls_r());
}

/// What `first_root` finds.
proof fn lemma_first_root(x: nat, roots: Seq<U256>, i: nat)
    requires
        i <= 4096,
    ensures
        i <= first_root(x, roots, i) <= 4096,
        first_root(x, roots, i) < 4096 ==> roots[first_root(x, roots, i) as int].value() == x,
        forall|j: int| i <= j < first_root(x, roots, i) ==> roots[j].value() != x,
    decreases 4096 - i,
{
    if i < 4096 && roots[i as int].value() != x {
        lemma_first_root(x, roots, i + 1);
    }
}

/// A point equal to an evaluation point makes the product of differences zero.
proof fn lemma_root_zeroes_prefix(x: nat, roots: Seq<U256>, j: int)
    requires
        0 <= j < 4096,
        roots[j].value() == x,
        x < bls_r(),
    ensures
        diff_prefix(x, roots, 4096) == 0,
{
    assert(fr_diff(x, roots, j) == 0) by {
        assert((x + bls_r() - x) % (bls_r() as int) == 0);
    }
    lemma_zero_diff(x, roots, j as nat, 4096);
}

/// The blob's coefficients: its full chunks, then the tail padded with zeros, then zeros
/// up to 4096 of them.
fn blob_coefficients(data: &[u8]) -> (poly: Vec<U256>)
    requires
        data@.len() < 31 * 4096,
    ensures
        poly@.len() == 4096,
        forall|j: int|
            0 <= j < 4096 ==> (#[trigger] poly@[j]).value() == blob_coeff(data@, j) && poly@[j].value()
                < bls_r(),
{
    let mut poly: Vec<U256> = Vec::new();
    proof {
        lemma_small_in_field();
    }
    let n: usize = data.len() / BLOB_CHUNK_SIZE;
    let mut k: usize = 0;
    while k < n
        invariant
            k <= n,
            n == data@.len() / 31,
            data@.len() < 31 * 4096,
            poly@.len() == k,
            pow256(31) < bls_r(),
            forall|j: int|
                0 <= j < k ==> (#[trigger] poly@[j]).value() == blob_coeff(data@, j) && poly@[j].value()
                    < bls_r(),
        decreases n - k,
    {
        assert(31 * (k + 1) <= data@.len()) by (nonlinear_arith)
            requires
                k < n,
                n == data@.len() / 31,
        ;
        let base: usize = 31 * k;
        let mut chunk = [0u8; 31];
        let mut t: usize = 0;
        while t < 31
            invariant
                t <= 31,
                base == 31 * k,
                base + 31 <= data@.len(),
                data@.len() < 31 * 4096,
                forall|u: int| 0 <= u < t ==> chunk@[u] == data@[31 * k + u],
            decreases 31 - t,
        {
            chunk[t] = data[base + t];
            t = t + 1;
        }
        assert(chunk@ =~= data@.subrange(31 * k as int, 31 * k + 31));
        let c = parse_u256_be(&chunk);
        proof {
            crate::primitives::lemma_be_nat_len_bound(chunk@);
        }
        poly.push(c);
        k = k + 1;
    }
    assert(31 * n <= data@.len() < 31 * n + 31 && n < 4096) by (nonlinear_arith)
        requires
            n == data@.len() / 31,
            data@.len() < 31 * 4096,
    ;
    let start: usize = 31 * n;
    let rem: usize = data.len() - start;
    let mut last = [0u8; 31];
    let mut t: usize = 0;
    while t < rem
        invariant
            t <= rem,
            rem < 31,
            start == 31 * n,
            start + rem == data@.len(),
            data@.len() < 31 * 4096,
            forall|u: int| 0 <= u < t ==> last@[u] == data@[31 * n + u],
            forall|u: int| rem <= u < 31 ==> last@[u] == 0,
        decreases rem - t,
    {
        last[t] = data[start + t];
        t = t + 1;
    }
    assert(last@ =~= data@.subrange(31 * n as int, data@.len() as int) + Seq::new(
        (31 * n + 31 - data@.len()) as nat,
        |k: int| 0u8,
    ));
    let c = parse_u256_be(&last);
    proof {
        crate::primitives::lemma_be_nat_len_bound(last@);
    }
    poly.push(c);
    while poly.len() < 4096
        invariant
            n + 1 <= poly@.len() <= 4096,
            n == data@.len() / 31,
            pow256(31) < bls_r(),
            forall|j: int|
                0 <= j < poly@.len() ==> (#[trigger] poly@[j]).value() == blob_coeff(data@, j)
                    && poly@[j].value() < bls_r(),
        decreases 4096 - poly@.len(),
    {
        poly.push(U256::zero());
    }
    poly
}

/// The differences `x - roots[i]` and, for each, the product of those before it; with
/// the product of all of them.
fn differences_and_prefixes(x: &U256, roots: &[U256]) -> (r: (Vec<U256>, Vec<U256>, U256))
    requires
        x.value() < bls_r(),
        roots@.len() == 4096,
        forall|i: int| 0 <= i < 4096 ==> #[trigger] roots@[i].value() < bls_r(),
    ensures
        r.0@.len() == 4096,
        r.1@.len() == 4096,
        forall|j: int|
            0 <= j < 4096 ==> (#[trigger] r.0@[j]).value() == fr_diff(x.value(), roots@, j)
                && r.0@[j].value() < bls_r(),
        forall|j: int|
            0 <= j < 4096 ==> (#[trigger] r.1@[j]).value() == diff_prefix(
                x.value(),
                roots@,
                j as nat,
            ) && r.1@[j].value() < bls_r(),
        r.2.value() == diff_prefix(x.value(), roots@, 4096),
        r.2.value() < bls_r(),
{
    let ghost xv = x.value();
    let mut inverses_in: Vec<U256> = Vec::new();
    let mut inverses: Vec<U256> = Vec::new();
    let mut accumulator = U256::from_u64(1);
    let mut i: usize = 0;
    while i < 4096
        invariant
            i <= 4096,
            roots@.len() == 4096,
            forall|j: int| 0 <= j < 4096 ==> #[trigger] roots@[j].value() < bls_r(),
            xv == x.value(),
            xv < bls_r(),
            inverses_in@.len() == i,
            inverses@.len() == i,
            accumulator.value() == diff_prefix(xv, roots@, i as nat),
            accumulator.value() < bls_r(),
            forall|j: int|
                0 <= j < i ==> (#[trigger] inverses_in@[j]).value() == fr_diff(xv, roots@, j)
                    && inverses_in@[j].value() < bls_r(),
            forall|j: int|
                0 <= j < i ==> (#[trigger] inverses@[j]).value() == diff_prefix(
                    xv,
                    roots@,
                    j as nat,
                ) && inverses@[j].value() < bls_r(),
        decreases 4096 - i,
    {
        let d = fr_sub(x, &roots[i]);
        inverses_in.push(d);
        inverses.push(accumulator);
        accumulator = fr_mul(&accumulator, &d);
        i = i + 1;
    }
    (inverses_in, inverses, accumulator)
}

/// Turns the prefix products into the inverses of the differences, given the inverse
/// of the product of all of them (the second half of batch inversion).
fn invert_differences(
    x: &U256,
    roots: &[U256],
    diffs: &Vec<U256>,
    prefixes: Vec<U256>,
    total_inverse: U256,
) -> (r: Vec<U256>)
    requires
        x.value() < bls_r(),
        roots@.len() == 4096,
        diffs@.len() == 4096,
        prefixes@.len() == 4096,
        forall|j: int|
            0 <= j < 4096 ==> (#[trigger] diffs@[j]).value() == fr_diff(x.value(), roots@, j)
                && diffs@[j].value() < bls_r(),
        forall|j: int|
            0 <= j < 4096 ==> (#[trigger] prefixes@[j]).value() == diff_prefix(
                x.value(),
                roots@,
                j as nat,
            ) && prefixes@[j].value() < bls_r(),
        total_inverse.value() < bls_r(),
        (total_inverse.value() * diff_prefix(x.value(), roots@, 4096)) % bls_r() == 1,
    ensures
        r@.len() == 4096,
        forall|j: int|
            0 <= j < 4096 ==> is_fr_inverse(fr_diff(x.value(), roots@, j), (#[trigger] r@[j]).value()),
{
    let ghost xv = x.value();
    let mut inverses = prefixes;
    let mut accumulator = total_inverse;
    let mut k: usize = 4096;
    while k > 0
        invariant
            k <= 4096,
            roots@.len() == 4096,
            xv == x.value(),
            diffs@.len() == 4096,
            inverses@.len() == 4096,
            accumulator.value() < bls_r(),
            (accumulator.value() * diff_prefix(xv, roots@, k as nat)) % bls_r() == 1,
            forall|j: int|
                0 <= j < 4096 ==> (#[trigger] diffs@[j]).value() == fr_diff(xv, roots@, j)
                    && diffs@[j].value() < bls_r(),
            forall|j: int|
                0 <= j < k ==> (#[trigger] inverses@[j]).value() == diff_prefix(
                    xv,
                    roots@,
                    j as nat,
                ) && inverses@[j].value() < bls_r(),
            forall|j: int|
                k <= j < 4096 ==> is_fr_inverse(fr_diff(xv, roots@, j), (#[trigger] inverses@[j]).value()),
        decreases k,
    {
        k = k - 1;
        let ghost acc = accumulator.value();
        let ghost pre = diff_prefix(xv, roots@, k as nat);
        let ghost dk = fr_diff(xv, roots@, k as int);
        let ghost next = diff_prefix(xv, roots@, (k + 1) as nat);
        assert(next == (pre * dk) % bls_r());
        let v = fr_mul(&inverses[k], &accumulator);
        proof {
            // dk * (pre * acc) == (dk * pre) * acc == acc * next == 1
            lemma_fr_mul_assoc(dk, pre, acc);
            assert(dk * pre == pre * dk) by (nonlinear_arith);
            assert(next * acc == acc * next) by (nonlinear_arith);
            assert(is_fr_inverse(dk, v.value()));
        }
        inverses.set(k, v);
        accumulator = fr_mul(&accumulator, &diffs[k]);
        proof {
            // (acc * dk) * pre == acc * (dk * pre) == acc * next == 1
            lemma_fr_mul_assoc(acc, dk, pre);
        }
    }
    inverses
}

/// The first `k` terms of the barycentric sum, from the inverses of the differences.
fn barycentric_sum(data: &[u8], x: &U256, roots: &[U256], poly: &Vec<U256>, inverses: &Vec<U256>) -> (r: U256)
    requires
        roots@.len() == 4096,
        forall|i: int| 0 <= i < 4096 ==> #[trigger] roots@[i].value() < bls_r(),
        poly@.len() == 4096,
        forall|j: int|
            0 <= j < 4096 ==> (#[trigger] poly@[j]).value() == blob_coeff(data@, j)
                && poly@[j].value() < bls_r(),
        inverses@.len() == 4096,
        forall|j: int|
            0 <= j < 4096 ==> is_fr_inverse(fr_diff(x.value(), roots@, j), (#[trigger] inverses@[j]).value()),
    ensures
        r.value() == bary_sum(data@, x.value(), roots@, 4096),
        r.value() < bls_r(),
{
    let ghost xv = x.value();
    let mut out = U256::zero();
    let mut t: usize = 0;
    while t < 4096
        invariant
            t <= 4096,
            xv == x.value(),
            roots@.len() == 4096,
            forall|i: int| 0 <= i < 4096 ==> #[trigger] roots@[i].value() < bls_r(),
            poly@.len() == 4096,
            forall|j: int|
                0 <= j < 4096 ==> (#[trigger] poly@[j]).value() == blob_coeff(data@, j)
                    && poly@[j].value() < bls_r(),
            inverses@.len() == 4096,
            forall|j: int|
                0 <= j < 4096 ==> is_fr_inverse(fr_diff(xv, roots@, j), (#[trigger] inverses@[j]).value()),
            out.value() == bary_sum(data@, xv, roots@, t as nat),
            out.value() < bls_r(),
        decreases 4096 - t,
    {
        proof {
            let d = fr_diff(xv, roots@, t as int);
            let w = inverses@[t as int].value();
            assert(is_fr_inverse(d, w));
            let y = fr_inv(d);
            assert(is_fr_inverse(d, y));
            lemma_fr_inverse_unique(d, y, w);
        }
        let tmp = fr_mul(&inverses[t], &roots[t]);
        let tmp = fr_mul(&tmp, &poly[t]);
        out = fr_add(&out, &tmp);
        t = t + 1;
    }
    out
}

/// Evaluates the blob's polynomial, given in evaluation form at the points `roots`, at
/// `x` (barycentric Lagrange interpolation). The data is cut into 31-byte chunks, the
/// last one padded with zeros, and the coefficients past it are zero.
pub fn evaluate_blob_polynomial(data: &[u8], x: &U256, roots: &[U256]) -> (r: U256)
    requires
        data@.len() < 31 * 4096,
        x.value() < bls_r(),
        roots@.len() == 4096,
        forall|i: int| 0 <= i < 4096 ==> #[trigger] roots@[i].value() < bls_r(),
        diff_prefix(x.value(), roots@, 4096) == 0 ==> exists|i: int|
            0 <= i < 4096 && #[trigger] roots@[i].value() == x.value(),
    ensures
        r.value() == blob_poly_eval(data@, x.value(), roots@),
{
    let poly = blob_coefficients(data);
    let ghost xv = x.value();
    let (inverses_in, prefixes, product) = differences_and_prefixes(x, roots);
    let total_inverse = match fr_inverse(&product) {
        None => {
            let mut k: usize = 0;
            while k < 4096
                invariant
                    k <= 4096,
                    roots@.len() == 4096,
                    xv == x.value(),
                    poly@.len() == 4096,
                    forall|j: int|
                        0 <= j < 4096 ==> (#[trigger] poly@[j]).value() == blob_coeff(data@, j),
                    first_root(xv, roots@, 0) == first_root(xv, roots@, k as nat),
                decreases 4096 - k,
            {
                if x.equals(&roots[k]) {
                    return poly[k];
                }
                k = k + 1;
            }
            proof {
                lemma_first_root(xv, roots@, 0);
            }
            return U256::zero();
        },
        Some(y) => y,
    };
    proof {
        lemma_first_root(xv, roots@, 0);
        if first_root(xv, roots@, 0) < 4096 {
            lemma_root_zeroes_prefix(xv, roots@, first_root(xv, roots@, 0) as int);
        }
        assert(total_inverse.value() * product.value() == product.value() * total_inverse.value())
            by (nonlinear_arith);
    }
    let inverses = invert_differences(x, roots, &inverses_in, prefixes, total_inverse);
    let out = barycentric_sum(data, x, roots, &poly, &inverses);
    let n = U256::from_u64(4096);
    let scaled = fr_div(&out, &n);
    proof {
        let q = scaled.value();
        assert((4096 * inv4096()) % bls_r() == 1);
        lemma_fr_mul_assoc(q, 4096, inv4096());
        assert(q * 4096 == 4096 * q) by (nonlinear_arith);
        lemma_small_mod(q, bls_r());
    }
    let power = fr_pow(x, 4096);
    let one = U256::from_u64(1);
    let factor = fr_sub(&power, &one);
    fr_mul(&scaled, &factor)
}
/// Evaluation points of the extended blob.
pub const FIELD_ELEMENTS_PER_EXT_BLOB: usize = 8192;

/// The field's root of unity of order 8192 that generates the evaluation points.
pub open spec fn root_of_unity_value() -> nat {
    32731401973776920074999878620293785439674386180695720638377027142500196583783nat
}

/// `w` to the power `i` in the field.
pub open spec fn fr_power(w: nat, i: nat) -> nat
    decreases i,
{
    if i == 0 {
        1
    } else {
        (fr_power(w, (i - 1) as nat) * w) % bls_r()
    }
}

/// No power of `w` from the second to the one before the `i`th is one.
pub open spec fn powers_not_one(w: nat, i: nat) -> bool {
    forall|k: nat| 2 <= k < i ==> #[trigger] fr_power(w, k) != 1
}

/// Entry `i` of the table of powers of `w`: the powers up to the first one (from the
/// second on) that is one, and zero after it.
pub open spec fn power_table(w: nat, i: nat) -> nat {
    if powers_not_one(w, i) {
        fr_power(w, i)
    } else {
        0
    }
}

/// The 13-bit index `n` with its bits in reverse order.
pub open spec fn rev13(n: u32) -> u32 {
    ((n & 1) << 12u32) | ((n & 2) << 10u32) | ((n & 4) << 8u32) | ((n & 8) << 6u32) | ((n & 16)
        << 4u32) | ((n & 32) << 2u32) | (n & 64) | ((n & 128) >> 2u32) | ((n & 256) >> 4u32) | ((n
        & 512) >> 6u32) | ((n & 1024) >> 8u32) | ((n & 2048) >> 10u32) | ((n & 4096) >> 12u32)
}

/// Bit reversal of 13-bit indices is an involution on them.
proof fn lemma_rev13()
    ensures
        forall|n: u32| n < 8192 ==> #[trigger] rev13(n) < 8192 && rev13(rev13(n)) == n,
{
    assert(forall|n: u32| n < 8192 ==> #[trigger] rev13(n) < 8192 && rev13(rev13(n)) == n)
        by (bit_vector);
}

/// The bit-reversed index of `n`.
fn reverse_index(n: u32) -> (r: u32)
    ensures
        r == rev13(n),
{
    ((n & 1) << 12u32) | ((n & 2) << 10u32) | ((n & 4) << 8u32) | ((n & 8) << 6u32) | ((n & 16)
        << 4u32) | ((n & 32) << 2u32) | (n & 64) | ((n & 128) >> 2u32) | ((n & 256) >> 4u32) | ((n
        & 512) >> 6u32) | ((n & 1024) >> 8u32) | ((n & 2048) >> 10u32) | ((n & 4096) >> 12u32)
}

/// The root of unity as a field element.
fn root_of_unity() -> (r: U256)
    ensures
        r.value() == root_of_unity_value(),
        r.value() < bls_r(),
{
    U256::from_limbs([0x6fdd00bfc78c8967, 0x146b58bc434906ac, 0x2ccddea2972e89ed, 0x485d512737b1da3d])
}

/// The powers of the root of unity, up to the first that is one.
fn powers_of_root(w: &U256) -> (r: Vec<U256>)
    requires
        w.value() < bls_r(),
    ensures
        r@.len() == 8192,
        forall|i: int| 0 <= i < 8192 ==> (#[trigger] r@[i]).value() == power_table(w.value(), i as nat),
{
    let mut table: Vec<U256> = Vec::new();
    table.push(U256::from_u64(1));
    table.push(*w);
    assert(fr_power(w.value(), 1) == w.value()) by {
        reveal_with_fuel(fr_power, 2);
        assert(1 * w.value() == w.value());
        lemma_small_mod(w.value(), bls_r());
    }
    let mut prev = *w;
    let mut stopped = false;
    let mut i: usize = 2;
    while i < 8192
        invariant
            2 <= i <= 8192,
            w.value() < bls_r(),
            table@.len() == i,
            forall|p: int| 0 <= p < i ==> (#[trigger] table@[p]).value() == power_table(w.value(), p as nat),
            stopped == !powers_not_one(w.value(), i as nat),
            !stopped ==> prev.value() == fr_power(w.value(), (i - 1) as nat),
            prev.value() < bls_r(),
        decreases 8192 - i,
    {
        if stopped {
            table.push(U256::zero());
            assert(!powers_not_one(w.value(), (i + 1) as nat));
        } else {
            let cur = fr_mul(&prev, w);
            table.push(cur);
            proof {
                assert(fr_power(w.value(), i as nat) == cur.value());
            }
            if cur.equals(&U256::from_u64(1)) {
                stopped = true;
                assert(!powers_not_one(w.value(), (i + 1) as nat));
            } else {
                assert(powers_not_one(w.value(), (i + 1) as nat));
            }
            prev = cur;
        }
        i = i + 1;
    }
    table
}

/// The 8192 evaluation points of the extended blob, the powers of the root of unity in
/// bit-reversed order of their exponents.
pub fn calculate_brp_root_of_unity() -> (r: Vec<U256>)
    ensures
        r@.len() == FIELD_ELEMENTS_PER_EXT_BLOB,
        forall|i: int|
            0 <= i < 8192 ==> (#[trigger] r@[i]).value() == power_table(
                root_of_unity_value(),
                rev13(i as u32) as nat,
            ),
{
    let w = root_of_unity();
    let mut roots = powers_of_root(&w);
    let ghost table = roots@;
    proof {
        lemma_rev13();
    }
    let mut k: u32 = 0;
    while k < 8192
        invariant
            k <= 8192,
            roots@.len() == 8192,
            table.len() == 8192,
            forall|n: u32| n < 8192 ==> #[trigger] rev13(n) < 8192 && rev13(rev13(n)) == n,
            forall|p: u32|
                p < 8192 ==> #[trigger] roots@[p as int] == if p < k || rev13(p) < k {
                    table[rev13(p) as int]
                } else {
                    table[p as int]
                },
        decreases 8192 - k,
    {
        let r = reverse_index(k);
        if r > k {
            let a = roots[k as usize];
            let b = roots[r as usize];
            roots.set(k as usize, b);
            roots.set(r as usize, a);
        }
        proof {
            assert forall|p: u32| p < 8192 implies #[trigger] roots@[p as int] == if p < k + 1
                || rev13(p) < k + 1 {
                table[rev13(p) as int]
            } else {
                table[p as int]
            } by {
                if p == k || p == r {
                } else if rev13(p) == k {
                    assert(rev13(rev13(p)) == p);
                }
            }
        }
        k = k + 1;
    }
    proof {
        assert forall|i: int| 0 <= i < 8192 implies (#[trigger] roots@[i]).value() == power_table(
            root_of_unity_value(),
            rev13(i as u32) as nat,
        ) by {
            let p = i as u32;
            assert(roots@[p as int] == table[rev13(p) as int]);
        }
    }
    roots
}

} // verus!
