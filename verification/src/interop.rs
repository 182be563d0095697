//! Interop roots: the calldata that imports them into the L2 root storage contract and
//! the rolling hash over them that settlement layers check.
use vstd::prelude::*;

use crate::hashing::{keccak256, keccak256_of};
use crate::primitives::Bytes32;

verus! {

/// Upper bound on the number of roots one call may carry.
pub const MAX_ENCODABLE_AMOUNT_OF_ROOTS: u32 = 10000;

/// A root of another chain's block or batch.
#[derive(Clone, Copy, Debug, PartialEq, Eq)]
pub struct InteropRoot {
    pub chain_id: u64,
    pub block_or_batch_number: u64,
    pub root: Bytes32,
}

/// The interop roots of a block, as the host hands them to the guest's interop roots
/// query.
#[derive(Clone, Debug)]
pub struct InteropRootsResponder {
    pub interop_roots: Vec<InteropRoot>,
}

/// The 8 big-endian bytes of `v`.
pub open spec fn u64_be(v: nat) -> Seq<u8> {
    Seq::new(8, |i: int| ((v / crate::primitives::pow256((7 - i) as nat)) % 256) as u8)
}

/// `v` as a 32-byte ABI word: 24 zero bytes, then its 8 big-endian bytes.
pub open spec fn word(v: nat) -> Seq<u8> {
    Seq::new(24, |i: int| 0u8) + u64_be(v)
}

/// The selector of `addInteropRootsInBatch((uint256,uint256,bytes32[])[])`.
pub open spec fn add_interop_roots_selector() -> Seq<u8> {
    seq![0xCCu8, 0xA2u8, 0xF7u8, 0xBCu8]
}

/// The head words of the array: the offset of each root's tuple, relative to the
/// start of the array contents; each tuple takes five words.
pub open spec fn root_offsets(n: nat, k: nat) -> Seq<u8>
    decreases k,
{
    if k == 0 {
        Seq::empty()
    } else {
        root_offsets(n, (k - 1) as nat) + word((n * 32 + (k - 1) * 160) as nat)
    }
}

/// The tuple of one root: chain id, block or batch number, the offset of its
/// `sides` array (three words ahead), its length (one), and the root itself.
pub open spec fn root_tuple(r: InteropRoot) -> Seq<u8> {
    word(r.chain_id as nat) + word(r.block_or_batch_number as nat) + word(96) + word(1) + r.root@
}

/// The tuples of the first `k` roots.
pub open spec fn root_tuples(roots: Seq<InteropRoot>, k: nat) -> Seq<u8>
    decreases k,
{
    if k == 0 {
        Seq::empty()
    } else {
        root_tuples(roots, (k - 1) as nat) + root_tuple(roots[k - 1])
    }
}

/// The ABI encoding of `addInteropRootsInBatch(roots)`, each root with one side.
pub open spec fn interop_roots_batch_call(roots: Seq<InteropRoot>) -> Seq<u8> {
    add_interop_roots_selector() + word(32) + word(roots.len()) + root_offsets(
        roots.len(),
        roots.len(),
    ) + root_tuples(roots, roots.len())
}

/// Appends the ABI word of `v`.
pub(crate) fn push_word(out: &mut Vec<u8>, v: u64)
    ensures
        final(out)@ == old(out)@ + word(v as nat),
{
    let mut i: usize = 0;
    while i < 24
        invariant
            i <= 24,
            out@ == old(out)@ + Seq::new(i as nat, |j: int| 0u8),
        decreases 24 - i,
    {
        out.push(0u8);
        i = i + 1;
        assert(out@ =~= old(out)@ + Seq::new(i as nat, |j: int| 0u8));
    }
    let ghost mid = out@;
    push_u64_be(out, v);
    assert(out@ =~= old(out)@ + word(v as nat));
}

/// Appends the 8 big-endian bytes of `v`.
pub(crate) fn push_u64_be(out: &mut Vec<u8>, v: u64)
    ensures
        final(out)@ == old(out)@ + u64_be(v as nat),
{
    let mut bytes = [0u8; 8];
    let mut x: u64 = v;
    let mut k: usize = 8;
    assert(crate::primitives::pow256(0) == 1);
    assert(v as nat / crate::primitives::pow256((8 - k) as nat) == v as nat) by {
        assert((8 - k) as nat == 0);
        vstd::arithmetic::div_mod::lemma_div_basics(v as int);
    }
    while k > 0
        invariant
            k <= 8,
            x == v as nat / crate::primitives::pow256((8 - k) as nat),
            forall|j: int| k <= j < 8 ==> bytes@[j] == u64_be(v as nat)[j],
            bytes@.len() == 8,
        decreases k,
    {
        let ghost p = crate::primitives::pow256((8 - k) as nat);
        proof {
            crate::primitives::lemma_pow256_succ((8 - k) as nat);
            assert(v as nat / p / 256 == v as nat / (p * 256)) by {
                vstd::arithmetic::div_mod::lemma_div_denominator(v as int, p as int, 256);
            }
            assert(crate::primitives::pow256((8 - (k - 1)) as nat) == p * 256);
        }
        bytes[k - 1] = (x % 256) as u8;
        x = x / 256;
        k = k - 1;
    }
    let mut j: usize = 0;
    while j < 8
        invariant
            j <= 8,
            bytes@.len() == 8,
            forall|t: int| 0 <= t < 8 ==> bytes@[t] == u64_be(v as nat)[t],
            out@ == old(out)@ + u64_be(v as nat).subrange(0, j as int),
        decreases 8 - j,
    {
        out.push(bytes[j]);
        j = j + 1;
        assert(out@ =~= old(out)@ + u64_be(v as nat).subrange(0, j as int));
    }
    assert(u64_be(v as nat).subrange(0, 8) =~= u64_be(v as nat));
}

/// Encodes the calldata of `addInteropRootsInBatch(InteropRoot[])` for the L2 interop
/// root storage contract, with one side per root. At most
/// `MAX_ENCODABLE_AMOUNT_OF_ROOTS` roots go into one call.
pub fn encode_interop_roots_setting_batch_call(interop_roots: &[InteropRoot]) -> (r: Vec<u8>)
    requires
        interop_roots@.len() <= MAX_ENCODABLE_AMOUNT_OF_ROOTS,
    ensures
        r@ == interop_roots_batch_call(interop_roots@),
        r@.len() == 68 + interop_roots@.len() * 192,
{
    encode_roots_batch_call(interop_roots)
}

/// The calldata with which a service transaction imports interop roots:
/// `addInteropRootsInBatch(InteropRoot[])`, each root with one side. The only bound on
/// the number of roots is that the calldata fits in memory.
pub fn encode_interop_root_import_calldata(interop_roots: Vec<InteropRoot>) -> (r: Vec<u8>)
    requires
        68 + interop_roots@.len() * 192 <= usize::MAX,
    ensures
        r@ == interop_roots_batch_call(interop_roots@),
{
    encode_roots_batch_call(interop_roots.as_slice())
}

/// The encoder behind both entry points.
fn encode_roots_batch_call(interop_roots: &[InteropRoot]) -> (r: Vec<u8>)
    requires
        68 + interop_roots@.len() * 192 <= usize::MAX,
    ensures
        r@ == interop_roots_batch_call(interop_roots@),
        r@.len() == 68 + interop_roots@.len() * 192,
{
    let n = interop_roots.len();
    let mut data: Vec<u8> = Vec::new();
    data.push(0xCC);
    data.push(0xA2);
    data.push(0xF7);
    data.push(0xBC);
    assert(data@ =~= add_interop_roots_selector());
    push_word(&mut data, 32);
    push_word(&mut data, n as u64);
    let ghost head = data@;
    let mut i: usize = 0;
    while i < n
        invariant
            i <= n,
            n == interop_roots@.len(),
            68 + n * 192 <= usize::MAX,
            data@ == head + root_offsets(n as nat, i as nat),
        decreases n - i,
    {
        assert(n * 32 + i * 160 <= n * 192) by (nonlinear_arith)
            requires
                i < n,
        ;
        let offset = (n * 32 + i * 160) as u64;
        push_word(&mut data, offset);
        i = i + 1;
        assert(data@ =~= head + root_offsets(n as nat, i as nat));
    }
    let ghost head2 = data@;
    let mut i: usize = 0;
    while i < n
        invariant
            i <= n,
            n == interop_roots@.len(),
            data@ == head2 + root_tuples(interop_roots@, i as nat),
        decreases n - i,
    {
        let root = interop_roots[i];
        let ghost before = data@;
        push_word(&mut data, root.chain_id);
        push_word(&mut data, root.block_or_batch_number);
        push_word(&mut data, 96);
        push_word(&mut data, 1);
        let mut j: usize = 0;
        let ghost mid = data@;
        while j < 32
            invariant
                j <= 32,
                root.root@.len() == 32,
                data@ == mid + root.root@.subrange(0, j as int),
            decreases 32 - j,
        {
            data.push(root.root.bytes[j]);
            j = j + 1;
            assert(data@ =~= mid + root.root@.subrange(0, j as int));
        }
        assert(root.root@.subrange(0, 32) =~= root.root@);
        assert(data@ =~= before + root_tuple(root));
        i = i + 1;
        assert(data@ =~= head2 + root_tuples(interop_roots@, i as nat));
    }
    proof {
        lemma_batch_call_len(interop_roots@);
    }
    data
}

proof fn lemma_offsets_len(n: nat, k: nat)
    ensures
        root_offsets(n, k).len() == k * 32,
    decreases k,
{
    if k > 0 {
        lemma_offsets_len(n, (k - 1) as nat);
    }
}

proof fn lemma_tuples_len(roots: Seq<InteropRoot>, k: nat)
    requires
        k <= roots.len(),
    ensures
        root_tuples(roots, k).len() == k * 160,
    decreases k,
{
    if k > 0 {
        lemma_tuples_len(roots, (k - 1) as nat);
        assert(roots[k - 1].root@.len() == 32);
    }
}

proof fn lemma_batch_call_len(roots: Seq<InteropRoot>)
    ensures
        interop_roots_batch_call(roots).len() == 68 + roots.len() * 192,
{
    lemma_offsets_len(roots.len(), roots.len());
    lemma_tuples_len(roots, roots.len());
}

/// The rolling hash after the first `k` roots: each step hashes the previous hash,
/// the chain id and block number as words, and the root.
pub open spec fn rolling_hash_upto(old_rolling_hash: Seq<u8>, roots: Seq<InteropRoot>, k: nat) -> Seq<
    u8,
>
    decreases k,
{
    if k == 0 {
        old_rolling_hash
    } else {
        let r = roots[k - 1];
        keccak256_of(
            rolling_hash_upto(old_rolling_hash, roots, (k - 1) as nat) + word(r.chain_id as nat)
                + word(r.block_or_batch_number as nat) + r.root@,
        )
    }
}

/// Folding roots in two batches gives the hash of folding them in one: the rolling hash
/// after `a` then `b` is the rolling hash of `a + b`.
pub proof fn lemma_rolling_hash_concat(h: Seq<u8>, a: Seq<InteropRoot>, b: Seq<InteropRoot>)
    ensures
        rolling_hash_upto(rolling_hash_upto(h, a, a.len()), b, b.len()) == rolling_hash_upto(
            h,
            a + b,
            (a + b).len(),
        ),
    decreases b.len(),
{
    lemma_rolling_hash_prefix(h, a, b, b.len());
}

proof fn lemma_rolling_hash_prefix(h: Seq<u8>, a: Seq<InteropRoot>, b: Seq<InteropRoot>, k: nat)
    requires
        k <= b.len(),
    ensures
        rolling_hash_upto(rolling_hash_upto(h, a, a.len()), b, k) == rolling_hash_upto(
            h,
            a + b,
            a.len() + k,
        ),
    decreases k,
{
    if k == 0 {
        lemma_rolling_hash_same_prefix(h, a, a + b, a.len());
    } else {
        lemma_rolling_hash_prefix(h, a, b, (k - 1) as nat);
        assert((a + b)[a.len() + k - 1] == b[k - 1]);
    }
}

/// The rolling hash over the first `k` roots depends only on those roots.
proof fn lemma_rolling_hash_same_prefix(h: Seq<u8>, x: Seq<InteropRoot>, y: Seq<InteropRoot>, k: nat)
    requires
        k <= x.len(),
        k <= y.len(),
        forall|i: int| 0 <= i < k ==> x[i] == y[i],
    ensures
        rolling_hash_upto(h, x, k) == rolling_hash_upto(h, y, k),
    decreases k,
{
    if k > 0 {
        lemma_rolling_hash_same_prefix(h, x, y, (k - 1) as nat);
    }
}

/// Folds the roots into the rolling hash:
/// `h = keccak256(h || chain_id || block_or_batch_number || root)` for each root.
pub fn calculate_interop_roots_rolling_hash(old_rolling_hash: Bytes32, roots: &[InteropRoot]) -> (r:
    Bytes32)
    ensures
        r@ == rolling_hash_upto(old_rolling_hash@, roots@, roots@.len()),
{
    let mut rolling_hash = old_rolling_hash;
    let mut i: usize = 0;
    while i < roots.len()
        invariant
            i <= roots@.len(),
            rolling_hash@ == rolling_hash_upto(old_rolling_hash@, roots@, i as nat),
        decreases roots@.len() - i,
    {
        let root = roots[i];
        let mut data: Vec<u8> = Vec::new();
        let mut j: usize = 0;
        while j < 32
            invariant
                j <= 32,
                rolling_hash@.len() == 32,
                data@ == rolling_hash@.subrange(0, j as int),
            decreases 32 - j,
        {
            data.push(rolling_hash.bytes[j]);
            j = j + 1;
            assert(data@ =~= rolling_hash@.subrange(0, j as int));
        }
        assert(rolling_hash@.subrange(0, 32) =~= rolling_hash@);
        push_word(&mut data, root.chain_id);
        push_word(&mut data, root.block_or_batch_number);
        let ghost mid = data@;
        let mut j: usize = 0;
        while j < 32
            invariant
                j <= 32,
                root.root@.len() == 32,
                data@ == mid + root.root@.subrange(0, j as int),
            decreases 32 - j,
        {
            data.push(root.root.bytes[j]);
            j = j + 1;
            assert(data@ =~= mid + root.root@.subrange(0, j as int));
        }
        assert(root.root@.subrange(0, 32) =~= root.root@);
        rolling_hash = keccak256(data.as_slice());
        i = i + 1;
    }
    rolling_hash
}

} // verus!
