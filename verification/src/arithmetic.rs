//! Arithmetic advice for the guest program: the quotient and remainder of two 256-bit
//! numbers that the guest points at in its memory.
use vstd::arithmetic::div_mod::lemma_fundamental_div_mod_converse;
use vstd::prelude::*;

use crate::memory::{memory_u64, read_memory_as_u64, U32Memory};
use crate::u256::two64;

verus! {

/// The query id of the 256-bit division advice.
pub const U256_DIV_REM_ADVICE_QUERY_ID: u32 = 0x4005_0030;

/// The 256-bit number stored at byte address `ptr`: four little-endian 64-bit limbs.
pub open spec fn memory_u256<M: U32Memory>(m: &M, ptr: nat) -> nat {
    memory_u64(m, ptr) as nat + two64() * (memory_u64(m, ptr + 8) as nat + two64() * (memory_u64(
        m,
        ptr + 16,
    ) as nat + two64() * (memory_u64(m, ptr + 24) as nat)))
}

/// The 256-bit number of the four little-endian words `s[start..start + 4]`.
pub open spec fn words_u256(s: Seq<usize>, start: int) -> nat {
    s[start] as nat + two64() * (s[start + 1] as nat + two64() * (s[start + 2] as nat + two64() * (
    s[start + 3] as nat)))
}

/// The dividend's address: the low 32 bits of the packed query word.
pub open spec fn dividend_ptr(packed: usize) -> nat {
    packed as nat % 0x1_0000_0000
}

/// The divisor's address: the high 32 bits of the packed query word.
pub open spec fn divisor_ptr(packed: usize) -> nat {
    packed as nat / 0x1_0000_0000
}

/// A 256-bit number can be read at `ptr`: aligned, and its 32 bytes below `2^32`.
pub open spec fn readable_u256(ptr: nat) -> bool {
    ptr % 4 == 0 && ptr + 32 <= u32::MAX
}

/// The number whose little-endian 64-bit limbs are `s`.
pub open spec fn limbs_nat(s: Seq<u64>) -> nat
    decreases s.len(),
{
    if s.len() == 0 {
        0
    } else {
        s[0] as nat + two64() * limbs_nat(s.drop_first())
    }
}

/// The shortest little-endian limbs of `x`: no zero limb at the top.
pub open spec fn canonical_limbs(x: nat) -> Seq<u64>
    decreases x,
{
    if x == 0 {
        Seq::empty()
    } else {
        seq![(x % two64()) as u64] + canonical_limbs(x / two64())
    }
}

/// The number stored at byte address `ptr` as `n` little-endian 64-bit limbs.
pub open spec fn memory_number<M: U32Memory>(m: &M, ptr: nat, n: nat) -> nat {
    limbs_nat(Seq::new(n, |i: int| memory_u64(m, (ptr + 8 * i) as nat)))
}

/// `ruint::algorithms::div` on limb vectors: the numerator becomes the quotient and the
/// divisor the remainder, each keeping its length. It panics on a zero divisor.
#[verifier::external_body]
fn div_rem_limb_vecs(numerator: Vec<u64>, divisor: Vec<u64>) -> (r: (Vec<u64>, Vec<u64>))
    requires
        limbs_nat(divisor@) != 0,
    ensures
        r.0@.len() == numerator@.len(),
        r.1@.len() == divisor@.len(),
        limbs_nat(r.0@) == limbs_nat(numerator@) / limbs_nat(divisor@),
        limbs_nat(r.1@) == limbs_nat(numerator@) % limbs_nat(divisor@),
{
    let mut n = numerator;
    let mut d = divisor;
    ruint::algorithms::div(&mut n, &mut d);
    (n, d)
}

/// Zero limbs on top add nothing to the number.
proof fn lemma_zero_tail(s: Seq<u64>, k: int)
    requires
        0 <= k <= s.len(),
        forall|i: int| k <= i < s.len() ==> s[i] == 0,
    ensures
        limbs_nat(s.take(k)) == limbs_nat(s),
    decreases s.len(),
{
    if s.len() == 0 {
        assert(s.take(k) =~= s);
    } else if k == 0 {
        lemma_zero_tail(s.drop_first(), 0);
        assert(s.take(0) =~= Seq::<u64>::empty());
        assert(s.drop_first().take(0) =~= Seq::<u64>::empty());
    } else {
        lemma_zero_tail(s.drop_first(), k - 1);
        assert(s.take(k).drop_first() =~= s.drop_first().take(k - 1));
    }
}

/// Limbs whose top limb is nonzero encode a positive number.
proof fn lemma_top_limb_positive(s: Seq<u64>)
    requires
        s.len() > 0,
        s.last() != 0,
    ensures
        limbs_nat(s) > 0,
    decreases s.len(),
{
    if s.len() > 1 {
        lemma_top_limb_positive(s.drop_first());
    } else {
        assert(limbs_nat(s.drop_first()) == 0);
    }
}

/// Limbs without a zero limb on top are the shortest limbs of their number.
proof fn lemma_canonical(s: Seq<u64>)
    requires
        s.len() == 0 || s.last() != 0,
    ensures
        canonical_limbs(limbs_nat(s)) == s,
    decreases s.len(),
{
    if s.len() == 0 {
        assert(canonical_limbs(0) =~= s);
    } else {
        let t = s.drop_first();
        lemma_canonical(t);
        lemma_top_limb_positive(s);
        lemma_fundamental_div_mod_converse(
            limbs_nat(s) as int,
            two64() as int,
            limbs_nat(t) as int,
            s[0] as int,
        );
        assert(seq![s[0]] + t =~= s);
    }
}

/// The number of limbs of `s` below its top run of zero limbs.
fn significant_limbs(s: &Vec<u64>) -> (k: usize)
    ensures
        k <= s@.len(),
        s@.take(k as int) == canonical_limbs(limbs_nat(s@)),
{
    let mut k = s.len();
    while k > 0 && s[k - 1] == 0
        invariant
            k <= s@.len(),
            forall|i: int| k <= i < s@.len() ==> s@[i] == 0,
        decreases k,
    {
        k = k - 1;
    }
    proof {
        lemma_zero_tail(s@, k as int);
        lemma_canonical(s@.take(k as int));
    }
    k
}

/// The answer to a modular exponentiation advice query: a header with the lengths of
/// the quotient and the remainder in 32-bit words (quotient low, remainder high), then
/// the quotient's limbs and the remainder's.
pub open spec fn modexp_answer(q: Seq<u64>, r: Seq<u64>) -> Seq<usize> {
    seq![(2 * q.len() + 0x1_0000_0000 * (2 * r.len())) as usize] + q.map_values(
        |x: u64| x as usize,
    ) + r.map_values(|x: u64| x as usize)
}

/// The parameters of a modular exponentiation advice query. Lengths count 256-bit words.
#[derive(Clone, Copy, Debug)]
pub struct ModExpAdviceParams {
    pub a_ptr: u32,
    pub a_len: u32,
    pub b_ptr: u32,
    pub b_len: u32,
    pub modulus_ptr: u32,
    pub modulus_len: u32,
}

/// The parameters the guest laid out at `ptr`: six consecutive words, in field order.
pub open spec fn params_at<M: U32Memory>(m: &M, ptr: nat) -> ModExpAdviceParams {
    ModExpAdviceParams {
        a_ptr: m.word_at(ptr as u32),
        a_len: m.word_at((ptr + 4) as u32),
        b_ptr: m.word_at((ptr + 8) as u32),
        b_len: m.word_at((ptr + 12) as u32),
        modulus_ptr: m.word_at((ptr + 16) as u32),
        modulus_len: m.word_at((ptr + 20) as u32),
    }
}

/// `len` 256-bit words at `ptr` can be read: aligned, and below `2^32`.
pub open spec fn readable_words(ptr: nat, len: nat) -> bool {
    ptr % 4 == 0 && ptr + 32 * len <= u32::MAX
}

/// The number to reduce, as the parameters point at it.
pub open spec fn modexp_number<M: U32Memory>(m: &M, p: ModExpAdviceParams) -> nat {
    memory_number(m, p.a_ptr as nat, (p.a_len * 4) as nat)
}

/// The modulus, as the parameters point at it.
pub open spec fn modexp_modulus<M: U32Memory>(m: &M, p: ModExpAdviceParams) -> nat {
    memory_number(m, p.modulus_ptr as nat, (p.modulus_len * 4) as nat)
}

/// What the advice needs of the parameters: a nonzero pointer to the number, no
/// exponent, a nonzero pointer to a nonzero modulus, and both numbers readable.
pub open spec fn modexp_params_ok<M: U32Memory>(m: &M, p: ModExpAdviceParams) -> bool {
    &&& p.a_ptr > 0
    &&& readable_words(p.a_ptr as nat, p.a_len as nat)
    &&& p.b_ptr == 0
    &&& p.b_len == 0
    &&& p.modulus_ptr > 0
    &&& p.modulus_len > 0
    &&& readable_words(p.modulus_ptr as nat, p.modulus_len as nat)
    &&& modexp_modulus(m, p) != 0
}

/// The answer the 256-bit division advice owes for the packed query word `packed`.
pub open spec fn u256_div_rem_answer<M: U32Memory>(m: &M, packed: usize, r: Seq<usize>) -> bool {
    &&& r.len() == 8
    &&& words_u256(r, 0) == memory_u256(m, dividend_ptr(packed)) / memory_u256(
        m,
        divisor_ptr(packed),
    )
    &&& words_u256(r, 4) == memory_u256(m, dividend_ptr(packed)) % memory_u256(
        m,
        divisor_ptr(packed),
    )
}

/// What the 256-bit division advice needs of the packed query word.
pub open spec fn u256_div_rem_query_ok<M: U32Memory>(m: &M, packed: usize) -> bool {
    &&& readable_u256(dividend_ptr(packed))
    &&& readable_u256(divisor_ptr(packed))
    &&& memory_u256(m, divisor_ptr(packed)) != 0
}

/// The four-limb numbers read from memory are the 256-bit numbers there.
proof fn lemma_four_limbs(s: Seq<u64>)
    requires
        s.len() == 4,
    ensures
        limbs_nat(s) == s[0] as nat + two64() * (s[1] as nat + two64() * (s[2] as nat + two64() * (
        s[3] as nat))),
{
    reveal_with_fuel(limbs_nat, 5);
    assert(s.drop_first().drop_first().drop_first().drop_first().len() == 0);
}

/// Reads the advice parameters laid out at `ptr`.
fn read_modexp_params<M: U32Memory>(memory: &M, ptr: u32) -> (r: ModExpAdviceParams)
    requires
        ptr + 24 <= u32::MAX,
    ensures
        r == params_at(memory, ptr as nat),
{
    ModExpAdviceParams {
        a_ptr: memory.read_word(ptr),
        a_len: memory.read_word(ptr + 4),
        b_ptr: memory.read_word(ptr + 8),
        b_len: memory.read_word(ptr + 12),
        modulus_ptr: memory.read_word(ptr + 16),
        modulus_len: memory.read_word(ptr + 20),
    }
}

/// Answers the arithmetic advice queries of a guest whose memory is `M`.
pub struct ArithmeticQuery<M> {
    _marker: core::marker::PhantomData<M>,
}

impl<M: U32Memory> ArithmeticQuery<M> {
    pub fn new() -> Self {
        ArithmeticQuery { _marker: core::marker::PhantomData }
    }

    /// The 256-bit division advice. The query is one word that packs the dividend's
    /// address (low 32 bits) and the divisor's (high 32 bits); the answer is eight
    /// words: the quotient's four little-endian limbs, then the remainder's.
    pub fn process_u256_div_rem_query(&self, query: Vec<usize>, memory: &M) -> (r: Vec<usize>)
        requires
            usize::BITS == 64,
            query@.len() == 1,
            u256_div_rem_query_ok(memory, query@[0]),
        ensures
            u256_div_rem_answer(memory, query@[0], r@),
    {
        let packed = query[0] as u64;
        let dividend_at = (packed % 0x1_0000_0000) as u32;
        let divisor_at = (packed / 0x1_0000_0000) as u32;
        let dividend = match read_memory_as_u64(memory, dividend_at, 4) {
            Ok(v) => v,
            Err(_) => {
                return Vec::new();
            },
        };
        let divisor = match read_memory_as_u64(memory, divisor_at, 4) {
            Ok(v) => v,
            Err(_) => {
                return Vec::new();
            },
        };
        proof {
            lemma_four_limbs(dividend@);
            lemma_four_limbs(divisor@);
        }
        let (q, rem) = div_rem_limb_vecs(dividend, divisor);
        proof {
            lemma_four_limbs(q@);
            lemma_four_limbs(rem@);
        }
        let mut result: Vec<usize> = Vec::new();
        result.push(q[0] as usize);
        result.push(q[1] as usize);
        result.push(q[2] as usize);
        result.push(q[3] as usize);
        result.push(rem[0] as usize);
        result.push(rem[1] as usize);
        result.push(rem[2] as usize);
        result.push(rem[3] as usize);
        result
    }

    /// The modular reduction advice behind modular exponentiation: the quotient and the
    /// remainder of the number by the modulus that the parameters point at, each
    /// without zero limbs on top, after a header with their lengths.
    pub fn process_modexp_advice_query(&self, params: ModExpAdviceParams, memory: &M) -> (r: Vec<
        usize,
    >)
        requires
            usize::BITS == 64,
            modexp_params_ok(memory, params),
        ensures
            r@ == modexp_answer(
                canonical_limbs(modexp_number(memory, params) / modexp_modulus(memory, params)),
                canonical_limbs(modexp_number(memory, params) % modexp_modulus(memory, params)),
            ),
    {
        let n = match read_memory_as_u64(memory, params.a_ptr, params.a_len * 4) {
            Ok(v) => v,
            Err(_) => {
                return Vec::new();
            },
        };
        let d = match read_memory_as_u64(memory, params.modulus_ptr, params.modulus_len * 4) {
            Ok(v) => v,
            Err(_) => {
                return Vec::new();
            },
        };
        assert(n@ =~= Seq::new(
            (params.a_len * 4) as nat,
            |i: int| memory_u64(memory, (params.a_ptr + 8 * i) as nat),
        ));
        assert(d@ =~= Seq::new(
            (params.modulus_len * 4) as nat,
            |i: int| memory_u64(memory, (params.modulus_ptr + 8 * i) as nat),
        ));
        let ghost a = modexp_number(memory, params);
        let ghost m = modexp_modulus(memory, params);
        let (q, rem) = div_rem_limb_vecs(n, d);
        let ql = significant_limbs(&q);
        let rl = significant_limbs(&rem);
        let header: u64 = 2 * (ql as u64) + 0x1_0000_0000 * (2 * (rl as u64));
        let mut result: Vec<usize> = Vec::new();
        result.push(header as usize);
        let ghost qs = q@.take(ql as int);
        let ghost rs = rem@.take(rl as int);
        let mut i: usize = 0;
        while i < ql
            invariant
                usize::BITS == 64,
                i <= ql <= q@.len(),
                qs == q@.take(ql as int),
                result@ == seq![header as usize] + qs.take(i as int).map_values(|x: u64| x as usize),
            decreases ql - i,
        {
            result.push(q[i] as usize);
            i = i + 1;
            assert(result@ =~= seq![header as usize] + qs.take(i as int).map_values(
                |x: u64| x as usize,
            ));
        }
        assert(qs.take(ql as int) =~= qs);
        let mut j: usize = 0;
        while j < rl
            invariant
                usize::BITS == 64,
                j <= rl <= rem@.len(),
                rs == rem@.take(rl as int),
                result@ == seq![header as usize] + qs.map_values(|x: u64| x as usize) + rs.take(
                    j as int,
                ).map_values(|x: u64| x as usize),
            decreases rl - j,
        {
            result.push(rem[j] as usize);
            j = j + 1;
            assert(result@ =~= seq![header as usize] + qs.map_values(|x: u64| x as usize)
                + rs.take(j as int).map_values(|x: u64| x as usize));
        }
        assert(rs.take(rl as int) =~= rs);
        result
    }

    /// Answers a buffered query: the 256-bit division advice for its query id, and the
    /// modular reduction advice otherwise, whose query is one word: the address of its
    /// parameters.
    pub fn process_buffered_query(&mut self, query_id: u32, query: Vec<usize>, memory: &M) -> (r:
        Vec<usize>)
        requires
            usize::BITS == 64,
            query@.len() == 1,
            query_id == U256_DIV_REM_ADVICE_QUERY_ID ==> u256_div_rem_query_ok(memory, query@[0]),
            query_id != U256_DIV_REM_ADVICE_QUERY_ID ==> {
                &&& query@[0] % 4 == 0
                &&& query@[0] + 24 <= u32::MAX
                &&& modexp_params_ok(memory, params_at(memory, query@[0] as nat))
            },
        ensures
            query_id == U256_DIV_REM_ADVICE_QUERY_ID ==> u256_div_rem_answer(memory, query@[0], r@),
            query_id != U256_DIV_REM_ADVICE_QUERY_ID ==> ({
                let p = params_at(memory, query@[0] as nat);
                r@ == modexp_answer(
                    canonical_limbs(modexp_number(memory, p) / modexp_modulus(memory, p)),
                    canonical_limbs(modexp_number(memory, p) % modexp_modulus(memory, p)),
                )
            }),
    {
        if query_id == U256_DIV_REM_ADVICE_QUERY_ID {
            return self.process_u256_div_rem_query(query, memory);
        }
        let arg_ptr = query[0] as u32;
        let params = read_modexp_params(memory, arg_ptr);
        self.process_modexp_advice_query(params, memory)
    }
}

} // verus!
