use zksync_os::arithmetic::{ArithmeticQuery, ModExpAdviceParams, U256_DIV_REM_ADVICE_QUERY_ID};
use zksync_os::memory::WordMemory;

fn words_of(limbs: [u64; 4]) -> Vec<u32> {
    let mut out = Vec::new();
    for l in limbs {
        out.push(l as u32);
        out.push((l >> 32) as u32);
    }
    out
}

#[test]
fn u256_div_rem_advice() {
    // 2^192 * 5 + 7 divided by 2^64 * 3.
    let dividend = [7u64, 0, 0, 5];
    let divisor = [0u64, 3, 0, 0];
    let mut words = words_of(dividend);
    words.extend(words_of(divisor));
    let memory = WordMemory { words };
    let query = ArithmeticQuery::<WordMemory>::new();
    let packed = (32usize << 32) | 0;
    let out = query.process_u256_div_rem_query(vec![packed], &memory);
    // The quotient is 0x1_aaaa_aaaa_aaaa_aaaa_aaaa_aaaa_aaaa_aaaa.
    assert_eq!(out.len(), 8);
    assert_eq!(out[0], 0xaaaa_aaaa_aaaa_aaaa);
    assert_eq!(out[1], 0xaaaa_aaaa_aaaa_aaaa);
    assert_eq!(out[2], 1);
    assert_eq!(out[3], 0);
    // The remainder is 2 * 2^64 + 7.
    assert_eq!(out[4], 7);
    assert_eq!(out[5], 2);
    assert_eq!(out[6], 0);
    assert_eq!(out[7], 0);
}

#[test]
fn u256_div_rem_advice_small_numbers() {
    let mut words = words_of([100, 0, 0, 0]);
    words.extend(words_of([7, 0, 0, 0]));
    let memory = WordMemory { words };
    let out = ArithmeticQuery::<WordMemory>::new().process_u256_div_rem_query(vec![32usize << 32], &memory);
    assert_eq!(out, vec![14, 0, 0, 0, 2, 0, 0, 0]);
}

/// Memory with the parameters block at address 4, the number at 64 and the modulus at 128.
fn modexp_memory(number: [u64; 4], modulus: [u64; 4]) -> WordMemory {
    let mut words = vec![0u32; 48];
    let params = [64u32, 1, 0, 0, 128, 1];
    for (k, p) in params.iter().enumerate() {
        words[1 + k] = *p;
    }
    for (k, w) in words_of(number).into_iter().enumerate() {
        words[16 + k] = w;
    }
    for (k, w) in words_of(modulus).into_iter().enumerate() {
        words[32 + k] = w;
    }
    WordMemory { words }
}

#[test]
fn modexp_advice_strips_zero_limbs() {
    let memory = modexp_memory([100, 0, 0, 0], [7, 0, 0, 0]);
    let params = ModExpAdviceParams { a_ptr: 64, a_len: 1, b_ptr: 0, b_len: 0, modulus_ptr: 128, modulus_len: 1 };
    let out = ArithmeticQuery::<WordMemory>::new().process_modexp_advice_query(params, &memory);
    // One limb of quotient (14) and one of remainder (2): two 32-bit words each.
    assert_eq!(out, vec![2 | (2usize << 32), 14, 2]);
}

#[test]
fn modexp_advice_zero_quotient() {
    let memory = modexp_memory([5, 0, 0, 0], [7, 0, 0, 0]);
    let mut query = ArithmeticQuery::<WordMemory>::new();
    let out = query.process_buffered_query(0x4005_0010, vec![4], &memory);
    assert_eq!(out, vec![2usize << 32, 5]);
}

#[test]
fn modexp_advice_wide_numbers() {
    // (2^192 * 5 + 7) mod (2^64 * 3): quotient of three limbs, remainder of two.
    let memory = modexp_memory([7, 0, 0, 5], [0, 3, 0, 0]);
    let mut query = ArithmeticQuery::<WordMemory>::new();
    let out = query.process_buffered_query(1, vec![4], &memory);
    assert_eq!(out, vec![6 | (4usize << 32), 0xaaaa_aaaa_aaaa_aaaa, 0xaaaa_aaaa_aaaa_aaaa, 1, 7, 2]);
}

#[test]
fn buffered_query_dispatches_division() {
    let mut words = words_of([100, 0, 0, 0]);
    words.extend(words_of([7, 0, 0, 0]));
    let memory = WordMemory { words };
    let mut query = ArithmeticQuery::<WordMemory>::new();
    let out = query.process_buffered_query(U256_DIV_REM_ADVICE_QUERY_ID, vec![32usize << 32], &memory);
    assert_eq!(out, vec![14, 0, 0, 0, 2, 0, 0, 0]);
}
