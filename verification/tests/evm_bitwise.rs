use zksync_os::evm_bitwise::{EvmGas, ExitCode, Interpreter, NativeCostTable, VERYLOW};
use zksync_os::u256::U256;

fn costs() -> NativeCostTable {
    NativeCostTable {
        lt: 1, gt: 2, slt: 3, sgt: 4, eq: 5, iszero: 6, and: 7, or: 8, xor: 9, not: 10,
        byte: 11, shl: 12, shr: 13, sar: 14,
    }
}

fn interp(stack: Vec<U256>) -> Interpreter {
    Interpreter { stack, gas: EvmGas { gas_left: 100, native_left: 100 }, native_costs: costs() }
}

fn w(v: u64) -> U256 {
    U256::from_u64(v)
}

fn neg(v: u64) -> U256 {
    // two's complement of v
    let n = U256::from_u64(v - 1).not();
    n
}

#[test]
fn comparisons_push_flags() {
    // stack top is the last element: a = top, b = second
    let mut i = interp(vec![w(5), w(3)]);
    i.lt().unwrap();
    assert_eq!(i.stack, vec![w(1)]);
    assert_eq!(i.gas, EvmGas { gas_left: 100 - VERYLOW, native_left: 99 });

    let mut i = interp(vec![w(5), w(3)]);
    i.gt().unwrap();
    assert_eq!(i.stack, vec![w(0)]);

    let mut i = interp(vec![w(7), w(7)]);
    i.eq().unwrap();
    assert_eq!(i.stack, vec![w(1)]);

    let mut i = interp(vec![w(0)]);
    i.iszero().unwrap();
    assert_eq!(i.stack, vec![w(1)]);
}

#[test]
fn signed_comparisons_read_twos_complement() {
    // -1 < 1
    let mut i = interp(vec![w(1), neg(1)]);
    i.slt().unwrap();
    assert_eq!(i.stack, vec![w(1)]);
    let mut i = interp(vec![w(1), neg(1)]);
    i.sgt().unwrap();
    assert_eq!(i.stack, vec![w(0)]);
    // unsigned, -1 is the largest
    let mut i = interp(vec![w(1), neg(1)]);
    i.lt().unwrap();
    assert_eq!(i.stack, vec![w(0)]);
}

#[test]
fn bitwise_ops_work_limbwise() {
    let mut i = interp(vec![w(0b1100), w(0b1010)]);
    i.bitand().unwrap();
    assert_eq!(i.stack, vec![w(0b1000)]);
    let mut i = interp(vec![w(0b1100), w(0b1010)]);
    i.bitor().unwrap();
    assert_eq!(i.stack, vec![w(0b1110)]);
    let mut i = interp(vec![w(0b1100), w(0b1010)]);
    i.bitxor().unwrap();
    assert_eq!(i.stack, vec![w(0b0110)]);
    let mut i = interp(vec![w(0)]);
    i.not().unwrap();
    assert_eq!(i.stack, vec![U256::max()]);
}

#[test]
fn byte_counts_from_the_most_significant() {
    let mut i = interp(vec![w(0x1234), w(31)]);
    i.byte().unwrap();
    assert_eq!(i.stack, vec![w(0x34)]);
    let mut i = interp(vec![w(0x1234), w(30)]);
    i.byte().unwrap();
    assert_eq!(i.stack, vec![w(0x12)]);
    let mut i = interp(vec![w(0x1234), w(32)]);
    i.byte().unwrap();
    assert_eq!(i.stack, vec![w(0)]);
}

#[test]
fn shifts_truncate_and_saturate() {
    let mut i = interp(vec![w(1), w(4)]);
    i.shl().unwrap();
    assert_eq!(i.stack, vec![w(16)]);
    let mut i = interp(vec![w(1), w(256)]);
    i.shl().unwrap();
    assert_eq!(i.stack, vec![w(0)]);
    let mut i = interp(vec![U256::max(), w(255)]);
    i.shl().unwrap();
    assert_eq!(i.stack, vec![U256::from_limbs([0, 0, 0, 0x8000_0000_0000_0000])]);
    let mut i = interp(vec![w(16), w(4)]);
    i.shr().unwrap();
    assert_eq!(i.stack, vec![w(1)]);
    let mut i = interp(vec![w(16), w(300)]);
    i.shr().unwrap();
    assert_eq!(i.stack, vec![w(0)]);
}

#[test]
fn sar_rounds_towards_negative_infinity() {
    // -7 >> 1 == -4
    let mut i = interp(vec![neg(7), w(1)]);
    i.sar().unwrap();
    assert_eq!(i.stack, vec![neg(4)]);
    // 7 >> 1 == 3
    let mut i = interp(vec![w(7), w(1)]);
    i.sar().unwrap();
    assert_eq!(i.stack, vec![w(3)]);
    // negative shifted all the way gives -1, positive gives 0
    let mut i = interp(vec![neg(7), w(1000)]);
    i.sar().unwrap();
    assert_eq!(i.stack, vec![U256::max()]);
    let mut i = interp(vec![w(7), w(256)]);
    i.sar().unwrap();
    assert_eq!(i.stack, vec![w(0)]);
    // shift by zero is a no-op
    let mut i = interp(vec![neg(7), w(0)]);
    i.sar().unwrap();
    assert_eq!(i.stack, vec![neg(7)]);
}

#[test]
fn errors_for_gas_native_and_stack() {
    let mut i = interp(vec![w(1), w(2)]);
    i.gas.gas_left = 2;
    assert_eq!(i.lt(), Err(ExitCode::OutOfGas));
    assert_eq!(i.stack.len(), 2);

    let mut i = interp(vec![w(1), w(2)]);
    i.gas.native_left = 0;
    assert_eq!(i.lt(), Err(ExitCode::OutOfNativeResources));

    let mut i = interp(vec![w(1)]);
    assert_eq!(i.lt(), Err(ExitCode::StackUnderflow));
    assert_eq!(i.gas.gas_left, 100 - VERYLOW);

    let mut i = interp(vec![]);
    assert_eq!(i.iszero(), Err(ExitCode::StackUnderflow));
}
