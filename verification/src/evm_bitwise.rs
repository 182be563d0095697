//! EVM comparison, bitwise and shift instructions over the interpreter stack.
//!
//! Every instruction first charges `VERYLOW` gas and its native cost, then pops its
//! operands from the top of the stack and pushes its result. Words are 256-bit
//! unsigned integers; the signed instructions read them in two's complement.
use vstd::arithmetic::power2::{lemma_pow2_pos, pow2};
use vstd::prelude::*;

use crate::primitives::pow256;
use crate::u256::{bit, byte, modulus256, shl, shr, two64, U256};

verus! {

/// Gas of the cheapest class of EVM instructions.
pub const VERYLOW: u64 = 3;

/// Why an instruction stopped the frame.
#[derive(Clone, Copy, Debug, PartialEq, Eq, Structural)]
pub enum ExitCode {
    StackUnderflow,
    OutOfGas,
    OutOfNativeResources,
}

/// Native (prover) cost of each instruction of this module.
#[derive(Clone, Copy, Debug, PartialEq, Eq, Structural)]
pub struct NativeCostTable {
    pub lt: u64,
    pub gt: u64,
    pub slt: u64,
    pub sgt: u64,
    pub eq: u64,
    pub iszero: u64,
    pub and: u64,
    pub or: u64,
    pub xor: u64,
    pub not: u64,
    pub byte: u64,
    pub shl: u64,
    pub shr: u64,
    pub sar: u64,
}

/// Gas and native resources left to the frame.
#[derive(Clone, Copy, Debug, PartialEq, Eq, Structural)]
pub struct EvmGas {
    pub gas_left: u64,
    pub native_left: u64,
}

/// The part of an EVM frame that these instructions read and change.
pub struct Interpreter {
    /// The operand stack; its top is the last element.
    pub stack: Vec<U256>,
    pub gas: EvmGas,
    pub native_costs: NativeCostTable,
}

/// The outcome of charging `VERYLOW` gas and `native_cost` native resources.
pub open spec fn charge_outcome(g: EvmGas, native_cost: u64) -> Result<EvmGas, ExitCode> {
    if g.gas_left < VERYLOW {
        Err(ExitCode::OutOfGas)
    } else if g.native_left < native_cost {
        Err(ExitCode::OutOfNativeResources)
    } else {
        Ok(
            EvmGas {
                gas_left: (g.gas_left - VERYLOW) as u64,
                native_left: (g.native_left - native_cost) as u64,
            },
        )
    }
}

/// `x` read as a two's complement signed 256-bit number.
pub open spec fn signed(x: nat) -> int {
    if x < modulus256() / 2 {
        x as int
    } else {
        x - modulus256()
    }
}

/// `1` if `b`, else `0`.
pub open spec fn flag(b: bool) -> nat {
    if b {
        1
    } else {
        0
    }
}

/// Effect of an instruction that replaces the two top words `a` (top) and `b` by
/// `result(a, b)` where `rel(a, b, result)`.
pub open spec fn binary_step(
    old: &Interpreter,
    new: &Interpreter,
    r: Result<(), ExitCode>,
    native_cost: u64,
    rel: spec_fn(U256, U256, U256) -> bool,
) -> bool {
    let s = old.stack@;
    let n = s.len();
    &&& new.native_costs == old.native_costs
    &&& match charge_outcome(old.gas, native_cost) {
        Err(e) => r == Err::<(), ExitCode>(e) && new.gas == old.gas && new.stack@ == s,
        Ok(g) => new.gas == g && if n < 2 {
            r == Err::<(), ExitCode>(ExitCode::StackUnderflow) && new.stack@ == s
        } else {
            &&& r is Ok
            &&& new.stack@.len() == n - 1
            &&& new.stack@.subrange(0, n - 2) == s.subrange(0, n - 2)
            &&& rel(s[n - 1], s[n - 2], new.stack@[n - 2])
        },
    }
}

/// Effect of an instruction that replaces the top word `a` by `result` where
/// `rel(a, result)`.
pub open spec fn unary_step(
    old: &Interpreter,
    new: &Interpreter,
    r: Result<(), ExitCode>,
    native_cost: u64,
    rel: spec_fn(U256, U256) -> bool,
) -> bool {
    let s = old.stack@;
    let n = s.len();
    &&& new.native_costs == old.native_costs
    &&& match charge_outcome(old.gas, native_cost) {
        Err(e) => r == Err::<(), ExitCode>(e) && new.gas == old.gas && new.stack@ == s,
        Ok(g) => new.gas == g && if n < 1 {
            r == Err::<(), ExitCode>(ExitCode::StackUnderflow) && new.stack@ == s
        } else {
            &&& r is Ok
            &&& new.stack@.len() == n
            &&& new.stack@.subrange(0, n - 1) == s.subrange(0, n - 1)
            &&& rel(s[n - 1], new.stack@[n - 1])
        },
    }
}

/// The result of `SHL`: `b` shifted left by `a` bits, truncated to 256 bits.
pub open spec fn shl_value(a: nat, b: nat) -> nat {
    if a >= 256 {
        0
    } else {
        (b * pow2(a)) % modulus256()
    }
}

/// The result of `SHR`: `b` shifted right by `a` bits.
pub open spec fn shr_value(a: nat, b: nat) -> nat {
    if a >= 256 {
        0
    } else {
        b / pow2(a)
    }
}

/// The result of `SAR`: `b` read as signed, divided by `2^a` and rounded towards
/// negative infinity.
pub open spec fn sar_signed_value(a: nat, b: nat) -> int {
    if a >= 256 {
        if signed(b) < 0 {
            -1
        } else {
            0
        }
    } else {
        signed(b) / (pow2(a) as int)
    }
}

/// The result of `BYTE`: byte number `a` of `b`, counted from the most significant.
pub open spec fn byte_value(a: nat, b: nat) -> nat {
    if a >= 32 {
        0
    } else {
        (b / pow256((31 - a) as nat)) % 256
    }
}

/// Signed comparison of two words.
fn i256_lt(a: &U256, b: &U256) -> (r: bool)
    ensures
        r == (signed(a.value()) < signed(b.value())),
{
    let half = U256::from_limbs([0, 0, 0, 0x8000_0000_0000_0000]);
    proof {
        crate::u256::lemma_limbs_value_bound(a.limbs);
        crate::u256::lemma_limbs_value_bound(b.limbs);
        let t = two64();
        assert(half.value() == 0x8000_0000_0000_0000 * t * t * t) by (nonlinear_arith)
            requires
                half.value() == 0 + t * (0 + t * (0 + t * 0x8000_0000_0000_0000)),
        ;
        assert(modulus256() == 2 * (0x8000_0000_0000_0000 * t * t * t)) by (nonlinear_arith)
            requires
                modulus256() == t * t * t * t,
                t == 0x1_0000_0000_0000_0000nat,
        ;
    }
    let a_neg = !a.lt(&half);
    let b_neg = !b.lt(&half);
    if a_neg != b_neg {
        a_neg
    } else {
        a.lt(b)
    }
}

/// The shift amount a word stands for, if it is below 256.
fn small_shift(a: &U256) -> (r: Option<usize>)
    ensures
        a.value() < 256 <==> r is Some,
        r matches Some(s) ==> s == a.value(),
{
    proof {
        crate::u256::lemma_limbs_value_bound(a.limbs);
        let t = two64();
        let l = a.limbs;
        assert(limbs_value_ge(l, t)) by (nonlinear_arith)
            requires
                t == two64(),
        ;
    }
    if a.limbs[1] == 0 && a.limbs[2] == 0 && a.limbs[3] == 0 && a.limbs[0] < 256 {
        Some(a.limbs[0] as usize)
    } else {
        None
    }
}

/// A word is at least its lowest limb, and at least `2^64` once a higher limb is set.
spec fn limbs_value_ge(l: [u64; 4], t: nat) -> bool {
    &&& crate::u256::limbs_value(l) >= l[0]
    &&& (l[1] != 0 || l[2] != 0 || l[3] != 0) ==> crate::u256::limbs_value(l) >= t
    &&& (l[1] == 0 && l[2] == 0 && l[3] == 0) ==> crate::u256::limbs_value(l) == l[0]
}

impl Interpreter {
    /// Charges `VERYLOW` gas and `native_cost`.
    fn charge(&mut self, native_cost: u64) -> (r: Result<(), ExitCode>)
        ensures
            final(self).stack@ == old(self).stack@,
            final(self).native_costs == old(self).native_costs,
            match charge_outcome(old(self).gas, native_cost) {
                Err(e) => r == Err::<(), ExitCode>(e) && final(self).gas == old(self).gas,
                Ok(g) => r is Ok && final(self).gas == g,
            },
    {
        if self.gas.gas_left < VERYLOW {
            return Err(ExitCode::OutOfGas);
        }
        if self.gas.native_left < native_cost {
            return Err(ExitCode::OutOfNativeResources);
        }
        self.gas.gas_left = self.gas.gas_left - VERYLOW;
        self.gas.native_left = self.gas.native_left - native_cost;
        Ok(())
    }

    /// Pops the top word and replaces the new top by `f(popped, new_top)`, where
    /// the caller has already computed the result.
    fn replace_two(&mut self, result: U256)
        requires
            old(self).stack@.len() >= 2,
        ensures
            final(self).gas == old(self).gas,
            final(self).native_costs == old(self).native_costs,
            final(self).stack@.len() == old(self).stack@.len() - 1,
            final(self).stack@.subrange(0, old(self).stack@.len() - 2) == old(self).stack@.subrange(
                0,
                old(self).stack@.len() - 2,
            ),
            final(self).stack@[old(self).stack@.len() - 2] == result,
    {
        let n = self.stack.len();
        self.stack.pop();
        self.stack.set(n - 2, result);
        assert(self.stack@.subrange(0, n - 2) =~= old(self).stack@.subrange(0, n - 2));
    }

    fn replace_one(&mut self, result: U256)
        requires
            old(self).stack@.len() >= 1,
        ensures
            final(self).gas == old(self).gas,
            final(self).native_costs == old(self).native_costs,
            final(self).stack@.len() == old(self).stack@.len(),
            final(self).stack@.subrange(0, old(self).stack@.len() - 1) == old(self).stack@.subrange(
                0,
                old(self).stack@.len() - 1,
            ),
            final(self).stack@[old(self).stack@.len() - 1] == result,
    {
        let n = self.stack.len();
        self.stack.set(n - 1, result);
        assert(self.stack@.subrange(0, n - 1) =~= old(self).stack@.subrange(0, n - 1));
    }

    /// `LT`: `1` if the top word is below the second, else `0`.
    pub fn lt(&mut self) -> (r: Result<(), ExitCode>)
        ensures
            binary_step(
                &*old(self),
                &*final(self),
                r,
                old(self).native_costs.lt,
                |a: U256, b: U256, res: U256| res.value() == flag(a.value() < b.value()),
            ),
    {
        let cost = self.native_costs.lt;
        if let Err(e) = self.charge(cost) {
            return Err(e);
        }
        let n = self.stack.len();
        if n < 2 {
            return Err(ExitCode::StackUnderflow);
        }
        let res = if self.stack[n - 1].lt(&self.stack[n - 2]) {
            U256::from_u64(1)
        } else {
            U256::zero()
        };
        self.replace_two(res);
        Ok(())
    }

    /// `GT`: `1` if the top word is above the second, else `0`.
    pub fn gt(&mut self) -> (r: Result<(), ExitCode>)
        ensures
            binary_step(
                &*old(self),
                &*final(self),
                r,
                old(self).native_costs.gt,
                |a: U256, b: U256, res: U256| res.value() == flag(a.value() > b.value()),
            ),
    {
        let cost = self.native_costs.gt;
        if let Err(e) = self.charge(cost) {
            return Err(e);
        }
        let n = self.stack.len();
        if n < 2 {
            return Err(ExitCode::StackUnderflow);
        }
        let res = if self.stack[n - 1].gt(&self.stack[n - 2]) {
            U256::from_u64(1)
        } else {
            U256::zero()
        };
        self.replace_two(res);
        Ok(())
    }

    /// `SLT`: signed `LT`.
    pub fn slt(&mut self) -> (r: Result<(), ExitCode>)
        ensures
            binary_step(
                &*old(self),
                &*final(self),
                r,
                old(self).native_costs.slt,
                |a: U256, b: U256, res: U256|
                    res.value() == flag(signed(a.value()) < signed(b.value())),
            ),
    {
        let cost = self.native_costs.slt;
        if let Err(e) = self.charge(cost) {
            return Err(e);
        }
        let n = self.stack.len();
        if n < 2 {
            return Err(ExitCode::StackUnderflow);
        }
        let res = if i256_lt(&self.stack[n - 1], &self.stack[n - 2]) {
            U256::from_u64(1)
        } else {
            U256::zero()
        };
        self.replace_two(res);
        Ok(())
    }

    /// `SGT`: signed `GT`.
    pub fn sgt(&mut self) -> (r: Result<(), ExitCode>)
        ensures
            binary_step(
                &*old(self),
                &*final(self),
                r,
                old(self).native_costs.sgt,
                |a: U256, b: U256, res: U256|
                    res.value() == flag(signed(a.value()) > signed(b.value())),
            ),
    {
        let cost = self.native_costs.sgt;
        if let Err(e) = self.charge(cost) {
            return Err(e);
        }
        let n = self.stack.len();
        if n < 2 {
            return Err(ExitCode::StackUnderflow);
        }
        let res = if i256_lt(&self.stack[n - 2], &self.stack[n - 1]) {
            U256::from_u64(1)
        } else {
            U256::zero()
        };
        self.replace_two(res);
        Ok(())
    }

    /// `EQ`: `1` if the two top words are equal, else `0`.
    pub fn eq(&mut self) -> (r: Result<(), ExitCode>)
        ensures
            binary_step(
                &*old(self),
                &*final(self),
                r,
                old(self).native_costs.eq,
                |a: U256, b: U256, res: U256| res.value() == flag(a.value() == b.value()),
            ),
    {
        let cost = self.native_costs.eq;
        if let Err(e) = self.charge(cost) {
            return Err(e);
        }
        let n = self.stack.len();
        if n < 2 {
            return Err(ExitCode::StackUnderflow);
        }
        let res = if self.stack[n - 1].equals(&self.stack[n - 2]) {
            U256::from_u64(1)
        } else {
            U256::zero()
        };
        self.replace_two(res);
        Ok(())
    }

    /// `ISZERO`: `1` if the top word is zero, else `0`.
    pub fn iszero(&mut self) -> (r: Result<(), ExitCode>)
        ensures
            unary_step(
                &*old(self),
                &*final(self),
                r,
                old(self).native_costs.iszero,
                |a: U256, res: U256| res.value() == flag(a.value() == 0),
            ),
    {
        let cost = self.native_costs.iszero;
        if let Err(e) = self.charge(cost) {
            return Err(e);
        }
        let n = self.stack.len();
        if n < 1 {
            return Err(ExitCode::StackUnderflow);
        }
        let res = if self.stack[n - 1].is_zero() {
            U256::from_u64(1)
        } else {
            U256::zero()
        };
        self.replace_one(res);
        Ok(())
    }

    /// `AND` of the two top words.
    pub fn bitand(&mut self) -> (r: Result<(), ExitCode>)
        ensures
            binary_step(
                &*old(self),
                &*final(self),
                r,
                old(self).native_costs.and,
                |a: U256, b: U256, res: U256|
                    forall|i: int| 0 <= i < 4 ==> res.limbs[i] == a.limbs[i] & b.limbs[i],
            ),
    {
        let cost = self.native_costs.and;
        if let Err(e) = self.charge(cost) {
            return Err(e);
        }
        let n = self.stack.len();
        if n < 2 {
            return Err(ExitCode::StackUnderflow);
        }
        let res = self.stack[n - 1].bitand(&self.stack[n - 2]);
        self.replace_two(res);
        Ok(())
    }

    /// `OR` of the two top words.
    pub fn bitor(&mut self) -> (r: Result<(), ExitCode>)
        ensures
            binary_step(
                &*old(self),
                &*final(self),
                r,
                old(self).native_costs.or,
                |a: U256, b: U256, res: U256|
                    forall|i: int| 0 <= i < 4 ==> res.limbs[i] == a.limbs[i] | b.limbs[i],
            ),
    {
        let cost = self.native_costs.or;
        if let Err(e) = self.charge(cost) {
            return Err(e);
        }
        let n = self.stack.len();
        if n < 2 {
            return Err(ExitCode::StackUnderflow);
        }
        let res = self.stack[n - 1].bitor(&self.stack[n - 2]);
        self.replace_two(res);
        Ok(())
    }

    /// `XOR` of the two top words.
    pub fn bitxor(&mut self) -> (r: Result<(), ExitCode>)
        ensures
            binary_step(
                &*old(self),
                &*final(self),
                r,
                old(self).native_costs.xor,
                |a: U256, b: U256, res: U256|
                    forall|i: int| 0 <= i < 4 ==> res.limbs[i] == a.limbs[i] ^ b.limbs[i],
            ),
    {
        let cost = self.native_costs.xor;
        if let Err(e) = self.charge(cost) {
            return Err(e);
        }
        let n = self.stack.len();
        if n < 2 {
            return Err(ExitCode::StackUnderflow);
        }
        let res = self.stack[n - 1].bitxor(&self.stack[n - 2]);
        self.replace_two(res);
        Ok(())
    }

    /// `NOT` of the top word.
    pub fn not(&mut self) -> (r: Result<(), ExitCode>)
        ensures
            unary_step(
                &*old(self),
                &*final(self),
                r,
                old(self).native_costs.not,
                |a: U256, res: U256|
                    forall|i: int| 0 <= i < 4 ==> res.limbs[i] == !a.limbs[i],
            ),
    {
        let cost = self.native_costs.not;
        if let Err(e) = self.charge(cost) {
            return Err(e);
        }
        let n = self.stack.len();
        if n < 1 {
            return Err(ExitCode::StackUnderflow);
        }
        let res = self.stack[n - 1].not();
        self.replace_one(res);
        Ok(())
    }

    /// `BYTE`: byte number `top` of the second word, counted from the most significant;
    /// zero past the 32nd.
    pub fn byte(&mut self) -> (r: Result<(), ExitCode>)
        ensures
            binary_step(
                &*old(self),
                &*final(self),
                r,
                old(self).native_costs.byte,
                |a: U256, b: U256, res: U256| res.value() == byte_value(a.value(), b.value()),
            ),
    {
        let cost = self.native_costs.byte;
        if let Err(e) = self.charge(cost) {
            return Err(e);
        }
        let n = self.stack.len();
        if n < 2 {
            return Err(ExitCode::StackUnderflow);
        }
        let res = match small_shift(&self.stack[n - 1]) {
            Some(offset) if offset < 32 => {
                let b = byte(&self.stack[n - 2], 31 - offset);
                U256::from_u64(b as u64)
            },
            _ => U256::zero(),
        };
        self.replace_two(res);
        Ok(())
    }

    /// `SHL`: the second word shifted left by `top` bits.
    pub fn shl(&mut self) -> (r: Result<(), ExitCode>)
        ensures
            binary_step(
                &*old(self),
                &*final(self),
                r,
                old(self).native_costs.shl,
                |a: U256, b: U256, res: U256| res.value() == shl_value(a.value(), b.value()),
            ),
    {
        let cost = self.native_costs.shl;
        if let Err(e) = self.charge(cost) {
            return Err(e);
        }
        let n = self.stack.len();
        if n < 2 {
            return Err(ExitCode::StackUnderflow);
        }
        let res = match small_shift(&self.stack[n - 1]) {
            Some(s) => shl(&self.stack[n - 2], s),
            None => U256::zero(),
        };
        self.replace_two(res);
        Ok(())
    }

    /// `SHR`: the second word shifted right by `top` bits.
    pub fn shr(&mut self) -> (r: Result<(), ExitCode>)
        ensures
            binary_step(
                &*old(self),
                &*final(self),
                r,
                old(self).native_costs.shr,
                |a: U256, b: U256, res: U256| res.value() == shr_value(a.value(), b.value()),
            ),
    {
        let cost = self.native_costs.shr;
        if let Err(e) = self.charge(cost) {
            return Err(e);
        }
        let n = self.stack.len();
        if n < 2 {
            return Err(ExitCode::StackUnderflow);
        }
        let res = match small_shift(&self.stack[n - 1]) {
            Some(s) => shr(&self.stack[n - 2], s),
            None => U256::zero(),
        };
        self.replace_two(res);
        Ok(())
    }

    /// `SAR`: the second word, read as signed, shifted right by `top` bits with the
    /// sign copied into the vacated bits.
    pub fn sar(&mut self) -> (r: Result<(), ExitCode>)
        ensures
            binary_step(
                &*old(self),
                &*final(self),
                r,
                old(self).native_costs.sar,
                |a: U256, b: U256, res: U256|
                    signed(res.value()) == sar_signed_value(a.value(), b.value()),
            ),
    {
        let cost = self.native_costs.sar;
        if let Err(e) = self.charge(cost) {
            return Err(e);
        }
        let n = self.stack.len();
        if n < 2 {
            return Err(ExitCode::StackUnderflow);
        }
        let v = self.stack[n - 2];
        let is_negative = bit(&v, 255);
        proof {
            lemma_sign_bit(v.value());
        }
        let res = match small_shift(&self.stack[n - 1]) {
            Some(s) => {
                if is_negative {
                    let shifted = shr(&v.not(), s);
                    proof {
                        lemma_sar_negative(v.value(), s as nat);
                    }
                    shifted.not()
                } else {
                    proof {
                        lemma_sar_nonnegative(v.value(), s as nat);
                    }
                    shr(&v, s)
                }
            },
            None => {
                if is_negative {
                    proof {
                        lemma_all_ones_signed();
                    }
                    U256::max()
                } else {
                    U256::zero()
                }
            },
        };
        self.replace_two(res);
        Ok(())
    }
}

/// `SHR` is a logical shift on every word, whatever its top bit: shifted by less than
/// 256 bits its result is the largest number whose product with `2^shift` does not
/// exceed the word (the vacated high bits are zero), and it is zero for larger shifts.
pub proof fn lemma_shr_is_logical(shift: nat, v: nat)
    requires
        v < modulus256(),
    ensures
        shift < 256 ==> shr_value(shift, v) * pow2(shift) <= v && v < (shr_value(shift, v) + 1)
            * pow2(shift),
        shift >= 256 ==> shr_value(shift, v) == 0,
{
    if shift < 256 {
        lemma_pow2_pos(shift);
        let p = pow2(shift) as int;
        let q = v as int / p;
        assert(q * p <= v && v < (q + 1) * p) by (nonlinear_arith)
            requires
                p > 0,
                v >= 0,
                q == v as int / p,
        ;
    }
}

/// `SAR` and `SHR` agree on words whose sign bit is clear, for every shift amount.
pub proof fn lemma_sar_agrees_with_shr_on_nonnegative(shift: nat, v: nat)
    requires
        v < modulus256(),
        signed(v) >= 0,
    ensures
        sar_signed_value(shift, v) == shr_value(shift, v),
{
    if shift < 256 {
        lemma_pow2_pos(shift);
    }
}

/// `SAR` by `s` of a word agrees with its arithmetic reading: its signed result lies
/// between the signed word divided by `2^s` and that plus one, exclusive (rounding
/// towards negative infinity).
pub proof fn lemma_sar_rounds_down(shift: nat, v: nat)
    requires
        shift < 256,
        v < modulus256(),
    ensures
        sar_signed_value(shift, v) * pow2(shift) <= signed(v),
        signed(v) < (sar_signed_value(shift, v) + 1) * pow2(shift),
{
    lemma_pow2_pos(shift);
    let p = pow2(shift) as int;
    let q = signed(v) / p;
    assert(q * p <= signed(v) < (q + 1) * p) by (nonlinear_arith)
        requires
            p > 0,
            q == signed(v) / p,
    ;
}

/// `2^256 == 2 * 2^255`, and the values of the three limb-free powers used here.
proof fn lemma_modulus_pow2()
    ensures
        modulus256() == pow2(256),
        modulus256() / 2 == pow2(255),
{
    vstd::arithmetic::power2::lemma2_to64();
    vstd::arithmetic::power2::lemma_pow2_adds(64, 64);
    vstd::arithmetic::power2::lemma_pow2_adds(128, 64);
    vstd::arithmetic::power2::lemma_pow2_adds(192, 64);
    vstd::arithmetic::power2::lemma_pow2_adds(255, 1);
    vstd::arithmetic::power2::lemma2_to64();
    assert(pow2(1) == 2) by {
        vstd::arithmetic::power2::lemma2_to64();
    }
    assert(modulus256() == pow2(64) * pow2(64) * pow2(64) * pow2(64));
}

/// Bit 255 of a word is set exactly when the word is negative.
proof fn lemma_sign_bit(v: nat)
    requires
        v < modulus256(),
    ensures
        ((v / pow2(255)) % 2 == 1) == (signed(v) < 0),
{
    lemma_modulus_pow2();
    let p = pow2(255);
    lemma_pow2_pos(255);
    assert(v / p < 2) by (nonlinear_arith)
        requires
            v < 2 * p,
            p > 0,
    ;
    assert((v / p == 1) == (v >= p)) by (nonlinear_arith)
        requires
            v < 2 * p,
            p > 0,
    ;
}

/// For a non-negative word, the unsigned shift is the signed one.
proof fn lemma_sar_nonnegative(v: nat, s: nat)
    requires
        v < modulus256(),
        signed(v) >= 0,
        s < 256,
    ensures
        signed(v / pow2(s)) == sar_signed_value(s, v),
{
    lemma_modulus_pow2();
    lemma_pow2_pos(s);
    assert(v / pow2(s) <= v) by (nonlinear_arith)
        requires
            pow2(s) > 0,
    ;
}

/// For a negative word `v`, `!((!v) >> s)` read as signed is `signed(v) / 2^s`
/// rounded down.
proof fn lemma_sar_negative(v: nat, s: nat)
    requires
        v < modulus256(),
        signed(v) < 0,
        s < 256,
    ensures
        signed((modulus256() - 1 - (modulus256() - 1 - v) / (pow2(s) as int)) as nat) == sar_signed_value(
            s,
            v,
        ),
{
    lemma_modulus_pow2();
    let m = modulus256() as int;
    let p = pow2(s) as int;
    lemma_pow2_pos(s);
    let u = m - 1 - v;
    assert(0 <= u < m / 2);
    let q = u / p;
    assert(0 <= q <= u) by (nonlinear_arith)
        requires
            p > 0,
            u >= 0,
            q == u / p,
    ;
    // -(u + 1) / p == -(q + 1) with floor division
    assert((-(u + 1)) / p == -(q + 1)) by (nonlinear_arith)
        requires
            p > 0,
            u >= 0,
            q == u / p,
    ;
    assert(signed(v) == -(u + 1));
}

/// The all-ones word is `-1`.
proof fn lemma_all_ones_signed()
    ensures
        signed((modulus256() - 1) as nat) == -1,
{
    lemma_modulus_pow2();
    lemma_pow2_pos(255);
}

} // verus!
