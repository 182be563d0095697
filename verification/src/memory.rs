//! Reading byte strings and 64-bit words out of a word-addressed (32-bit) memory, as
//! the oracles do with pointers handed over by the guest program.
use vstd::prelude::*;

use crate::primitives::pow256;

verus! {

/// A memory that is read in aligned 32-bit words.
pub trait U32Memory {
    /// The word stored at byte address `address` (a multiple of four).
    spec fn word_at(&self, address: u32) -> u32;

    fn read_word(&self, address: u32) -> (r: u32)
        ensures
            r == self.word_at(address),
    ;
}

/// A memory backed by a vector of words; addresses past its end read as zero.
pub struct WordMemory {
    pub words: Vec<u32>,
}

impl U32Memory for WordMemory {
    open spec fn word_at(&self, address: u32) -> u32 {
        if (address / 4) < self.words@.len() {
            self.words@[(address / 4) as int]
        } else {
            0
        }
    }

    fn read_word(&self, address: u32) -> (r: u32) {
        let i = (address / 4) as usize;
        if i < self.words.len() {
            self.words[i]
        } else {
            0
        }
    }
}

/// Byte `k` (little-endian) of a word.
pub open spec fn word_byte(w: u32, k: nat) -> u8 {
    ((w as nat / pow256(k)) % 256) as u8
}

/// The byte at address `a`: memory is little-endian within each word.
pub open spec fn memory_byte<M: U32Memory>(m: &M, a: nat) -> u8 {
    word_byte(m.word_at((a - a % 4) as u32), a % 4)
}

/// Byte `k` of `w`.
fn le_byte(w: u32, k: u32) -> (r: u8)
    requires
        k < 4,
    ensures
        r == word_byte(w, k as nat),
{
    reveal_with_fuel(pow256, 4);
    let d: u32 = if k == 0 {
        1
    } else if k == 1 {
        256
    } else if k == 2 {
        65536
    } else {
        16777216
    };
    assert(d == pow256(k as nat));
    ((w / d) % 256) as u8
}

/// Reads `len` bytes starting at byte address `offset`. Fails if the range wraps
/// around the 32-bit address space.
pub fn read_memory_as_u8<M: U32Memory>(memory: &M, offset: u32, len: u32) -> (r: Result<Vec<u8>, ()>)
    ensures
        offset + len > u32::MAX ==> r is Err,
        offset + len <= u32::MAX ==> (r matches Ok(v) && v@ == Seq::new(
            len as nat,
            |i: int| memory_byte(memory, (offset + i) as nat),
        )),
{
    if offset.checked_add(len).is_none() {
        return Err(());
    }
    let ghost start = offset as nat;
    let ghost total = len as nat;
    let mut offset = offset;
    let mut len = len;
    let mut result: Vec<u8> = Vec::new();
    if offset % 4 != 0 {
        let shift = offset % 4;
        let aligned = offset - shift;
        let max_take_bytes = 4 - shift;
        let take_bytes = if max_take_bytes <= len {
            max_take_bytes
        } else {
            len
        };
        let value = memory.read_word(aligned);
        let mut k: u32 = 0;
        while k < take_bytes
            invariant
                k <= take_bytes,
                take_bytes <= 4 - shift,
                shift == offset % 4,
                shift < 4,
                aligned == offset - shift,
                offset == start,
                value == memory.word_at(aligned),
                result@ == Seq::new(k as nat, |i: int| memory_byte(memory, (start + i) as nat)),
            decreases take_bytes - k,
        {
            let b = le_byte(value, shift + k);
            proof {
                assert((start + k) % 4 == shift + k);
                assert((start + k) - (start + k) % 4 == aligned);
            }
            result.push(b);
            k = k + 1;
            assert(result@ =~= Seq::new(k as nat, |i: int| memory_byte(memory, (start + i) as nat)));
        }
        len = len - take_bytes;
        if len > 0 {
            offset = aligned + 4;
        }
    }
    while len >= 4
        invariant
            len != 0 ==> offset % 4 == 0,
            offset + len <= u32::MAX,
            result@.len() + len == total,
            len != 0 ==> offset == start + result@.len(),
            result@ == Seq::new(result@.len(), |i: int| memory_byte(memory, (start + i) as nat)),
        decreases len,
    {
        let value = memory.read_word(offset);
        let ghost before = result@;
        let mut k: u32 = 0;
        while k < 4
            invariant
                k <= 4,
                offset % 4 == 0,
                offset + 4 <= u32::MAX,
                offset == start + before.len(),
                value == memory.word_at(offset),
                before == Seq::new(before.len(), |i: int| memory_byte(memory, (start + i) as nat)),
                result@ == before + Seq::new(k as nat, |i: int| memory_byte(memory, (offset + i) as nat)),
            decreases 4 - k,
        {
            let b = le_byte(value, k);
            proof {
                assert((offset + k) % 4 == k);
                assert((offset + k) - (offset + k) % 4 == offset);
            }
            result.push(b);
            k = k + 1;
            assert(result@ =~= before + Seq::new(k as nat, |i: int| memory_byte(memory, (offset + i) as nat)));
        }
        assert(result@ =~= Seq::new(result@.len(), |i: int| memory_byte(memory, (start + i) as nat)));
        offset = offset + 4;
        len = len - 4;
    }
    if len != 0 {
        let value = memory.read_word(offset);
        let ghost before = result@;
        let mut k: u32 = 0;
        while k < len
            invariant
                k <= len,
                len < 4,
                offset % 4 == 0,
                offset == start + before.len(),
                value == memory.word_at(offset),
                before == Seq::new(before.len(), |i: int| memory_byte(memory, (start + i) as nat)),
                result@ == before + Seq::new(k as nat, |i: int| memory_byte(memory, (offset + i) as nat)),
            decreases len - k,
        {
            let b = le_byte(value, k);
            proof {
                assert((offset + k) % 4 == k);
                assert((offset + k) - (offset + k) % 4 == offset);
            }
            result.push(b);
            k = k + 1;
            assert(result@ =~= before + Seq::new(k as nat, |i: int| memory_byte(memory, (offset + i) as nat)));
        }
        assert(result@ =~= Seq::new(result@.len(), |i: int| memory_byte(memory, (start + i) as nat)));
    }
    assert(result@ =~= Seq::new(total, |i: int| memory_byte(memory, (start + i) as nat)));
    Ok(result)
}

/// The 64-bit word made of the 32-bit words at `address` (low) and `address + 4` (high).
pub open spec fn memory_u64<M: U32Memory>(m: &M, address: nat) -> u64 {
    (m.word_at(address as u32) as nat + 0x1_0000_0000 * m.word_at((address + 4) as u32) as nat) as u64
}

/// Reads `len_u64_words` 64-bit words starting at the aligned byte address `offset`.
/// Fails if `offset` is not aligned, or if `offset` plus the number of 32-bit words
/// wraps around.
pub fn read_memory_as_u64<M: U32Memory>(memory: &M, offset: u32, len_u64_words: u32) -> (r: Result<
    Vec<u64>,
    (),
>)
    requires
        len_u64_words * 2 <= u32::MAX,
        offset % 4 == 0 && offset + len_u64_words * 2 <= u32::MAX ==> offset + len_u64_words * 8
            <= u32::MAX,
    ensures
        offset + len_u64_words * 2 > u32::MAX ==> r is Err,
        offset + len_u64_words * 2 <= u32::MAX && offset % 4 != 0 ==> r is Err,
        offset + len_u64_words * 2 <= u32::MAX && offset % 4 == 0 ==> (r matches Ok(v) && v@
            == Seq::new(len_u64_words as nat, |i: int| memory_u64(memory, (offset + 8 * i) as nat))),
{
    let mut len_u32_words = len_u64_words * 2;
    if offset.checked_add(len_u32_words).is_none() {
        return Err(());
    }
    if offset % 4 != 0 {
        return Err(());
    }
    let ghost start = offset as nat;
    let mut offset = offset;
    let mut result: Vec<u64> = Vec::new();
    while len_u32_words >= 2
        invariant
            len_u32_words % 2 == 0,
            offset == start + 8 * result@.len(),
            result@.len() * 2 + len_u32_words == len_u64_words * 2,
            start + len_u64_words * 8 <= u32::MAX,
            result@ == Seq::new(result@.len(), |i: int| memory_u64(memory, (start + 8 * i) as nat)),
        decreases len_u32_words,
    {
        let value1 = memory.read_word(offset);
        let value2 = memory.read_word(offset + 4);
        let value = (value2 as u64) << 32 | value1 as u64;
        assert(value == value1 as u64 + 0x1_0000_0000 * (value2 as u64)) by (bit_vector)
            requires
                value == (value2 as u64) << 32 | value1 as u64,
        ;
        let ghost before = result@;
        result.push(value);
        assert(result@ =~= Seq::new(result@.len(), |i: int| memory_u64(memory, (start + 8 * i) as nat)));
        offset = offset + 8;
        len_u32_words = len_u32_words - 2;
    }
    Ok(result)
}

} // verus!
