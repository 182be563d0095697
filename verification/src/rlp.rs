//! Canonical RLP decoding: item headers, the items of a list, and the scalar and
//! fixed-size string fields that block headers are made of.
use vstd::prelude::*;

use crate::primitives::{be_nat, lemma_be_nat_len_bound, lemma_pow256_succ, pow256};

verus! {

/// The header of a long-form item at `pos` whose length takes `ll` bytes: the length
/// must have no leading zero byte, must exceed 55, and the payload must fit in `s`.
pub open spec fn long_item_header(s: Seq<u8>, pos: int, ll: int, list: bool) -> Option<(bool, int, int)> {
    let start = pos + 1 + ll;
    if start > s.len() {
        None
    } else {
        let len_bytes = s.subrange(pos + 1, start);
        let len = be_nat(len_bytes);
        if len_bytes[0] == 0 || len < 56 || start + len > s.len() {
            None
        } else {
            Some((list, start, start + len))
        }
    }
}

/// The header of the item that starts at `pos`: whether it is a list, and the bounds
/// of its payload (which ends where the item ends). A byte below `0x80` is its own
/// payload; a one-byte string below `0x80` written with a length prefix is refused.
pub open spec fn item_header(s: Seq<u8>, pos: int) -> Option<(bool, int, int)> {
    if pos < 0 || pos >= s.len() {
        None
    } else {
        let b = s[pos];
        if b < 0x80 {
            Some((false, pos, pos + 1))
        } else if b <= 0xb7 {
            let len = b - 0x80;
            let start = pos + 1;
            if start + len > s.len() {
                None
            } else if len == 1 && s[start] < 0x80 {
                None
            } else {
                Some((false, start, start + len))
            }
        } else if b <= 0xbf {
            long_item_header(s, pos, b - 0xb7, false)
        } else if b <= 0xf7 {
            let len = b - 0xc0;
            let start = pos + 1;
            if start + len > s.len() {
                None
            } else {
                Some((true, start, start + len))
            }
        } else {
            long_item_header(s, pos, b - 0xf7, true)
        }
    }
}

/// The headers of the items that fill `s[pos..end]` exactly, in order.
pub open spec fn list_items(s: Seq<u8>, pos: int, end: int) -> Option<Seq<(bool, int, int)>>
    decreases end - pos,
{
    if pos >= end {
        if pos == end {
            Some(Seq::empty())
        } else {
            None
        }
    } else {
        match item_header(s, pos) {
            Some(h) => if pos < h.2 <= end {
                match list_items(s, h.2, end) {
                    Some(rest) => Some(seq![h] + rest),
                    None => None,
                }
            } else {
                None
            },
            None => None,
        }
    }
}

/// A canonical RLP scalar that fits in 64 bits: at most eight bytes, no leading zero.
pub open spec fn u64_field_ok(f: Seq<u8>) -> bool {
    f.len() <= 8 && (f.len() == 0 || f[0] != 0)
}

/// Reads the length of a long-form item: `ll` big-endian bytes at `from`.
fn read_length(s: &[u8], from: usize, ll: usize) -> (r: u64)
    requires
        1 <= ll <= 8,
        from + ll <= s@.len(),
    ensures
        r == be_nat(s@.subrange(from as int, from + ll)),
{
    let n = s.len();
    let mut acc: u64 = 0;
    let mut i: usize = 0;
    while i < ll
        invariant
            i <= ll <= 8,
            n == s@.len(),
            from + ll <= n,
            acc == be_nat(s@.subrange(from as int, from + i)),
        decreases ll - i,
    {
        let ghost prefix = s@.subrange(from as int, from + i);
        let ghost next = s@.subrange(from as int, from + i + 1);
        proof {
            lemma_be_nat_len_bound(prefix);
            crate::crypto::lemma_pow256_mono(i as nat, 7);
            assert(pow256(7) == 0x100_0000_0000_0000) by {
                reveal_with_fuel(pow256, 8);
            }
            assert(next.drop_last() =~= prefix);
            assert(next.last() == s@[from + i]);
        }
        acc = acc * 256 + s[from + i] as u64;
        i = i + 1;
    }
    acc
}

/// Reads the header of the item at `pos`.
pub fn read_item_header(s: &[u8], pos: usize) -> (r: Option<(bool, usize, usize)>)
    ensures
        match r {
            Some((list, a, b)) => item_header(s@, pos as int) == Some((list, a as int, b as int)),
            None => item_header(s@, pos as int) is None,
        },
{
    if pos >= s.len() {
        return None;
    }
    let b = s[pos];
    let n = s.len();
    if b < 0x80 {
        Some((false, pos, pos + 1))
    } else if b <= 0xb7 {
        let len = (b - 0x80) as usize;
        let start = pos + 1;
        if len > n - start {
            None
        } else if len == 1 && s[start] < 0x80 {
            None
        } else {
            Some((false, start, start + len))
        }
    } else if b <= 0xbf {
        read_long_item_header(s, pos, (b - 0xb7) as usize, false)
    } else if b <= 0xf7 {
        let len = (b - 0xc0) as usize;
        let start = pos + 1;
        if len > n - start {
            None
        } else {
            Some((true, start, start + len))
        }
    } else {
        read_long_item_header(s, pos, (b - 0xf7) as usize, true)
    }
}

fn read_long_item_header(s: &[u8], pos: usize, ll: usize, list: bool) -> (r: Option<(bool, usize, usize)>)
    requires
        pos < s@.len(),
        1 <= ll <= 8,
    ensures
        match r {
            Some((l, a, b)) => long_item_header(s@, pos as int, ll as int, list) == Some(
                (l, a as int, b as int),
            ),
            None => long_item_header(s@, pos as int, ll as int, list) is None,
        },
{
    let n = s.len();
    if ll > n - pos - 1 {
        return None;
    }
    let start = pos + 1 + ll;
    if s[pos + 1] == 0 {
        assert(s@.subrange(pos + 1, start as int)[0] == s@[pos + 1]);
        return None;
    }
    assert(s@.subrange(pos + 1, start as int)[0] == s@[pos + 1]);
    let len = read_length(s, pos + 1, ll);
    if len < 56 || len > (n - start) as u64 {
        return None;
    }
    let len = len as usize;
    Some((list, start, start + len))
}

/// Item headers with machine-word bounds, seen as integers.
pub open spec fn headers_view(v: Seq<(bool, usize, usize)>) -> Seq<(bool, int, int)> {
    v.map_values(|h: (bool, usize, usize)| (h.0, h.1 as int, h.2 as int))
}

/// `known` followed by the items of `rest`, if `rest` parses.
pub open spec fn followed_by(
    known: Seq<(bool, int, int)>,
    rest: Option<Seq<(bool, int, int)>>,
) -> Option<Seq<(bool, int, int)>> {
    match rest {
        Some(r) => Some(known + r),
        None => None,
    }
}

/// Reads the headers of the items that fill `s[start..end]`.
pub fn read_list_items(s: &[u8], start: usize, end: usize) -> (r: Option<Vec<(bool, usize, usize)>>)
    requires
        start <= end <= s@.len(),
    ensures
        match r {
            Some(v) => list_items(s@, start as int, end as int) == Some(headers_view(v@)),
            None => list_items(s@, start as int, end as int) is None,
        },
{
    let mut out: Vec<(bool, usize, usize)> = Vec::new();
    let mut pos = start;
    assert(headers_view(out@) =~= Seq::<(bool, int, int)>::empty());
    assert(followed_by(Seq::empty(), list_items(s@, pos as int, end as int)) =~= list_items(
        s@,
        start as int,
        end as int,
    ));
    while pos < end
        invariant
            start <= pos <= end <= s@.len(),
            list_items(s@, start as int, end as int) == followed_by(
                headers_view(out@),
                list_items(s@, pos as int, end as int),
            ),
        decreases end - pos,
    {
        match read_item_header(s, pos) {
            Some(h) => {
                if pos < h.2 && h.2 <= end {
                    let ghost before = out@;
                    let ghost hv = (h.0, h.1 as int, h.2 as int);
                    out.push(h);
                    proof {
                        assert(headers_view(out@) =~= headers_view(before).push(hv));
                        match list_items(s@, h.2 as int, end as int) {
                            Some(rest) => {
                                assert(headers_view(before) + (seq![hv] + rest) =~= headers_view(
                                    out@,
                                ) + rest);
                            },
                            None => {},
                        }
                    }
                    pos = h.2;
                } else {
                    return None;
                }
            },
            None => {
                return None;
            },
        }
    }
    proof {
        assert(headers_view(out@) + Seq::<(bool, int, int)>::empty() =~= headers_view(out@));
    }
    Some(out)
}

/// A payload read by `item_header` lies after its position and within `s`.
pub proof fn lemma_item_header_bounds(s: Seq<u8>, pos: int)
    ensures
        item_header(s, pos) matches Some(h) ==> pos <= h.1 <= h.2 <= s.len() && pos < h.2,
{
}

/// The payloads of the items of a list lie within the list, in order.
pub proof fn lemma_list_items_bounds(s: Seq<u8>, pos: int, end: int)
    requires
        end <= s.len(),
    ensures
        list_items(s, pos, end) matches Some(items) ==> forall|i: int|
            0 <= i < items.len() ==> pos <= #[trigger] items[i].1 <= items[i].2 <= end,
    decreases end - pos,
{
    if pos < end {
        lemma_item_header_bounds(s, pos);
        match item_header(s, pos) {
            Some(h) => {
                if pos < h.2 <= end {
                    lemma_list_items_bounds(s, h.2, end);
                    match list_items(s, h.2, end) {
                        Some(rest) => {
                            let items = seq![h] + rest;
                            assert forall|i: int| 0 <= i < items.len() implies pos <= #[trigger] items[i].1
                                <= items[i].2 <= end by {
                                if i > 0 {
                                    assert(items[i] == rest[i - 1]);
                                }
                            }
                        },
                        None => {},
                    }
                }
            },
            None => {},
        }
    }
}

/// Copies `s[a..b]`.
pub fn take_bytes(s: &[u8], a: usize, b: usize) -> (r: Vec<u8>)
    requires
        a <= b <= s@.len(),
    ensures
        r@ == s@.subrange(a as int, b as int),
{
    let mut out: Vec<u8> = Vec::new();
    let mut i = a;
    while i < b
        invariant
            a <= i <= b <= s@.len(),
            out@ == s@.subrange(a as int, i as int),
        decreases b - i,
    {
        out.push(s[i]);
        i = i + 1;
        assert(out@ =~= s@.subrange(a as int, i as int));
    }
    out
}

/// `s[a..b]` as an array of 32 bytes, if it has that length.
pub fn take32(s: &[u8], a: usize, b: usize) -> (r: Option<[u8; 32]>)
    requires
        a <= b <= s@.len(),
    ensures
        r is Some <==> b - a == 32,
        r matches Some(x) ==> x@ == s@.subrange(a as int, b as int),
{
    if b - a != 32 {
        return None;
    }
    let mut out = [0u8; 32];
    let mut i: usize = 0;
    while i < 32
        invariant
            i <= 32,
            b - a == 32,
            b <= s@.len(),
            out@.len() == 32,
            forall|j: int| 0 <= j < i ==> out@[j] == s@[a + j],
        decreases 32 - i,
    {
        out[i] = s[a + i];
        i = i + 1;
    }
    assert(out@ =~= s@.subrange(a as int, b as int));
    Some(out)
}

/// `s[a..b]` as an array of 20 bytes, if it has that length.
pub fn take20(s: &[u8], a: usize, b: usize) -> (r: Option<[u8; 20]>)
    requires
        a <= b <= s@.len(),
    ensures
        r is Some <==> b - a == 20,
        r matches Some(x) ==> x@ == s@.subrange(a as int, b as int),
{
    if b - a != 20 {
        return None;
    }
    let mut out = [0u8; 20];
    let mut i: usize = 0;
    while i < 20
        invariant
            i <= 20,
            b - a == 20,
            b <= s@.len(),
            out@.len() == 20,
            forall|j: int| 0 <= j < i ==> out@[j] == s@[a + j],
        decreases 20 - i,
    {
        out[i] = s[a + i];
        i = i + 1;
    }
    assert(out@ =~= s@.subrange(a as int, b as int));
    Some(out)
}

/// `s[a..b]` as an array of 8 bytes, if it has that length.
pub fn take8(s: &[u8], a: usize, b: usize) -> (r: Option<[u8; 8]>)
    requires
        a <= b <= s@.len(),
    ensures
        r is Some <==> b - a == 8,
        r matches Some(x) ==> x@ == s@.subrange(a as int, b as int),
{
    if b - a != 8 {
        return None;
    }
    let mut out = [0u8; 8];
    let mut i: usize = 0;
    while i < 8
        invariant
            i <= 8,
            b - a == 8,
            b <= s@.len(),
            out@.len() == 8,
            forall|j: int| 0 <= j < i ==> out@[j] == s@[a + j],
        decreases 8 - i,
    {
        out[i] = s[a + i];
        i = i + 1;
    }
    assert(out@ =~= s@.subrange(a as int, b as int));
    Some(out)
}

/// `s[a..b]` as an array of 256 bytes, if it has that length.
pub fn take256(s: &[u8], a: usize, b: usize) -> (r: Option<[u8; 256]>)
    requires
        a <= b <= s@.len(),
    ensures
        r is Some <==> b - a == 256,
        r matches Some(x) ==> x@ == s@.subrange(a as int, b as int),
{
    if b - a != 256 {
        return None;
    }
    let mut out = [0u8; 256];
    let mut i: usize = 0;
    while i < 256
        invariant
            i <= 256,
            b - a == 256,
            b <= s@.len(),
            out@.len() == 256,
            forall|j: int| 0 <= j < i ==> out@[j] == s@[a + j],
        decreases 256 - i,
    {
        out[i] = s[a + i];
        i = i + 1;
    }
    assert(out@ =~= s@.subrange(a as int, b as int));
    Some(out)
}

/// `s[a..b]` as a canonical 64-bit scalar, if it is one.
pub fn take_u64(s: &[u8], a: usize, b: usize) -> (r: Option<u64>)
    requires
        a <= b <= s@.len(),
    ensures
        r is Some <==> u64_field_ok(s@.subrange(a as int, b as int)),
        r matches Some(x) ==> x == be_nat(s@.subrange(a as int, b as int)),
{
    let len = b - a;
    if len > 8 {
        return None;
    }
    if len == 0 {
        assert(s@.subrange(a as int, b as int).len() == 0);
        return Some(0);
    }
    if s[a] == 0 {
        assert(s@.subrange(a as int, b as int)[0] == s@[a as int]);
        return None;
    }
    assert(s@.subrange(a as int, b as int)[0] == s@[a as int]);
    Some(read_length(s, a, len))
}

} // verus!
