//! Little-endian numbers read out of a byte buffer at a position, the way a
//! `std::io::Cursor` hands them out: a read succeeds exactly when all of its
//! bytes lie inside the buffer.

use vstd::prelude::*;

verus! {

/// `256` raised to the power `k`.
pub open spec fn pow256(k: nat) -> nat
    decreases k,
{
    if k == 0 { 1 } else { 256 * pow256((k - 1) as nat) }
}

/// The unsigned number whose little-endian bytes are `b`.
pub open spec fn le_value(b: Seq<u8>) -> nat
    decreases b.len(),
{
    if b.len() == 0 { 0 } else { b[0] as nat + 256 * le_value(b.drop_first()) }
}

/// The `n` bytes at `pos` all lie inside `data`.
pub open spec fn available(data: Seq<u8>, pos: int, n: int) -> bool {
    0 <= pos && pos + n <= data.len()
}

/// The little-endian unsigned number of `n` bytes at `pos`, if they are there.
pub open spec fn uint_at(data: Seq<u8>, pos: int, n: int) -> Option<nat> {
    if available(data, pos, n) { Some(le_value(data.subrange(pos, pos + n))) } else { None }
}

/// Two's complement: the signed number of `n` bytes whose pattern is `v`.
pub open spec fn signed(v: nat, n: nat) -> int {
    if v >= pow256(n) / 2 { v - pow256(n) } else { v as int }
}

/// A little-endian number never reaches `256` to the power of its byte count.
pub proof fn lemma_le_value_bound(b: Seq<u8>)
    ensures
        le_value(b) < pow256(b.len()),
    decreases b.len(),
{
    if b.len() > 0 {
        lemma_le_value_bound(b.drop_first());
    }
}

proof fn lemma_pow_values()
    ensures
        pow256(1) == 0x100,
        pow256(2) == 0x1_0000,
        pow256(4) == 0x1_0000_0000,
        pow256(8) == 0x1_0000_0000_0000_0000,
{
    reveal_with_fuel(pow256, 9);
}

/// The two bytes at `pos` as a little-endian number, written out.
pub open spec fn le2(data: Seq<u8>, pos: int) -> int {
    data[pos] + 0x100 * data[pos + 1]
}

/// The four bytes at `pos` as a little-endian number, written out.
pub open spec fn le4(data: Seq<u8>, pos: int) -> int {
    data[pos] + 0x100 * data[pos + 1] + 0x1_0000 * data[pos + 2] + 0x100_0000 * data[pos + 3]
}

/// The eight bytes at `pos` as a little-endian number, written out.
pub open spec fn le8(data: Seq<u8>, pos: int) -> int {
    le4(data, pos) + 0x1_0000_0000 * data[pos + 4] + 0x100_0000_0000 * data[pos + 5]
        + 0x1_0000_0000_0000 * data[pos + 6] + 0x100_0000_0000_0000 * data[pos + 7]
}

/// The unsigned number of one, two, four or eight bytes at `pos` is those
/// bytes in little-endian order (the first byte lowest), and the signed number
/// is the same value less 2 to the power of the bit width when the last byte
/// has its top bit set.
pub proof fn lemma_numbers_are_little_endian(data: Seq<u8>, pos: int)
    ensures
        available(data, pos, 1) ==> {
            &&& uint_at(data, pos, 1) == Some(data[pos] as nat)
            &&& sint_at(data, pos, 1) == Some(data[pos] - (if data[pos] >= 128 { 0x100int } else { 0 }))
        },
        available(data, pos, 2) ==> {
            &&& uint_at(data, pos, 2) == Some(le2(data, pos) as nat)
            &&& sint_at(data, pos, 2) == Some(le2(data, pos) - (if data[pos + 1] >= 128 { 0x1_0000int } else { 0 }))
        },
        available(data, pos, 4) ==> {
            &&& uint_at(data, pos, 4) == Some(le4(data, pos) as nat)
            &&& sint_at(data, pos, 4) == Some(le4(data, pos) - (if data[pos + 3] >= 128 { 0x1_0000_0000int } else { 0 }))
        },
        available(data, pos, 8) ==> {
            &&& uint_at(data, pos, 8) == Some(le8(data, pos) as nat)
            &&& sint_at(data, pos, 8) == Some(le8(data, pos) - (if data[pos + 7] >= 128 { 0x1_0000_0000_0000_0000int } else { 0 }))
        },
{
    lemma_pow_values();
    reveal_with_fuel(le_value, 9);
    if available(data, pos, 1) {
        let b = data.subrange(pos, pos + 1);
        assert(b.drop_first() =~= Seq::<u8>::empty());
    }
    if available(data, pos, 2) {
        let b = data.subrange(pos, pos + 2);
        assert(b.drop_first() =~= data.subrange(pos + 1, pos + 2));
        assert(b.drop_first().drop_first() =~= Seq::<u8>::empty());
    }
    if available(data, pos, 4) {
        let b = data.subrange(pos, pos + 4);
        assert(b.drop_first() =~= data.subrange(pos + 1, pos + 4));
        assert(b.drop_first().drop_first() =~= data.subrange(pos + 2, pos + 4));
        assert(b.drop_first().drop_first().drop_first() =~= data.subrange(pos + 3, pos + 4));
        assert(b.drop_first().drop_first().drop_first().drop_first() =~= Seq::<u8>::empty());
    }
    if available(data, pos, 8) {
        let b = data.subrange(pos, pos + 8);
        assert(b.drop_first() =~= data.subrange(pos + 1, pos + 8));
        assert(b.drop_first().drop_first() =~= data.subrange(pos + 2, pos + 8));
        assert(b.drop_first().drop_first().drop_first() =~= data.subrange(pos + 3, pos + 8));
        assert(b.drop_first().drop_first().drop_first().drop_first() =~= data.subrange(pos + 4, pos + 8));
        assert(b.drop_first().drop_first().drop_first().drop_first().drop_first() =~= data.subrange(pos + 5, pos + 8));
        assert(b.drop_first().drop_first().drop_first().drop_first().drop_first().drop_first() =~= data.subrange(pos + 6, pos + 8));
        assert(b.drop_first().drop_first().drop_first().drop_first().drop_first().drop_first().drop_first() =~= data.subrange(pos + 7, pos + 8));
        assert(b.drop_first().drop_first().drop_first().drop_first().drop_first().drop_first().drop_first().drop_first() =~= Seq::<u8>::empty());
    }
}

/// Reads the little-endian unsigned number of `n` bytes (`1 <= n <= 8`) at `pos`.
pub fn read_uint(data: &[u8], pos: u64, n: u64) -> (r: Option<u64>)
    requires
        1 <= n <= 8,
    ensures
        match r {
            Some(v) => uint_at(data@, pos as int, n as int) == Some(v as nat),
            None => uint_at(data@, pos as int, n as int) is None,
        },
{
    let len = data.len() as u64;
    if pos > len || len - pos < n {
        return None;
    }
    let ghost bytes = data@.subrange(pos as int, pos + n);
    let mut i: u64 = n;
    let mut v: u64 = 0;
    proof {
        assert(data@.subrange(pos + n, pos + n) =~= Seq::<u8>::empty());
    }
    while i > 0
        invariant
            i <= n <= 8,
            pos + n <= data@.len(),
            data@.len() == data.len(),
            v as nat == le_value(data@.subrange(pos + i, pos + n)),
        decreases i,
    {
        let b = data[(pos + i - 1) as usize];
        proof {
            let tail = data@.subrange(pos + i, pos + n);
            let s = data@.subrange(pos + i - 1, pos + n);
            assert(s.drop_first() =~= tail);
            lemma_le_value_bound(tail);
            assert(pow256((n - i) as nat) <= pow256(7)) by {
                lemma_pow256_mono((n - i) as nat, 7);
            }
            assert(pow256(7) == 0x100_0000_0000_0000) by {
                reveal_with_fuel(pow256, 8);
            }
        }
        v = b as u64 + 256 * v;
        i = i - 1;
    }
    proof {
        assert(data@.subrange(pos as int, pos + n) =~= bytes);
    }
    Some(v)
}

proof fn lemma_pow256_mono(a: nat, b: nat)
    requires
        a <= b,
    ensures
        pow256(a) <= pow256(b),
    decreases b,
{
    if a < b {
        lemma_pow256_mono(a, (b - 1) as nat);
    }
}

/// The signed little-endian number of `n` bytes at `pos`, if they are there.
pub open spec fn sint_at(data: Seq<u8>, pos: int, n: int) -> Option<int> {
    match uint_at(data, pos, n) {
        Some(v) => Some(signed(v, n as nat)),
        None => None,
    }
}

/// Reads one byte at `pos`.
pub fn read_u8(data: &[u8], pos: u64) -> (r: Option<u8>)
    ensures
        match r {
            Some(v) => uint_at(data@, pos as int, 1) == Some(v as nat),
            None => uint_at(data@, pos as int, 1) is None,
        },
{
    match read_uint(data, pos, 1) {
        Some(v) => {
            proof {
                lemma_le_value_bound(data@.subrange(pos as int, pos + 1));
                lemma_pow_values();
            }
            Some(v as u8)
        },
        None => None,
    }
}

/// Reads a little-endian `u32` at `pos`.
pub fn read_u32(data: &[u8], pos: u64) -> (r: Option<u32>)
    ensures
        match r {
            Some(v) => uint_at(data@, pos as int, 4) == Some(v as nat),
            None => uint_at(data@, pos as int, 4) is None,
        },
{
    match read_uint(data, pos, 4) {
        Some(v) => {
            proof {
                lemma_le_value_bound(data@.subrange(pos as int, pos + 4));
                lemma_pow_values();
            }
            Some(v as u32)
        },
        None => None,
    }
}

/// Reads a little-endian `u64` at `pos`.
pub fn read_u64(data: &[u8], pos: u64) -> (r: Option<u64>)
    ensures
        match r {
            Some(v) => uint_at(data@, pos as int, 8) == Some(v as nat),
            None => uint_at(data@, pos as int, 8) is None,
        },
{
    read_uint(data, pos, 8)
}

/// Reads a signed byte at `pos`.
pub fn read_i8(data: &[u8], pos: u64) -> (r: Option<i8>)
    ensures
        match r {
            Some(v) => sint_at(data@, pos as int, 1) == Some(v as int),
            None => sint_at(data@, pos as int, 1) is None,
        },
{
    match read_uint(data, pos, 1) {
        Some(v) => {
            proof {
                lemma_le_value_bound(data@.subrange(pos as int, pos + 1));
                lemma_pow_values();
            }
            if v >= 0x80 { Some((v as i64 - 0x100) as i8) } else { Some(v as i8) }
        },
        None => None,
    }
}

/// Reads a little-endian `i16` at `pos`.
pub fn read_i16(data: &[u8], pos: u64) -> (r: Option<i16>)
    ensures
        match r {
            Some(v) => sint_at(data@, pos as int, 2) == Some(v as int),
            None => sint_at(data@, pos as int, 2) is None,
        },
{
    match read_uint(data, pos, 2) {
        Some(v) => {
            proof {
                lemma_le_value_bound(data@.subrange(pos as int, pos + 2));
                lemma_pow_values();
            }
            if v >= 0x8000 { Some((v as i64 - 0x1_0000) as i16) } else { Some(v as i16) }
        },
        None => None,
    }
}

/// Reads a little-endian `i32` at `pos`.
pub fn read_i32(data: &[u8], pos: u64) -> (r: Option<i32>)
    ensures
        match r {
            Some(v) => sint_at(data@, pos as int, 4) == Some(v as int),
            None => sint_at(data@, pos as int, 4) is None,
        },
{
    match read_uint(data, pos, 4) {
        Some(v) => {
            proof {
                lemma_le_value_bound(data@.subrange(pos as int, pos + 4));
                lemma_pow_values();
            }
            if v >= 0x8000_0000 { Some((v as i64 - 0x1_0000_0000) as i32) } else { Some(v as i32) }
        },
        None => None,
    }
}

/// Reads a little-endian `i64` at `pos`.
pub fn read_i64(data: &[u8], pos: u64) -> (r: Option<i64>)
    ensures
        match r {
            Some(v) => sint_at(data@, pos as int, 8) == Some(v as int),
            None => sint_at(data@, pos as int, 8) is None,
        },
{
    match read_uint(data, pos, 8) {
        Some(v) => {
            proof {
                lemma_pow_values();
            }
            if v >= 0x8000_0000_0000_0000 {
                Some((v as i128 - 0x1_0000_0000_0000_0000i128) as i64)
            } else {
                Some(v as i64)
            }
        },
        None => None,
    }
}

} // verus!
