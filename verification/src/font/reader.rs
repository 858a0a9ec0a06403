//! Big-endian reads from a font file held in memory.
//!
//! Every read names the position it starts at; it fails when the bytes it
//! needs run past the end of the data.
use vstd::prelude::*;

verus! {

/// Whether `n` bytes starting at `p` lie inside `s`.
pub open spec fn fits(s: Seq<u8>, p: int, n: int) -> bool {
    0 <= p && 0 <= n && p + n <= s.len()
}

/// The big-endian `u16` at `p`.
pub open spec fn be_u16(s: Seq<u8>, p: int) -> u16 {
    (s[p] as int * 256 + s[p + 1] as int) as u16
}

/// The big-endian two's-complement `i16` at `p`.
pub open spec fn be_i16(s: Seq<u8>, p: int) -> i16 {
    let u = be_u16(s, p) as int;
    if u < 0x8000 {
        u as i16
    } else {
        (u - 0x10000) as i16
    }
}

/// The big-endian `u32` at `p`.
pub open spec fn be_u32(s: Seq<u8>, p: int) -> u32 {
    (be_u16(s, p) as int * 0x10000 + be_u16(s, p + 2) as int) as u32
}

/// The big-endian two's-complement `i32` at `p`.
pub open spec fn be_i32(s: Seq<u8>, p: int) -> i32 {
    let u = be_u32(s, p) as int;
    if u < 0x8000_0000 {
        u as i32
    } else {
        (u - 0x1_0000_0000) as i32
    }
}

/// The big-endian `u64` at `p`.
pub open spec fn be_u64(s: Seq<u8>, p: int) -> u64 {
    (be_u32(s, p) as int * 0x1_0000_0000 + be_u32(s, p + 4) as int) as u64
}

/// The big-endian `u16` at `p` is the first byte times 256 plus the second.
pub proof fn lemma_be_u16_bytes(s: Seq<u8>, p: int)
    ensures
        be_u16(s, p) == s[p] * 256 + s[p + 1],
{
}

/// The big-endian `u32` at `p` in terms of its four bytes.
pub proof fn lemma_be_u32_bytes(s: Seq<u8>, p: int)
    ensures
        be_u32(s, p) == s[p] * 16777216 + s[p + 1] * 65536 + s[p + 2] * 256 + s[p + 3],
{
    lemma_be_u16_bytes(s, p);
    lemma_be_u16_bytes(s, p + 2);
}

/// The big-endian `i16` at `p`: the `u16` of its two bytes, less 65536 when
/// its top bit is set.
pub proof fn lemma_be_i16_bytes(s: Seq<u8>, p: int)
    ensures
        be_i16(s, p) == (if s[p] * 256 + s[p + 1] < 32768 {
            s[p] * 256 + s[p + 1]
        } else {
            s[p] * 256 + s[p + 1] - 65536
        }),
{
    lemma_be_u16_bytes(s, p);
}

/// Whether `n` bytes from `pos` can be read; computed without overflow.
pub fn has_bytes(data: &[u8], pos: usize, n: usize) -> (res: bool)
    ensures
        res == fits(data@, pos as int, n as int),
        data@.len() <= usize::MAX,
{
    pos <= data.len() && n <= data.len() - pos
}

/// The byte at `pos`, if there is one.
pub fn read_u8(data: &[u8], pos: usize) -> (res: Option<u8>)
    ensures
        data@.len() <= usize::MAX,
        res is Some <==> fits(data@, pos as int, 1),
        res matches Some(v) ==> v == data@[pos as int],
{
    if pos < data.len() {
        Some(data[pos])
    } else {
        None
    }
}

/// The big-endian `u16` at `pos`, if the data holds it.
pub fn read_u16(data: &[u8], pos: usize) -> (res: Option<u16>)
    ensures
        data@.len() <= usize::MAX,
        res is Some <==> fits(data@, pos as int, 2),
        res matches Some(v) ==> v == be_u16(data@, pos as int),
{
    if has_bytes(data, pos, 2) {
        let hi = data[pos] as u16;
        let lo = data[pos + 1] as u16;
        Some(hi * 256 + lo)
    } else {
        None
    }
}

/// The big-endian `i16` at `pos`, if the data holds it.
pub fn read_i16(data: &[u8], pos: usize) -> (res: Option<i16>)
    ensures
        data@.len() <= usize::MAX,
        res is Some <==> fits(data@, pos as int, 2),
        res matches Some(v) ==> v == be_i16(data@, pos as int),
{
    match read_u16(data, pos) {
        Some(u) => {
            if u < 0x8000 {
                Some(u as i16)
            } else {
                let wide: i32 = u as i32 - 0x10000;
                Some(wide as i16)
            }
        },
        None => None,
    }
}

/// The big-endian `u32` at `pos`, if the data holds it.
pub fn read_u32(data: &[u8], pos: usize) -> (res: Option<u32>)
    ensures
        res is Some <==> fits(data@, pos as int, 4),
        res matches Some(v) ==> v == be_u32(data@, pos as int),
{
    let len = data.len();
    if pos <= len && 4 <= len - pos {
        let hi = read_u16(data, pos).unwrap() as u32;
        let lo = read_u16(data, pos + 2).unwrap() as u32;
        Some(hi * 0x10000 + lo)
    } else {
        None
    }
}

/// The big-endian `i32` at `pos`, if the data holds it.
pub fn read_i32(data: &[u8], pos: usize) -> (res: Option<i32>)
    ensures
        res is Some <==> fits(data@, pos as int, 4),
        res matches Some(v) ==> v == be_i32(data@, pos as int),
{
    match read_u32(data, pos) {
        Some(u) => {
            if u < 0x8000_0000 {
                Some(u as i32)
            } else {
                let wide: i64 = u as i64 - 0x1_0000_0000;
                Some(wide as i32)
            }
        },
        None => None,
    }
}

/// The big-endian `u64` at `pos`, if the data holds it.
pub fn read_u64(data: &[u8], pos: usize) -> (res: Option<u64>)
    ensures
        res is Some <==> fits(data@, pos as int, 8),
        res matches Some(v) ==> v == be_u64(data@, pos as int),
{
    let len = data.len();
    if pos <= len && 8 <= len - pos {
        let hi = read_u32(data, pos).unwrap() as u64;
        let lo = read_u32(data, pos + 4).unwrap() as u64;
        Some(hi * 0x1_0000_0000 + lo)
    } else {
        None
    }
}

/// The four bytes at `pos`, such as a table tag, if the data holds them.
pub fn read_tag(data: &[u8], pos: usize) -> (res: Option<[u8; 4]>)
    ensures
        res is Some <==> fits(data@, pos as int, 4),
        res matches Some(t) ==> t@ == data@.subrange(pos as int, pos + 4),
{
    if has_bytes(data, pos, 4) {
        let t = [data[pos], data[pos + 1], data[pos + 2], data[pos + 3]];
        assert(t@ =~= data@.subrange(pos as int, pos + 4));
        Some(t)
    } else {
        None
    }
}

} // verus!
