//! Fixed-width integer readers over byte buffers, with a chosen byte order.
use vstd::prelude::*;

verus! {

/// Byte order of the multi-byte integers in a file.
#[derive(Clone, Copy, Debug, PartialEq, Eq, Structural)]
pub enum Endianness {
    Little,
    Big,
}

/// The unsigned value of the four bytes `b[p..p + 4]`.
pub open spec fn u32_at(b: Seq<u8>, p: int, e: Endianness) -> u32 {
    match e {
        Endianness::Little => (b[p] as int + b[p + 1] as int * 0x100 + b[p + 2] as int * 0x10000
            + b[p + 3] as int * 0x1000000) as u32,
        Endianness::Big => (b[p + 3] as int + b[p + 2] as int * 0x100 + b[p + 1] as int * 0x10000
            + b[p] as int * 0x1000000) as u32,
    }
}

/// The signed value of the four bytes `b[p..p + 4]` (two's complement).
pub open spec fn i32_at(b: Seq<u8>, p: int, e: Endianness) -> i32 {
    u32_at(b, p, e) as i32
}

/// The unsigned value of the eight bytes `b[p..p + 8]`.
pub open spec fn u64_at(b: Seq<u8>, p: int, e: Endianness) -> u64 {
    match e {
        Endianness::Little => (u32_at(b, p, e) as int + u32_at(b, p + 4, e) as int * 0x1_0000_0000) as u64,
        Endianness::Big => (u32_at(b, p + 4, e) as int + u32_at(b, p, e) as int * 0x1_0000_0000) as u64,
    }
}

/// Width in bytes of a pointer slot.
pub open spec fn ptr_width(wide: bool) -> int {
    if wide { 8 } else { 4 }
}

/// The value of a pointer slot at `p`, widened to 64 bits.
pub open spec fn ptr_at(b: Seq<u8>, p: int, wide: bool, e: Endianness) -> u64 {
    if wide { u64_at(b, p, e) } else { u32_at(b, p, e) as u64 }
}

proof fn lemma_four_bytes_fit(a: u8, b: u8, c: u8, d: u8)
    ensures
        0 <= a as int + b as int * 0x100 + c as int * 0x10000 + d as int * 0x1000000 <= u32::MAX,
{
    assert(0 <= a as int + b as int * 0x100 + c as int * 0x10000 + d as int * 0x1000000 <= u32::MAX)
        by (nonlinear_arith)
        requires a <= 255, b <= 255, c <= 255, d <= 255;
}

/// Reads the `u32` at `p`; `None` when the buffer ends first.
pub fn read_u32(b: &[u8], p: usize, e: Endianness) -> (r: Option<u32>)
    ensures
        r is Some <==> p + 4 <= b@.len(),
        r matches Some(v) ==> v == u32_at(b@, p as int, e),
{
    if b.len() < 4 || p > b.len() - 4 {
        return None;
    }
    let (b0, b1, b2, b3) = match e {
        Endianness::Little => (b[p], b[p + 1], b[p + 2], b[p + 3]),
        Endianness::Big => (b[p + 3], b[p + 2], b[p + 1], b[p]),
    };
    proof {
        lemma_four_bytes_fit(b0, b1, b2, b3);
    }
    Some(b0 as u32 + b1 as u32 * 0x100 + b2 as u32 * 0x10000 + b3 as u32 * 0x1000000)
}

/// Reads the `i32` at `p`; `None` when the buffer ends first.
pub fn read_i32(b: &[u8], p: usize, e: Endianness) -> (r: Option<i32>)
    ensures
        r is Some <==> p + 4 <= b@.len(),
        r matches Some(v) ==> v == i32_at(b@, p as int, e),
{
    match read_u32(b, p, e) {
        Some(v) => Some(v as i32),
        None => None,
    }
}

/// Reads the `u64` at `p`; `None` when the buffer ends first.
pub fn read_u64(b: &[u8], p: usize, e: Endianness) -> (r: Option<u64>)
    ensures
        r is Some <==> p + 8 <= b@.len(),
        r matches Some(v) ==> v == u64_at(b@, p as int, e),
{
    if b.len() < 8 || p > b.len() - 8 {
        return None;
    }
    let first = read_u32(b, p, e).unwrap();
    let second = read_u32(b, p + 4, e).unwrap();
    let (lo, hi) = match e {
        Endianness::Little => (first, second),
        Endianness::Big => (second, first),
    };
    assert(lo as int + hi as int * 0x1_0000_0000 <= u64::MAX) by (nonlinear_arith)
        requires lo <= u32::MAX, hi <= u32::MAX;
    Some(lo as u64 + hi as u64 * 0x1_0000_0000)
}

/// Reads a pointer slot of the file's width at `p`, widened to 64 bits.
pub fn read_ptr_sized(b: &[u8], p: usize, wide: bool, e: Endianness) -> (r: Option<u64>)
    ensures
        r is Some <==> p + ptr_width(wide) <= b@.len(),
        r matches Some(v) ==> v == ptr_at(b@, p as int, wide, e),
{
    if wide {
        read_u64(b, p, e)
    } else {
        match read_u32(b, p, e) {
            Some(v) => Some(v as u64),
            None => None,
        }
    }
}

} // verus!
