use vstd::prelude::*;

verus! {

/// The 16-bit little-endian number at `s[i..i + 2]`.
pub open spec fn le_u16(s: Seq<u8>, i: int) -> int {
    s[i] as int + 0x100 * (s[i + 1] as int)
}

/// The 32-bit little-endian number at `s[i..i + 4]`.
pub open spec fn le_u32(s: Seq<u8>, i: int) -> int {
    le_u16(s, i) + 0x1_0000 * le_u16(s, i + 2)
}

/// The 64-bit little-endian number at `s[i..i + 8]`.
pub open spec fn le_u64(s: Seq<u8>, i: int) -> int {
    le_u32(s, i) + 0x1_0000_0000 * le_u32(s, i + 4)
}

/// A 32-bit pattern read as a two's complement number.
pub open spec fn as_signed32(v: int) -> int {
    if v >= 0x8000_0000 {
        v - 0x1_0000_0000
    } else {
        v
    }
}

/// Reads the 16-bit little-endian number at `off`.
pub fn read_u16(data: &[u8], off: usize) -> (r: u16)
    requires
        off + 2 <= data.len(),
    ensures
        r as int == le_u16(data@, off as int),
{
    let b0: u16 = data[off] as u16;
    let b1: u16 = data[off + 1] as u16;
    b0 + b1 * 0x100
}

/// Reads the 32-bit little-endian number at `off`.
pub fn read_u32(data: &[u8], off: usize) -> (r: u32)
    requires
        off + 4 <= data.len(),
    ensures
        r as int == le_u32(data@, off as int),
{
    let lo: u32 = read_u16(data, off) as u32;
    let hi: u32 = read_u16(data, off + 2) as u32;
    lo + hi * 0x1_0000
}

/// Reads the 64-bit little-endian number at `off`.
pub fn read_u64(data: &[u8], off: usize) -> (r: u64)
    requires
        off + 8 <= data.len(),
    ensures
        r as int == le_u64(data@, off as int),
{
    let lo: u64 = read_u32(data, off) as u64;
    let hi: u64 = read_u32(data, off + 4) as u64;
    lo + hi * 0x1_0000_0000
}

/// Where the first NUL byte of `s[from..to]` lies, or `to` if it holds none.
pub open spec fn nul_pos(s: Seq<u8>, from: int, to: int) -> int
    decreases to - from,
{
    if from >= to {
        to
    } else if s[from] == 0 {
        from
    } else {
        nul_pos(s, from + 1, to)
    }
}

/// `nul_pos` is the first NUL in the range: nothing before it is NUL.
pub proof fn lemma_nul_pos(s: Seq<u8>, from: int, to: int)
    requires
        from <= to,
    ensures
        from <= nul_pos(s, from, to) <= to,
        forall|k: int| from <= k < nul_pos(s, from, to) ==> s[k] != 0,
        nul_pos(s, from, to) < to ==> s[nul_pos(s, from, to)] == 0,
    decreases to - from,
{
    if from < to && s[from] != 0 {
        lemma_nul_pos(s, from + 1, to);
    }
}

/// Finds the first NUL byte of `data[from..to]`; returns `to` if there is none.
pub fn find_nul(data: &[u8], from: usize, to: usize) -> (r: usize)
    requires
        from <= to <= data.len(),
    ensures
        r as int == nul_pos(data@, from as int, to as int),
        from <= r <= to,
{
    let mut i: usize = from;
    while i < to && data[i] != 0
        invariant
            from <= i <= to <= data.len(),
            nul_pos(data@, from as int, to as int) == nul_pos(data@, i as int, to as int),
        decreases to - i,
    {
        i = i + 1;
    }
    proof {
        lemma_nul_pos(data@, i as int, to as int);
    }
    i
}

} // verus!
