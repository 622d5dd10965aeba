//! Little-endian field readers over byte buffers.
//!
//! Every on-disk structure of the archive format is little-endian and
//! packed; these helpers pull fixed-width integers and fixed-size byte
//! runs out of a decrypted buffer, with the byte-level layout stated in
//! their contracts.

use vstd::prelude::*;
use vstd::bytes::{spec_u16_from_le_bytes, spec_u32_from_le_bytes, spec_u64_from_le_bytes};
use vstd::bytes::{u16_from_le_bytes, u32_from_le_bytes, u64_from_le_bytes};
use vstd::slice::slice_subrange;

verus! {

broadcast use vstd::std_specs::vec::axiom_spec_len;

/// The 16-bit little-endian integer at byte offset `off` of `s`.
pub open spec fn le16_at(s: Seq<u8>, off: int) -> u16 {
    spec_u16_from_le_bytes(s.subrange(off, off + 2))
}

/// The 32-bit little-endian integer at byte offset `off` of `s`.
pub open spec fn le32_at(s: Seq<u8>, off: int) -> u32 {
    spec_u32_from_le_bytes(s.subrange(off, off + 4))
}

/// The 64-bit little-endian integer at byte offset `off` of `s`.
pub open spec fn le64_at(s: Seq<u8>, off: int) -> u64 {
    spec_u64_from_le_bytes(s.subrange(off, off + 8))
}

/// Reads the 16-bit little-endian integer at `off`.
pub fn read_le16(v: &Vec<u8>, off: usize) -> (r: u16)
    requires
        off + 2 <= v@.len(),
    ensures
        r == le16_at(v@, off as int),
{
    proof { vstd::std_specs::vec::axiom_spec_len(v); }
    let s = slice_subrange(v.as_slice(), off, off + 2);
    u16_from_le_bytes(s)
}

/// Reads the 32-bit little-endian integer at `off`.
pub fn read_le32(v: &Vec<u8>, off: usize) -> (r: u32)
    requires
        off + 4 <= v@.len(),
    ensures
        r == le32_at(v@, off as int),
{
    proof { vstd::std_specs::vec::axiom_spec_len(v); }
    let s = slice_subrange(v.as_slice(), off, off + 4);
    u32_from_le_bytes(s)
}

/// Reads the 64-bit little-endian integer at `off`.
pub fn read_le64(v: &Vec<u8>, off: usize) -> (r: u64)
    requires
        off + 8 <= v@.len(),
    ensures
        r == le64_at(v@, off as int),
{
    proof { vstd::std_specs::vec::axiom_spec_len(v); }
    let s = slice_subrange(v.as_slice(), off, off + 8);
    u64_from_le_bytes(s)
}

/// Copies the `N` bytes of `v` starting at `off` into a fixed-size array.
pub fn bytes_to_array<const N: usize>(v: &Vec<u8>, off: usize) -> (r: [u8; N])
    requires
        off + N <= v@.len(),
    ensures
        r@ =~= v@.subrange(off as int, off + N),
{
    proof { vstd::std_specs::vec::axiom_spec_len(v); }
    let mut r: [u8; N] = [0u8; N];
    let mut i: usize = 0;
    while i < N
        invariant
            0 <= i <= N,
            off + N <= v@.len(),
            v@.len() <= usize::MAX,
            r@.len() == N,
            forall|k: int| 0 <= k < i ==> r@[k] == v@[off + k],
        decreases N - i,
    {
        r[i] = v[off + i];
        i = i + 1;
    }
    r
}

/// Copies the `len` bytes of `v` starting at `off` into a fresh vector.
pub fn bytes_to_vec(v: &Vec<u8>, off: usize, len: usize) -> (r: Vec<u8>)
    requires
        off + len <= v@.len(),
    ensures
        r@ =~= v@.subrange(off as int, off + len),
{
    proof { vstd::std_specs::vec::axiom_spec_len(v); }
    let mut r: Vec<u8> = Vec::new();
    let mut i: usize = 0;
    while i < len
        invariant
            0 <= i <= len,
            off + len <= v@.len(),
            v@.len() <= usize::MAX,
            r@.len() == i,
            forall|k: int| 0 <= k < i ==> r@[k] == v@[off + k],
        decreases len - i,
    {
        r.push(v[off + i]);
        i = i + 1;
    }
    r
}

} // verus!
