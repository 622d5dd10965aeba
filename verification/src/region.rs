//! Random-access reads over a region of the archive.
//!
//! A region is a window into the shared byte source beginning at a base
//! offset.  It is either plaintext or encrypted with AES-128-CTR, in
//! which case every read is mapped to whole 16-byte cipher blocks, the
//! keystream is derived from the absolute offset alone, and the caller
//! sees plaintext.  Because the counter is a function of the offset,
//! reads are stateless: the same range always yields the same bytes.

use vstd::prelude::*;
use crate::crypto::{
    aes128_block_enc, aes128_encrypt_block, ctr_block, spec_ctr_block, spec_ctr_plain_byte,
    spec_keystream_byte,
};
use crate::err::NcaError;
use crate::lebytes::bytes_to_vec;

verus! {

broadcast use vstd::std_specs::vec::axiom_spec_len;

/// A seekable view of an AES-128-CTR encrypted byte range: the shared
/// source, the absolute offset where the region begins, the section's
/// counter nonce, and the 16-byte key.
pub struct CtrReader {
    pub src: Vec<u8>,
    pub base: u64,
    pub nonce: u64,
    pub key: [u8; 16],
}

/// A readable region of the archive: plaintext bytes of the source
/// beginning at `base`, or a CTR-encrypted window decrypted on the fly.
pub enum Region {
    Plain { src: Vec<u8>, base: u64 },
    Ctr(CtrReader),
}

impl Region {
    /// The absolute offset of the region's first byte in the source.
    pub open spec fn base_off(self) -> int {
        match self {
            Region::Plain { src, base } => base as int,
            Region::Ctr(c) => c.base as int,
        }
    }

    /// How many bytes past the region's start can be read.  A CTR
    /// region ends at the last whole cipher block of the source.
    pub open spec fn avail(self) -> int {
        match self {
            Region::Plain { src, base } => src@.len() - base,
            Region::Ctr(c) => 16 * (c.src@.len() as int / 16) - c.base,
        }
    }

    /// The plaintext byte at offset `o` of the region.
    pub open spec fn plain_at(self, o: int) -> u8 {
        match self {
            Region::Plain { src, base } => src@[base + o],
            Region::Ctr(c) => spec_ctr_plain_byte(c.key@, c.nonce, c.src@, c.base + o),
        }
    }

    /// The plaintext bytes of the region from `o` to `o + len`.
    pub open spec fn plain_range(self, o: int, len: int) -> Seq<u8> {
        Seq::new(len as nat, |i: int| self.plain_at(o + i))
    }

    /// The readable length never exceeds the machine's address range.
    pub proof fn lemma_avail_bound(&self)
        ensures
            self.avail() <= usize::MAX,
    {
        match self {
            Region::Plain { src, base } => {
                vstd::std_specs::vec::axiom_spec_len(src);
            },
            Region::Ctr(c) => {
                vstd::std_specs::vec::axiom_spec_len(&c.src);
                assert(16 * (c.src@.len() as int / 16) <= c.src@.len()) by (nonlinear_arith);
            },
        }
    }

    /// Reads are offset-pure: the bytes a read returns are exactly the
    /// corresponding slice of any enclosing read, because each
    /// plaintext byte is a function of its absolute offset alone.
    pub proof fn lemma_read_offset_pure(self, o: int, n: int, big_o: int, big_n: int)
        requires
            0 <= n,
            big_o <= o,
            o + n <= big_o + big_n,
        ensures
            self.plain_range(o, n) =~= self.plain_range(big_o, big_n).subrange(
                o - big_o,
                o - big_o + n,
            ),
    {
    }

    /// Makes an independent region over the same bytes, so that an
    /// inner filesystem keeps its own reference to the source.
    pub fn duplicate(&self) -> (r: Region)
        ensures
            r.base_off() == self.base_off(),
            r.avail() == self.avail(),
            forall|o: int| r.plain_at(o) == self.plain_at(o),
    {
        match self {
            Region::Plain { src, base } => {
                let s2 = bytes_to_vec(src, 0, src.len());
                proof {
                    assert(s2@ =~= src@);
                }
                Region::Plain { src: s2, base: *base }
            },
            Region::Ctr(c) => {
                let s2 = bytes_to_vec(&c.src, 0, c.src.len());
                proof {
                    assert(s2@ =~= c.src@);
                }
                Region::Ctr(CtrReader { src: s2, base: c.base, nonce: c.nonce, key: c.key })
            },
        }
    }

    /// Reads exactly `len` plaintext bytes at region offset `off`.
    ///
    /// A zero-length read always succeeds; any other read succeeds if
    /// and only if it lies inside the readable part of the region, and
    /// then returns exactly the plaintext bytes of that range.
    pub fn read_exact_at(&self, off: u64, len: usize) -> (r: Result<Vec<u8>, NcaError>)
        ensures
            r is Ok <==> (len == 0 || off + len <= self.avail()),
            r matches Ok(b) ==> b@ =~= self.plain_range(off as int, len as int),
            r matches Err(e) ==> e == NcaError::Io,
    {
        if len == 0 {
            let empty: Vec<u8> = Vec::new();
            return Ok(empty);
        }
        match self {
            Region::Plain { src, base } => {
                let need: u128 = (*base as u128) + (off as u128) + (len as u128);
                if need > src.len() as u128 {
                    return Err(NcaError::Io);
                }
                let start: u64 = *base + off;
                let out = bytes_to_vec(src, start as usize, len);
                proof {
                    assert forall|i: int| 0 <= i < len implies out@[i] == self.plain_at(
                        off + i,
                    ) by {
                        assert(out@[i] == src@[start + i]);
                    }
                }
                Ok(out)
            },
            Region::Ctr(c) => {
                let limit: u64 = ((c.src.len() as u64) / 16) * 16;
                let a128: u128 = (c.base as u128) + (off as u128);
                let end128: u128 = a128 + (len as u128);
                if end128 > limit as u128 {
                    return Err(NcaError::Io);
                }
                let a: u64 = a128 as u64;
                let end: u64 = a + (len as u64);
                let aligned: u64 = (a / 16) * 16;
                proof {
                    assert(aligned <= a && a % 16 == a - aligned && aligned % 16 == 0)
                        by (nonlinear_arith)
                        requires aligned == (a / 16) * 16;
                    assert(limit % 16 == 0 && limit <= c.src@.len()) by (nonlinear_arith)
                        requires limit == ((c.src@.len() as u64) / 16) * 16;
                }
                let aligned_end: u64 = ((end + 15) / 16) * 16;
                proof {
                    assert(end <= aligned_end && aligned_end % 16 == 0 && aligned_end < end + 16)
                        by (nonlinear_arith)
                        requires aligned_end == ((end + 15) / 16) * 16, end <= u64::MAX - 15;
                    assert(aligned_end <= limit) by (nonlinear_arith)
                        requires
                            aligned_end % 16 == 0,
                            limit % 16 == 0,
                            aligned_end < end + 16,
                            end <= limit;
                }
                let scr_start: usize = aligned as usize;
                let scr_len: usize = (aligned_end - aligned) as usize;
                let mut scratch = bytes_to_vec(&c.src, scr_start, scr_len);
                let nblocks: usize = scr_len / 16;
                proof {
                    assert(scr_len % 16 == 0 && nblocks * 16 == scr_len) by (nonlinear_arith)
                        requires
                            aligned % 16 == 0,
                            aligned_end % 16 == 0,
                            aligned <= aligned_end,
                            scr_len == aligned_end - aligned,
                            nblocks == scr_len / 16;
                }
                let mut j: usize = 0;
                while j < nblocks
                    invariant
                        0 <= j <= nblocks,
                        nblocks * 16 == scr_len,
                        scr_len == aligned_end - aligned,
                        aligned % 16 == 0,
                        aligned_end <= c.src@.len(),
                        scratch@.len() == scr_len,
                        forall|i: int| 16 * j <= i < scr_len
                            ==> scratch@[i] == c.src@[aligned + i],
                        forall|i: int| 0 <= i < 16 * j
                            ==> scratch@[i] == spec_ctr_plain_byte(
                                c.key@, c.nonce, c.src@, aligned + i),
                    decreases nblocks - j,
                {
                    let idx: u64 = aligned / 16 + (j as u64);
                    let cb = ctr_block(c.nonce, idx);
                    let ks = aes128_encrypt_block(&c.key, &cb);
                    let mut b: usize = 0;
                    while b < 16
                        invariant
                            0 <= b <= 16,
                            j < nblocks,
                            nblocks * 16 == scr_len,
                            scr_len == aligned_end - aligned,
                            aligned % 16 == 0,
                            aligned_end <= c.src@.len(),
                            idx == aligned / 16 + j,
                            ks@ == aes128_block_enc(c.key@, spec_ctr_block(c.nonce, idx)),
                            scratch@.len() == scr_len,
                            forall|i: int| 16 * j + b <= i < scr_len
                                ==> scratch@[i] == c.src@[aligned + i],
                            forall|i: int| 0 <= i < 16 * j + b
                                ==> scratch@[i] == spec_ctr_plain_byte(
                                    c.key@, c.nonce, c.src@, aligned + i),
                        decreases 16 - b,
                    {
                        let pos: usize = 16 * j + b;
                        proof {
                            assert(16 * j + b < nblocks * 16) by (nonlinear_arith)
                                requires j < nblocks, b < 16;
                        }
                        scratch[pos] = scratch[pos] ^ ks[b];
                        proof {
                            let g: int = aligned + pos;
                            assert(g / 16 == aligned / 16 + j && g % 16 == b) by (nonlinear_arith)
                                requires
                                    aligned % 16 == 0,
                                    g == aligned + 16 * j + b,
                                    0 <= b < 16,
                                    0 <= aligned,
                                    0 <= j;
                            assert(g / 16 <= aligned_end / 16 && aligned_end <= u64::MAX)
                                by (nonlinear_arith)
                                requires
                                    g < aligned_end,
                                    aligned_end <= u64::MAX,
                                    0 <= g;
                            assert(idx == g / 16);
                            assert(scratch@[pos as int] == c.src@[g] ^ spec_keystream_byte(
                                c.key@, c.nonce, g));
                        }
                        b = b + 1;
                    }
                    j = j + 1;
                }
                let skip: usize = (a - aligned) as usize;
                let out = bytes_to_vec(&scratch, skip, len);
                proof {
                    assert forall|i: int| 0 <= i < len implies out@[i] == self.plain_at(
                        off + i,
                    ) by {
                        assert(out@[i] == scratch@[skip + i]);
                        assert(scratch@[skip + i] == spec_ctr_plain_byte(
                            c.key@, c.nonce, c.src@, aligned + skip + i));
                        assert(aligned + skip + i == c.base + off + i);
                    }
                }
                Ok(out)
            },
        }
    }
}

} // verus!
