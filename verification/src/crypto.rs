//! The cipher primitives of the archive format.
//!
//! AES itself is done by outside crates; each call stands behind a
//! trusted wrapper whose contract names its result.  Everything layered
//! on the primitives — the Nintendo XTS tweak, the per-offset CTR
//! counter and the keystream mapping — is verified here.

use vstd::prelude::*;
use aes::Aes128;
use aes::NewBlockCipher;
use aes::BlockEncrypt;
use aes::cipher::generic_array::GenericArray;
use block_modes::BlockMode;
use block_modes::Ecb;
use block_modes::block_padding::NoPadding;
use xts_mode::Xts128;

verus! {

/// What AES-128 encryption of one 16-byte block under a 16-byte key returns.
pub uninterp spec fn aes128_block_enc(key: Seq<u8>, block: Seq<u8>) -> Seq<u8>;

/// What AES-128-ECB decryption without padding returns for a key and data.
pub uninterp spec fn aes128_ecb_dec(key: Seq<u8>, data: Seq<u8>) -> Seq<u8>;

/// What XTS-AES-128 area decryption with the big-endian sector tweak
/// returns for the two keys, the sector geometry and the data.
pub uninterp spec fn xts128_dec(
    key1: Seq<u8>,
    key2: Seq<u8>,
    sector_size: int,
    first_sector: int,
    data: Seq<u8>,
) -> Seq<u8>;

/// The big-endian bytes of a 64-bit integer, most significant first.
pub open spec fn spec_u64_be_bytes(x: u64) -> Seq<u8> {
    Seq::new(8, |i: int| ((x >> (((7 - i) * 8) as u64)) & 0xff) as u8)
}

/// The big-endian bytes of a 128-bit integer, most significant first:
/// the XTS sector tweak of the archive format.
pub open spec fn spec_nintendo_tweak(sector: u128) -> Seq<u8> {
    Seq::new(16, |i: int| ((sector >> (((15 - i) * 8) as u128)) & 0xff) as u8)
}

/// Computes the 16-byte XTS tweak for a sector index: the index as a
/// big-endian 128-bit integer.
pub fn nintendo_tweak(sector: u128) -> (r: [u8; 16])
    ensures
        r@ =~= spec_nintendo_tweak(sector),
{
    let mut r: [u8; 16] = [0u8; 16];
    let mut i: usize = 0;
    while i < 16
        invariant
            0 <= i <= 16,
            r@.len() == 16,
            forall|k: int| 0 <= k < i ==> r@[k] == spec_nintendo_tweak(sector)[k],
        decreases 16 - i,
    {
        let sh: u128 = ((15 - i) * 8) as u128;
        r[i] = ((sector >> sh) & 0xff) as u8;
        proof {
            assert((sector >> sh) & 0xff < 256) by (bit_vector);
        }
        i = i + 1;
    }
    r
}

/// The 16-byte AES-CTR counter block: the section nonce in the high
/// eight bytes, the 16-byte-block index in the low eight, both
/// big-endian.
pub open spec fn spec_ctr_block(nonce: u64, block_idx: u64) -> Seq<u8> {
    spec_u64_be_bytes(nonce) + spec_u64_be_bytes(block_idx)
}

/// Builds the counter block for a nonce and 16-byte-block index.
pub fn ctr_block(nonce: u64, block_idx: u64) -> (r: [u8; 16])
    ensures
        r@ =~= spec_ctr_block(nonce, block_idx),
{
    let mut r: [u8; 16] = [0u8; 16];
    let mut i: usize = 0;
    while i < 8
        invariant
            0 <= i <= 8,
            r@.len() == 16,
            forall|k: int| 0 <= k < i ==> r@[k] == spec_u64_be_bytes(nonce)[k],
        decreases 8 - i,
    {
        let sh: u64 = ((7 - i) * 8) as u64;
        r[i] = ((nonce >> sh) & 0xff) as u8;
        proof {
            assert((nonce >> sh) & 0xff < 256) by (bit_vector);
        }
        i = i + 1;
    }
    let mut j: usize = 0;
    while j < 8
        invariant
            0 <= j <= 8,
            r@.len() == 16,
            forall|k: int| 0 <= k < 8 ==> r@[k] == spec_u64_be_bytes(nonce)[k],
            forall|k: int| 0 <= k < j ==> r@[8 + k] == spec_u64_be_bytes(block_idx)[k],
        decreases 8 - j,
    {
        let sh: u64 = ((7 - j) * 8) as u64;
        r[8 + j] = ((block_idx >> sh) & 0xff) as u8;
        proof {
            assert((block_idx >> sh) & 0xff < 256) by (bit_vector);
        }
        j = j + 1;
    }
    proof {
        assert forall|k: int| 0 <= k < 16 implies r@[k] == spec_ctr_block(nonce, block_idx)[k] by {
            if k < 8 {
            } else {
            }
        }
    }
    r
}

/// The keystream byte that decrypts the ciphertext byte at absolute
/// archive offset `a`: byte `a % 16` of the encrypted counter block for
/// 16-byte-block index `a / 16`.
pub open spec fn spec_keystream_byte(key: Seq<u8>, nonce: u64, a: int) -> u8 {
    aes128_block_enc(key, spec_ctr_block(nonce, (a / 16) as u64))[a % 16]
}

/// The plaintext byte at absolute archive offset `a` of a CTR-encrypted
/// region over ciphertext `data`.
pub open spec fn spec_ctr_plain_byte(key: Seq<u8>, nonce: u64, data: Seq<u8>, a: int) -> u8 {
    data[a] ^ spec_keystream_byte(key, nonce, a)
}

/// Relies on `aes::Aes128` (`cipher::BlockEncrypt::encrypt_block`): the
/// encryption of one block is a function of the key and block alone.
#[verifier::external_body]
pub(crate) fn aes128_encrypt_block(key: &[u8; 16], block: &[u8; 16]) -> (r: [u8; 16])
    ensures
        r@ == aes128_block_enc(key@, block@),
{
    let cipher = Aes128::new(GenericArray::from_slice(key));
    let mut b = GenericArray::clone_from_slice(block);
    cipher.encrypt_block(&mut b);
    let mut out = [0u8; 16];
    out.copy_from_slice(&b);
    out
}

/// Relies on `block_modes::Ecb` over `aes::Aes128` with `NoPadding`
/// (`BlockMode::decrypt_vec`): decryption keeps the length and is a
/// function of the key and data alone; it succeeds whenever the data is
/// a whole number of 16-byte blocks.
#[verifier::external_body]
pub(crate) fn aes128_ecb_decrypt(key: &[u8; 16], data: &[u8]) -> (r: Vec<u8>)
    requires
        data@.len() % 16 == 0,
    ensures
        r@ == aes128_ecb_dec(key@, data@),
        r@.len() == data@.len(),
{
    let ecb = Ecb::<Aes128, NoPadding>::new_from_slices(key, &[]).unwrap();
    ecb.decrypt_vec(data).unwrap()
}

/// Relies on `xts_mode::Xts128::decrypt_area` over `aes::Aes128` with
/// the big-endian sector tweak: decryption keeps the length and is a
/// function of the keys, the sector geometry and the data alone; it
/// panics only when a sector is shorter than one cipher block, which
/// the preconditions rule out.
#[verifier::external_body]
pub(crate) fn xts128_decrypt_area(
    key1: &[u8; 16],
    key2: &[u8; 16],
    sector_size: usize,
    first_sector: u64,
    data: Vec<u8>,
) -> (r: Vec<u8>)
    requires
        16 <= sector_size,
        sector_size % 16 == 0,
        data@.len() as int % (sector_size as int) == 0,
    ensures
        r@ == xts128_dec(key1@, key2@, sector_size as int, first_sector as int, data@),
        r@.len() == data@.len(),
{
    let c1 = Aes128::new(GenericArray::from_slice(key1));
    let c2 = Aes128::new(GenericArray::from_slice(key2));
    let xts = Xts128::new(c1, c2);
    let mut buf = data;
    xts.decrypt_area(&mut buf, sector_size, first_sector as u128, nintendo_tweak);
    buf
}

} // verus!
