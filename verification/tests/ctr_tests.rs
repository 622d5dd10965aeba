use aes::cipher::generic_array::GenericArray;
use aes::{Aes128, BlockEncrypt, NewBlockCipher};
use nca_fs::crypto::nintendo_tweak;
use nca_fs::region::{CtrReader, Region};

/// The keystream byte for absolute offset `a`: byte `a % 16` of the
/// encrypted counter block for 16-byte-block index `a / 16`.
fn keystream_byte(key: &[u8; 16], nonce: u64, a: u64) -> u8 {
    let mut block = [0u8; 16];
    block[..8].copy_from_slice(&nonce.to_be_bytes());
    block[8..].copy_from_slice(&(a / 16).to_be_bytes());
    let cipher = Aes128::new(GenericArray::from_slice(key));
    let mut b = GenericArray::clone_from_slice(&block);
    cipher.encrypt_block(&mut b);
    b[(a % 16) as usize]
}

fn ctr_crypt_at(key: &[u8; 16], nonce: u64, base: u64, data: &[u8]) -> Vec<u8> {
    data.iter()
        .enumerate()
        .map(|(i, b)| b ^ keystream_byte(key, nonce, base + i as u64))
        .collect()
}

#[test]
fn ctr_read_equals_keystream_slice() {
    let key = [7u8; 16];
    let nonce: u64 = 0x0102030405060708;
    let plain: Vec<u8> = (0u8..48).collect();
    let cipher = ctr_crypt_at(&key, nonce, 0, &plain);
    let region = Region::Ctr(CtrReader { src: cipher, base: 0, nonce, key });
    let got = region.read_exact_at(1, 30).unwrap();
    assert_eq!(&got[..], &plain[1..31]);
}

#[test]
fn ctr_reads_are_offset_pure() {
    let key = [0xA5u8; 16];
    let nonce: u64 = 99;
    let base: u64 = 0x40;
    let plain: Vec<u8> = (0u8..96).map(|b| b.wrapping_mul(31)).collect();
    let mut src = vec![0u8; base as usize];
    src.extend_from_slice(&ctr_crypt_at(&key, nonce, base, &plain));
    let region = Region::Ctr(CtrReader { src, base, nonce, key });
    let whole = region.read_exact_at(0, 96).unwrap();
    assert_eq!(&whole[..], &plain[..]);
    for (o, n) in [(0usize, 16usize), (3, 21), (15, 2), (17, 40), (90, 6)] {
        let part = region.read_exact_at(o as u64, n).unwrap();
        assert_eq!(&part[..], &whole[o..o + n]);
    }
}

#[test]
fn ctr_read_past_source_fails() {
    let key = [1u8; 16];
    let region = Region::Ctr(CtrReader { src: vec![0u8; 32], base: 0, nonce: 0, key });
    assert!(region.read_exact_at(20, 13).is_err());
    assert!(region.read_exact_at(0, 33).is_err());
}

#[test]
fn tweak_is_big_endian_sector_index() {
    assert_eq!(nintendo_tweak(0), [0u8; 16]);
    assert_eq!(nintendo_tweak(2), 2u128.to_be_bytes());
    assert_eq!(nintendo_tweak(0x1122334455667788), 0x1122334455667788u128.to_be_bytes());
}
