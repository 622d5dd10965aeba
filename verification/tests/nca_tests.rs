use aes::cipher::generic_array::GenericArray;
use aes::{Aes128, NewBlockCipher, BlockEncrypt};
use block_modes::block_padding::NoPadding;
use block_modes::{BlockMode, Ecb};
use xts_mode::Xts128;

use nca_fs::keyset::Keyset;
use nca_fs::nca::{ContentType, FileSystemType, NCA};
use nca_fs::NcaError;

fn test_keyset() -> Keyset {
    let mut header_key = [0u8; 32];
    for (i, b) in header_key.iter_mut().enumerate() {
        *b = i as u8;
    }
    Keyset {
        header_key,
        key_area_keys_application: vec![[0xA0; 16], [0xA1; 16], [0xA2; 16]],
        key_area_keys_ocean: vec![[0xB0; 16]],
        key_area_keys_system: vec![[0xC0; 16]],
        title_key_encryption_keys: vec![[0xD0; 16], [0xD1; 16], [0xD2; 16]],
    }
}

fn set_le16(v: &mut [u8], off: usize, x: u16) {
    v[off..off + 2].copy_from_slice(&x.to_le_bytes());
}

fn set_le32(v: &mut [u8], off: usize, x: u32) {
    v[off..off + 4].copy_from_slice(&x.to_le_bytes());
}

fn set_le64(v: &mut [u8], off: usize, x: u64) {
    v[off..off + 8].copy_from_slice(&x.to_le_bytes());
}

/// A plaintext archive whose header enums are all valid: magic NCA3,
/// system distribution, data content, generation zero, application
/// keys, zero rights identifier, no active sections.
fn plain_archive() -> Vec<u8> {
    let mut v = vec![0u8; 0xC00];
    v[0x200..0x204].copy_from_slice(b"NCA3");
    v[0x205] = 4; // Data
    v
}

fn ecb_encrypt(key: &[u8; 16], data: &[u8]) -> Vec<u8> {
    Ecb::<Aes128, NoPadding>::new_from_slices(key, &[]).unwrap().encrypt_vec(data)
}

fn ecb_decrypt(key: &[u8; 16], data: &[u8]) -> Vec<u8> {
    Ecb::<Aes128, NoPadding>::new_from_slices(key, &[]).unwrap().decrypt_vec(data).unwrap()
}

/// Encrypts the two header areas with AES-XTS under the keyset's
/// header key, leaving anything past 0xC00 alone.
fn encrypt_archive(keyset: &Keyset, mut plain: Vec<u8>) -> Vec<u8> {
    let c1 = Aes128::new(GenericArray::from_slice(&keyset.header_key[..16]));
    let c2 = Aes128::new(GenericArray::from_slice(&keyset.header_key[16..]));
    let xts = Xts128::new(c1, c2);
    xts.encrypt_area(&mut plain[0..0x400], 0x200, 0, |s: u128| s.to_be_bytes());
    xts.encrypt_area(&mut plain[0x400..0xC00], 0x200, 2, |s: u128| s.to_be_bytes());
    plain
}

fn keystream_byte(key: &[u8; 16], nonce: u64, a: u64) -> u8 {
    let mut block = [0u8; 16];
    block[..8].copy_from_slice(&nonce.to_be_bytes());
    block[8..].copy_from_slice(&(a / 16).to_be_bytes());
    let cipher = Aes128::new(GenericArray::from_slice(key));
    let mut b = GenericArray::clone_from_slice(&block);
    cipher.encrypt_block(&mut b);
    b[(a % 16) as usize]
}

fn ctr_crypt_at(key: &[u8; 16], nonce: u64, base: u64, data: &[u8]) -> Vec<u8> {
    data.iter()
        .enumerate()
        .map(|(i, b)| b ^ keystream_byte(key, nonce, base + i as u64))
        .collect()
}

#[test]
fn nca_wrong_magic() {
    let ks = test_keyset();
    let mut plain = plain_archive();
    set_le32(&mut plain, 0x200, 0x12345678);
    let r = NCA::new(encrypt_archive(&ks, plain), &ks, None);
    assert!(matches!(r, Err(NcaError::InvalidInput)));
}

#[test]
fn nca_truncated_archive() {
    let ks = test_keyset();
    let r = NCA::new(vec![0u8; 0x100], &ks, None);
    assert!(matches!(r, Err(NcaError::Io)));
}

#[test]
fn nca_header_fields_parsed() {
    let ks = test_keyset();
    let mut plain = plain_archive();
    set_le64(&mut plain, 0x210, 0x0100000000000809);
    let nca = NCA::new(encrypt_archive(&ks, plain), &ks, None).unwrap();
    assert_eq!(nca.header.program_id, 0x0100000000000809);
    assert_eq!(nca.header.cnt_type, ContentType::Data);
    assert_eq!(nca.get_filesystem_count(), 0);
    assert!(!nca.needs_title_key_crypto());
}

#[test]
fn nca_key_area_derivation() {
    let ks = test_keyset();
    let mut plain = plain_archive();
    plain[0x206] = 0; // old generation
    plain[0x220] = 3; // generation; effective max(0, 3) - 1 = 2
    let enc_area: Vec<u8> = (0u8..0x40).collect();
    plain[0x300..0x340].copy_from_slice(&enc_area);
    let nca = NCA::new(encrypt_archive(&ks, plain), &ks, None).unwrap();
    let expected = ecb_decrypt(&ks.key_area_keys_application[2], &enc_area)[0x20..0x30].to_vec();
    assert_eq!(nca.get_aes_ctr_decrypt_key(), expected);
}

#[test]
fn nca_key_generation_not_in_keyset() {
    let ks = test_keyset();
    let mut plain = plain_archive();
    plain[0x220] = 9; // effective 8, past the three application keys
    let r = NCA::new(encrypt_archive(&ks, plain), &ks, None);
    assert!(matches!(r, Err(NcaError::InvalidInput)));
}

#[test]
fn nca_title_key_crypto() {
    let ks = test_keyset();
    let mut plain = plain_archive();
    plain[0x230] = 1; // non-zero rights identifier
    plain[0x220] = 2; // effective generation 1
    let missing = NCA::new(encrypt_archive(&ks, plain.clone()), &ks, None);
    assert!(matches!(missing, Err(NcaError::InvalidInput)));
    let enc_title_key = [0x5Au8; 16];
    let nca = NCA::new(encrypt_archive(&ks, plain), &ks, Some(enc_title_key)).unwrap();
    assert!(nca.needs_title_key_crypto());
    let expected = ecb_decrypt(&ks.title_key_encryption_keys[1], &enc_title_key);
    assert_eq!(nca.get_aes_ctr_decrypt_key(), expected);
}

#[test]
fn nca_absent_sections_elided() {
    let ks = test_keyset();
    let mut plain = plain_archive();
    // slots 0 and 2 hold sections; 1 and 3 are absent
    set_le32(&mut plain, 0x240, 6);
    set_le32(&mut plain, 0x260, 8);
    for (slot, version) in [(0usize, 7u16), (2, 9)] {
        let base = 0x400 + 0x200 * slot;
        set_le16(&mut plain, base, version);
        plain[base + 2] = 1; // PartitionFs
        plain[base + 3] = 2; // HierarchicalSha256
        plain[base + 4] = 3; // AesCtr
    }
    let nca = NCA::new(encrypt_archive(&ks, plain), &ks, None).unwrap();
    assert_eq!(nca.get_filesystem_count(), 2);
    assert_eq!(nca.fs_headers[0].version, 7);
    assert_eq!(nca.fs_headers[1].version, 9);
    assert_eq!(nca.fs_headers[0].fs_type, FileSystemType::PartitionFs);
}

#[test]
fn nca_sparse_section_unsupported() {
    let ks = test_keyset();
    let mut plain = plain_archive();
    set_le32(&mut plain, 0x240, 6); // slot 0: partition
    set_le32(&mut plain, 0x250, 8); // slot 1: romfs
    let b0 = 0x400;
    plain[b0 + 2] = 1; // PartitionFs
    plain[b0 + 3] = 2;
    plain[b0 + 4] = 3;
    set_le16(&mut plain, b0 + 0x170, 1); // sparse generation
    let b1 = 0x600;
    plain[b1 + 2] = 0; // RomFs
    plain[b1 + 3] = 3;
    plain[b1 + 4] = 3;
    set_le16(&mut plain, b1 + 0x170, 1); // sparse generation
    let nca = NCA::new(encrypt_archive(&ks, plain), &ks, None).unwrap();
    assert!(matches!(nca.open_pfs0_filesystem(0), Err(NcaError::Unsupported)));
    assert!(matches!(nca.open_romfs_filesystem(1), Err(NcaError::Unsupported)));
}

#[test]
fn nca_wrong_section_type() {
    let ks = test_keyset();
    let mut plain = plain_archive();
    set_le32(&mut plain, 0x240, 6);
    let b0 = 0x400;
    plain[b0 + 2] = 1; // PartitionFs
    plain[b0 + 3] = 2;
    plain[b0 + 4] = 3;
    let nca = NCA::new(encrypt_archive(&ks, plain), &ks, None).unwrap();
    assert!(matches!(nca.open_romfs_filesystem(0), Err(NcaError::InvalidInput)));
    assert!(matches!(nca.open_pfs0_filesystem(1), Err(NcaError::InvalidInput)));
}

#[test]
fn nca_unsupported_encryption_type() {
    let ks = test_keyset();
    let mut plain = plain_archive();
    set_le32(&mut plain, 0x240, 6);
    let b0 = 0x400;
    plain[b0 + 2] = 1; // PartitionFs
    plain[b0 + 3] = 2;
    plain[b0 + 4] = 1; // no encryption: not supported
    let nca = NCA::new(encrypt_archive(&ks, plain), &ks, None).unwrap();
    assert!(matches!(nca.open_pfs0_filesystem(0), Err(NcaError::Unsupported)));
}

#[test]
fn nca_pfs0_end_to_end() {
    let ks = test_keyset();
    let mut plain = plain_archive();
    set_le32(&mut plain, 0x240, 6); // section starts at 6 * 0x200 = 0xC00
    let b0 = 0x400;
    plain[b0 + 2] = 1; // PartitionFs
    plain[b0 + 3] = 2; // HierarchicalSha256
    plain[b0 + 4] = 3; // AesCtr
    set_le64(&mut plain, b0 + 0x40, 0); // partition right at the section start
    let nonce: u64 = 0xDEADBEEF;
    set_le64(&mut plain, b0 + 0x140, nonce);
    // key area: the CTR key is its middle 16 bytes
    let mut ka_plain = [0u8; 0x40];
    for (i, b) in ka_plain.iter_mut().enumerate() {
        *b = 0x30 + i as u8;
    }
    let ctr_key: [u8; 16] = ka_plain[0x20..0x30].try_into().unwrap();
    let enc_area = ecb_encrypt(&ks.key_area_keys_application[0], &ka_plain);
    plain[0x300..0x340].copy_from_slice(&enc_area);
    // inner partition image
    let mut img: Vec<u8> = Vec::new();
    img.extend_from_slice(b"PFS0");
    img.extend_from_slice(&1u32.to_le_bytes());
    img.extend_from_slice(&8u32.to_le_bytes());
    img.extend_from_slice(&0u32.to_le_bytes());
    img.extend_from_slice(&0u64.to_le_bytes());
    img.extend_from_slice(&5u64.to_le_bytes());
    img.extend_from_slice(&0u32.to_le_bytes());
    img.extend_from_slice(&0u32.to_le_bytes());
    img.extend_from_slice(b"a.txt\0\0\0");
    img.extend_from_slice(b"hello");
    while img.len() % 16 != 0 {
        img.push(0);
    }
    let mut data = encrypt_archive(&ks, plain);
    data.extend_from_slice(&ctr_crypt_at(&ctr_key, nonce, 0xC00, &img));
    let nca = NCA::new(data, &ks, None).unwrap();
    assert_eq!(nca.get_filesystem_count(), 1);
    let pfs0 = nca.open_pfs0_filesystem(0).unwrap();
    assert_eq!(pfs0.list_files().unwrap(), vec![String::from("a.txt")]);
    assert_eq!(pfs0.get_file_size(0), Ok(5));
    let mut buf = vec![0u8; 5];
    assert_eq!(pfs0.read_file(0, 0, &mut buf), Ok(5));
    assert_eq!(&buf, b"hello");
}
