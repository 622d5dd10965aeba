//! The Nintendo Content Archive (NCA) container.
//!
//! An archive begins with a 0x400-byte header and four 0x200-byte
//! section headers, all encrypted with AES-XTS under the keyset's
//! header key.  The header names up to four inner filesystems, carries
//! the encrypted key area, and decides — through the rights identifier
//! — whether the per-section AES-CTR key comes from the key area or
//! from a caller-supplied title key.

use vstd::prelude::*;
use crate::crypto::{aes128_ecb_dec, spec_ctr_plain_byte, xts128_dec, xts128_decrypt_area,
    aes128_ecb_decrypt};
use crate::err::NcaError;
use crate::keyset::Keyset;
use crate::lebytes::{bytes_to_array, bytes_to_vec, le16_at, le32_at, le64_at, read_le16,
    read_le32, read_le64};
use crate::pfs0::{PFS0, PFS0_MAGIC};
use crate::region::{CtrReader, Region};
use crate::romfs::{spec_parse_romfs_header, RomFs};

verus! {

broadcast use vstd::std_specs::vec::axiom_spec_len;

/// How many filesystem slots an archive has.
pub const MAX_FILESYSTEM_COUNT: usize = 4;

/// The AES-XTS sector size used for header crypto.
pub const SECTOR_SIZE: usize = 0x200;

/// The unit in which section offsets are counted.
pub const MEDIA_UNIT_SIZE: usize = 0x200;

/// The magic `"NCA3"` as a little-endian 32-bit integer.
pub const NCA3_MAGIC: u32 = 0x3341434E;

/// How the content was distributed.
#[derive(Clone, Copy, Debug, PartialEq, Eq, Structural)]
pub enum DistributionType {
    System,
    Gamecard,
}

/// What kind of content the archive holds.
#[derive(Clone, Copy, Debug, PartialEq, Eq, Structural)]
pub enum ContentType {
    Program,
    Meta,
    Control,
    Manual,
    Data,
    PublicData,
}

/// Which family of key-area encryption keys applies.
#[derive(Clone, Copy, Debug, PartialEq, Eq, Structural)]
pub enum KeyAreaEncryptionKeyIndex {
    Application,
    Ocean,
    System,
}

/// An RSA signature over the header; carried, never verified here.
#[derive(Clone, Copy, Debug, PartialEq, Eq)]
pub struct RSASignature {
    pub data: [u8; 0x100],
}

/// The SDK version the content was built with.
#[derive(Clone, Copy, Debug, PartialEq, Eq, Structural)]
pub struct SdkAddonVersion {
    pub unk: u8,
    pub micro: u8,
    pub minor: u8,
    pub major: u8,
}

/// One filesystem slot: where the section begins and ends, in
/// 0x200-byte media units.  A zero start marks an absent section.
#[derive(Clone, Copy, Debug, PartialEq, Eq, Structural)]
pub struct FileSystemEntry {
    pub start_offset: u32,
    pub end_offset: u32,
}

/// A SHA-256 digest; carried, never verified here.
#[derive(Clone, Copy, Debug, PartialEq, Eq)]
pub struct Sha256Hash {
    pub hash: [u8; 0x20],
}

/// The 0x40-byte key area: the XTS key pair, the CTR key, and one more
/// key the format reserves.
#[derive(Clone, Copy, Debug, PartialEq, Eq)]
pub struct KeyArea {
    pub aes_xts_key: [u8; 0x20],
    pub aes_ctr_key: [u8; 0x10],
    pub unk_key: [u8; 0x10],
}

impl KeyArea {
    /// An all-zero key area.
    pub fn empty() -> (r: KeyArea)
        ensures
            r.aes_xts_key@ =~= Seq::new(0x20, |i: int| 0u8),
            r.aes_ctr_key@ =~= Seq::new(0x10, |i: int| 0u8),
            r.unk_key@ =~= Seq::new(0x10, |i: int| 0u8),
    {
        KeyArea { aes_xts_key: [0u8; 0x20], aes_ctr_key: [0u8; 0x10], unk_key: [0u8; 0x10] }
    }

    /// Splits the first 0x40 bytes of `slice` into the three keys.
    pub fn from_slice(slice: &[u8]) -> (r: KeyArea)
        requires
            slice@.len() >= 0x40,
        ensures
            r.aes_xts_key@ =~= slice@.subrange(0, 0x20),
            r.aes_ctr_key@ =~= slice@.subrange(0x20, 0x30),
            r.unk_key@ =~= slice@.subrange(0x30, 0x40),
    {
        KeyArea {
            aes_xts_key: slice_to_array_32(slice, 0),
            aes_ctr_key: slice_to_array_16(slice, 0x20),
            unk_key: slice_to_array_16(slice, 0x30),
        }
    }
}

/// Copies 16 bytes of a slice starting at `off` into an array.
fn slice_to_array_16(s: &[u8], off: usize) -> (r: [u8; 16])
    requires
        off + 16 <= s@.len(),
    ensures
        r@ =~= s@.subrange(off as int, off + 16),
{
    let slen: usize = s.len();
    let mut r: [u8; 16] = [0u8; 16];
    let mut i: usize = 0;
    while i < 16
        invariant
            0 <= i <= 16,
            off + 16 <= s@.len(),
            s@.len() == slen,
            r@.len() == 16,
            forall|k: int| 0 <= k < i ==> r@[k] == s@[off + k],
        decreases 16 - i,
    {
        r[i] = *vstd::slice::slice_index_get(s, off + i);
        i = i + 1;
    }
    r
}

/// Copies 32 bytes of a slice starting at `off` into an array.
fn slice_to_array_32(s: &[u8], off: usize) -> (r: [u8; 32])
    requires
        off + 32 <= s@.len(),
    ensures
        r@ =~= s@.subrange(off as int, off + 32),
{
    let slen: usize = s.len();
    let mut r: [u8; 32] = [0u8; 32];
    let mut i: usize = 0;
    while i < 32
        invariant
            0 <= i <= 32,
            off + 32 <= s@.len(),
            s@.len() == slen,
            r@.len() == 32,
            forall|k: int| 0 <= k < i ==> r@[k] == s@[off + k],
        decreases 32 - i,
    {
        r[i] = *vstd::slice::slice_index_get(s, off + i);
        i = i + 1;
    }
    r
}

/// The decrypted 0x400-byte archive header.
#[derive(Clone, Copy, Debug, PartialEq, Eq)]
pub struct Header {
    pub header_rsa_sig_1: RSASignature,
    pub header_rsa_sig_2: RSASignature,
    pub magic: u32,
    pub dist_type: DistributionType,
    pub cnt_type: ContentType,
    pub key_generation_old: u8,
    pub key_area_encryption_key_index: KeyAreaEncryptionKeyIndex,
    pub cnt_size: u64,
    pub program_id: u64,
    pub cnt_idx: u32,
    pub sdk_addon_ver: SdkAddonVersion,
    pub key_generation: u8,
    pub header_1_signature_key_generation: u8,
    pub rights_id: [u8; 0x10],
    pub fs_entries: [FileSystemEntry; 4],
    pub fs_header_hashes: [Sha256Hash; 4],
    pub encrypted_key_area: KeyArea,
}

/// The effective key generation: the larger of the two header fields,
/// minus one when positive, since generations zero and one both denote
/// the first master key.
pub open spec fn spec_key_generation(old_gen: u8, new_gen: u8) -> u8 {
    let base = if old_gen < new_gen {
        new_gen
    } else {
        old_gen
    };
    if base > 0 {
        (base - 1) as u8
    } else {
        base
    }
}

impl Header {
    /// The effective key generation of the archive.
    pub fn get_key_generation(self) -> (r: u8)
        ensures
            r == spec_key_generation(self.key_generation_old, self.key_generation),
    {
        let base_key_gen: u8 = if self.key_generation_old < self.key_generation {
            self.key_generation
        } else {
            self.key_generation_old
        };
        if base_key_gen > 0 {
            base_key_gen - 1
        } else {
            base_key_gen
        }
    }
}

/// Which inner filesystem a section holds.
#[derive(Clone, Copy, Debug, PartialEq, Eq, Structural)]
pub enum FileSystemType {
    RomFs,
    PartitionFs,
}

/// How the section's contents are hashed.
#[derive(Clone, Copy, Debug, PartialEq, Eq, Structural)]
pub enum HashType {
    Auto,
    HierarchicalSha256,
    HierarchicalIntegrity,
}

/// How the section's contents are encrypted.
#[derive(Clone, Copy, Debug, PartialEq, Eq, Structural)]
pub enum EncryptionType {
    Auto,
    NoEncryption,
    AesCtrOld,
    AesCtr,
    AesCtrEx,
}

/// Hash data of a partition-filesystem section: where the hash table
/// and the inner PFS0 live, relative to the section start.
#[derive(Clone, Copy, Debug, PartialEq, Eq)]
pub struct HierarchicalSha256 {
    pub hash_table_hash: Sha256Hash,
    pub block_size: u32,
    pub hash_table_offset: u64,
    pub hash_table_size: u64,
    pub pfs0_offset: u64,
    pub pfs0_size: u64,
}

/// One integrity-tree level: where it lies and how large its blocks
/// are.
#[derive(Clone, Copy, Debug, PartialEq, Eq, Structural)]
pub struct HierarchicalIntegrityLevelInfo {
    pub offset: u64,
    pub size: u64,
    pub block_size_log2: u32,
}

/// Hash data of a RomFS section: the IVFC integrity tree whose last
/// level is the data region.
#[derive(Clone, Copy, Debug, PartialEq, Eq)]
pub struct HierarchicalIntegrity {
    pub magic: u32,
    pub magic_num: u32,
    pub maybe_master_hash_size: u32,
    pub levels: [HierarchicalIntegrityLevelInfo; 6],
    pub hash: Sha256Hash,
}

/// The hash information of a section, discriminated by its hash type.
#[derive(Clone, Copy, Debug, PartialEq, Eq)]
pub enum HashInfo {
    HierarchicalSha256(HierarchicalSha256),
    HierarchicalIntegrity(HierarchicalIntegrity),
    Unrecognized,
}

/// One relocation record of a patch section; carried, never used here.
#[derive(Clone, Copy, Debug, PartialEq, Eq, Structural)]
pub struct BucketRelocationInfo {
    pub offset: u64,
    pub size: u64,
    pub magic: u32,
}

/// The patch data of a section; carried, never used here.
#[derive(Clone, Copy, Debug, PartialEq, Eq, Structural)]
pub struct PatchInfo {
    pub info: BucketRelocationInfo,
    pub info_2: BucketRelocationInfo,
}

/// A bucket table of a sparse section.
#[derive(Clone, Copy, Debug, PartialEq, Eq)]
pub struct BucketInfo {
    pub offset: u64,
    pub size: u64,
    pub header: [u8; 0x10],
}

/// Sparse-layout data; a non-zero generation marks a sparse section,
/// which this reader does not support.
#[derive(Clone, Copy, Debug, PartialEq, Eq)]
pub struct SparseInfo {
    pub bucket: BucketInfo,
    pub physical_offset: u64,
    pub generation: u16,
}

/// One decrypted 0x200-byte section header.
#[derive(Clone, Copy, Debug, PartialEq, Eq)]
pub struct FileSystemHeader {
    pub version: u16,
    pub fs_type: FileSystemType,
    pub hash_type: HashType,
    pub encryption_type: EncryptionType,
    pub hash_info: HashInfo,
    pub patch_info: PatchInfo,
    pub ctr: u64,
    pub sparse_info: SparseInfo,
}

/// The distribution type a header byte denotes, if any.
pub open spec fn spec_dist_type(b: u8) -> Option<DistributionType> {
    if b == 0 {
        Some(DistributionType::System)
    } else if b == 1 {
        Some(DistributionType::Gamecard)
    } else {
        None
    }
}

/// The content type a header byte denotes, if any.
pub open spec fn spec_content_type(b: u8) -> Option<ContentType> {
    if b == 0 {
        Some(ContentType::Program)
    } else if b == 1 {
        Some(ContentType::Meta)
    } else if b == 2 {
        Some(ContentType::Control)
    } else if b == 3 {
        Some(ContentType::Manual)
    } else if b == 4 {
        Some(ContentType::Data)
    } else if b == 5 {
        Some(ContentType::PublicData)
    } else {
        None
    }
}

/// The key-area key family a header byte denotes, if any.
pub open spec fn spec_kaek_index(b: u8) -> Option<KeyAreaEncryptionKeyIndex> {
    if b == 0 {
        Some(KeyAreaEncryptionKeyIndex::Application)
    } else if b == 1 {
        Some(KeyAreaEncryptionKeyIndex::Ocean)
    } else if b == 2 {
        Some(KeyAreaEncryptionKeyIndex::System)
    } else {
        None
    }
}

/// The filesystem type a section byte denotes, if any.
pub open spec fn spec_fs_type(b: u8) -> Option<FileSystemType> {
    if b == 0 {
        Some(FileSystemType::RomFs)
    } else if b == 1 {
        Some(FileSystemType::PartitionFs)
    } else {
        None
    }
}

/// The hash type a section byte denotes, if any.
pub open spec fn spec_hash_type(b: u8) -> Option<HashType> {
    if b == 0 {
        Some(HashType::Auto)
    } else if b == 2 {
        Some(HashType::HierarchicalSha256)
    } else if b == 3 {
        Some(HashType::HierarchicalIntegrity)
    } else {
        None
    }
}

/// The encryption type a section byte denotes, if any.
pub open spec fn spec_encryption_type(b: u8) -> Option<EncryptionType> {
    if b == 0 {
        Some(EncryptionType::Auto)
    } else if b == 1 {
        Some(EncryptionType::NoEncryption)
    } else if b == 2 {
        Some(EncryptionType::AesCtrOld)
    } else if b == 3 {
        Some(EncryptionType::AesCtr)
    } else if b == 4 {
        Some(EncryptionType::AesCtrEx)
    } else {
        None
    }
}

/// Every byte of the run is zero.
pub open spec fn spec_all_zero(s: Seq<u8>) -> bool {
    forall|i: int| 0 <= i < s.len() ==> s[i] == 0
}

/// The main-header enum bytes all denote known values.
pub open spec fn spec_header_enums_ok(s: Seq<u8>) -> bool {
    &&& spec_dist_type(s[0x204]) is Some
    &&& spec_content_type(s[0x205]) is Some
    &&& spec_kaek_index(s[0x207]) is Some
}

/// `h` holds exactly the fields the decrypted header bytes `s` lay
/// out.
pub open spec fn spec_header_matches(h: Header, s: Seq<u8>) -> bool {
    &&& h.header_rsa_sig_1.data@ == s.subrange(0, 0x100)
    &&& h.header_rsa_sig_2.data@ == s.subrange(0x100, 0x200)
    &&& h.magic == le32_at(s, 0x200)
    &&& Some(h.dist_type) == spec_dist_type(s[0x204])
    &&& Some(h.cnt_type) == spec_content_type(s[0x205])
    &&& h.key_generation_old == s[0x206]
    &&& Some(h.key_area_encryption_key_index) == spec_kaek_index(s[0x207])
    &&& h.cnt_size == le64_at(s, 0x208)
    &&& h.program_id == le64_at(s, 0x210)
    &&& h.cnt_idx == le32_at(s, 0x218)
    &&& h.sdk_addon_ver == (SdkAddonVersion {
        unk: s[0x21C],
        micro: s[0x21D],
        minor: s[0x21E],
        major: s[0x21F],
    })
    &&& h.key_generation == s[0x220]
    &&& h.header_1_signature_key_generation == s[0x221]
    &&& h.rights_id@ == s.subrange(0x230, 0x240)
    &&& (forall|i: int|
        0 <= i < 4 ==> (#[trigger] h.fs_entries@[i]) == (FileSystemEntry {
            start_offset: le32_at(s, 0x240 + 16 * i),
            end_offset: le32_at(s, 0x244 + 16 * i),
        }))
    &&& (forall|i: int|
        0 <= i < 4 ==> (#[trigger] h.fs_header_hashes@[i]).hash@ == s.subrange(
            0x280 + 32 * i,
            0x2A0 + 32 * i,
        ))
    &&& h.encrypted_key_area.aes_xts_key@ == s.subrange(0x300, 0x320)
    &&& h.encrypted_key_area.aes_ctr_key@ == s.subrange(0x320, 0x330)
    &&& h.encrypted_key_area.unk_key@ == s.subrange(0x330, 0x340)
}

/// The section-header enum bytes at `base` all denote known values.
pub open spec fn spec_fsh_enums_ok(s: Seq<u8>, base: int) -> bool {
    &&& spec_fs_type(s[base + 2]) is Some
    &&& spec_hash_type(s[base + 3]) is Some
    &&& spec_encryption_type(s[base + 4]) is Some
}

/// Integrity-tree level `l` as the section header at `base` lays it
/// out.
pub open spec fn spec_level_at(s: Seq<u8>, base: int, l: int) -> HierarchicalIntegrityLevelInfo {
    HierarchicalIntegrityLevelInfo {
        offset: le64_at(s, base + 24 + 24 * l),
        size: le64_at(s, base + 32 + 24 * l),
        block_size_log2: le32_at(s, base + 40 + 24 * l),
    }
}

/// The hash information `hi` holds what the hash-type byte demands of
/// the section header at `base`.
pub open spec fn spec_hash_info_matches(hi: HashInfo, s: Seq<u8>, base: int) -> bool {
    if s[base + 3] == 2 {
        hi matches HashInfo::HierarchicalSha256(x) && {
            &&& x.hash_table_hash.hash@ == s.subrange(base + 8, base + 0x28)
            &&& x.block_size == le32_at(s, base + 0x28)
            &&& x.hash_table_offset == le64_at(s, base + 0x30)
            &&& x.hash_table_size == le64_at(s, base + 0x38)
            &&& x.pfs0_offset == le64_at(s, base + 0x40)
            &&& x.pfs0_size == le64_at(s, base + 0x48)
        }
    } else if s[base + 3] == 3 {
        hi matches HashInfo::HierarchicalIntegrity(x) && {
            &&& x.magic == le32_at(s, base + 8)
            &&& x.magic_num == le32_at(s, base + 12)
            &&& x.maybe_master_hash_size == le32_at(s, base + 16)
            &&& (forall|l: int|
                0 <= l < 6 ==> x.levels@[l] == #[trigger] spec_level_at(s, base, l))
            &&& x.hash.hash@ == s.subrange(base + 0xC8, base + 0xE8)
        }
    } else {
        hi is Unrecognized
    }
}

/// `f` holds exactly the fields of the 0x200-byte section header at
/// `base` in the decrypted section bytes `s`.
pub open spec fn spec_fsh_matches(f: FileSystemHeader, s: Seq<u8>, base: int) -> bool {
    &&& f.version == le16_at(s, base)
    &&& Some(f.fs_type) == spec_fs_type(s[base + 2])
    &&& Some(f.hash_type) == spec_hash_type(s[base + 3])
    &&& Some(f.encryption_type) == spec_encryption_type(s[base + 4])
    &&& spec_hash_info_matches(f.hash_info, s, base)
    &&& f.patch_info == (PatchInfo {
        info: BucketRelocationInfo {
            offset: le64_at(s, base + 0x100),
            size: le64_at(s, base + 0x108),
            magic: le32_at(s, base + 0x110),
        },
        info_2: BucketRelocationInfo {
            offset: le64_at(s, base + 0x120),
            size: le64_at(s, base + 0x128),
            magic: le32_at(s, base + 0x130),
        },
    })
    &&& f.ctr == le64_at(s, base + 0x140)
    &&& f.sparse_info.bucket.offset == le64_at(s, base + 0x148)
    &&& f.sparse_info.bucket.size == le64_at(s, base + 0x150)
    &&& f.sparse_info.bucket.header@ == s.subrange(base + 0x158, base + 0x168)
    &&& f.sparse_info.physical_offset == le64_at(s, base + 0x168)
    &&& f.sparse_info.generation == le16_at(s, base + 0x170)
}

/// The start offset, in media units, of filesystem slot `i` as the
/// decrypted header `s` declares it.
pub open spec fn spec_entry_start(s: Seq<u8>, i: int) -> u32 {
    le32_at(s, 0x240 + 16 * i)
}

/// Whether the section header of slot `i` has recognizable enum bytes.
pub open spec fn spec_section_enums_ok(sp: Seq<u8>, i: int) -> bool {
    spec_fsh_enums_ok(sp, 0x200 * i)
}

/// The slots from `i` up that hold a section, in slot order.
pub open spec fn spec_active_indices_from(s: Seq<u8>, i: int) -> Seq<int>
    decreases 4 - i,
{
    if i < 0 || i >= 4 {
        Seq::empty()
    } else if spec_entry_start(s, i) != 0 {
        seq![i] + spec_active_indices_from(s, i + 1)
    } else {
        spec_active_indices_from(s, i + 1)
    }
}

/// The slots that hold a section, in slot order.
pub open spec fn spec_active_indices(s: Seq<u8>) -> Seq<int> {
    spec_active_indices_from(s, 0)
}

/// Reads the distribution-type byte.
fn dist_type_of(b: u8) -> (r: Option<DistributionType>)
    ensures
        r == spec_dist_type(b),
{
    if b == 0 {
        Some(DistributionType::System)
    } else if b == 1 {
        Some(DistributionType::Gamecard)
    } else {
        None
    }
}

/// Reads the content-type byte.
fn content_type_of(b: u8) -> (r: Option<ContentType>)
    ensures
        r == spec_content_type(b),
{
    if b == 0 {
        Some(ContentType::Program)
    } else if b == 1 {
        Some(ContentType::Meta)
    } else if b == 2 {
        Some(ContentType::Control)
    } else if b == 3 {
        Some(ContentType::Manual)
    } else if b == 4 {
        Some(ContentType::Data)
    } else if b == 5 {
        Some(ContentType::PublicData)
    } else {
        None
    }
}

/// Reads the key-area-key-family byte.
fn kaek_index_of(b: u8) -> (r: Option<KeyAreaEncryptionKeyIndex>)
    ensures
        r == spec_kaek_index(b),
{
    if b == 0 {
        Some(KeyAreaEncryptionKeyIndex::Application)
    } else if b == 1 {
        Some(KeyAreaEncryptionKeyIndex::Ocean)
    } else if b == 2 {
        Some(KeyAreaEncryptionKeyIndex::System)
    } else {
        None
    }
}

/// Parses the decrypted 0x400-byte header buffer field by field.
///
/// Fails with `InvalidInput` exactly when an enum byte denotes no
/// known value.
fn parse_header(hp: &Vec<u8>) -> (r: Result<Header, NcaError>)
    requires
        hp@.len() == 0x400,
    ensures
        r is Ok <==> spec_header_enums_ok(hp@),
        r matches Ok(h) ==> spec_header_matches(h, hp@),
        r matches Err(e) ==> e == NcaError::InvalidInput,
{
    let dist_type = match dist_type_of(hp[0x204]) {
        Some(d) => d,
        None => {
            return Err(NcaError::InvalidInput);
        },
    };
    let cnt_type = match content_type_of(hp[0x205]) {
        Some(c) => c,
        None => {
            return Err(NcaError::InvalidInput);
        },
    };
    let kaek_index = match kaek_index_of(hp[0x207]) {
        Some(k) => k,
        None => {
            return Err(NcaError::InvalidInput);
        },
    };
    let e0 = FileSystemEntry { start_offset: read_le32(hp, 0x240), end_offset: read_le32(hp, 0x244) };
    let e1 = FileSystemEntry { start_offset: read_le32(hp, 0x250), end_offset: read_le32(hp, 0x254) };
    let e2 = FileSystemEntry { start_offset: read_le32(hp, 0x260), end_offset: read_le32(hp, 0x264) };
    let e3 = FileSystemEntry { start_offset: read_le32(hp, 0x270), end_offset: read_le32(hp, 0x274) };
    let h0 = Sha256Hash { hash: bytes_to_array::<0x20>(hp, 0x280) };
    let h1 = Sha256Hash { hash: bytes_to_array::<0x20>(hp, 0x2A0) };
    let h2 = Sha256Hash { hash: bytes_to_array::<0x20>(hp, 0x2C0) };
    let h3 = Sha256Hash { hash: bytes_to_array::<0x20>(hp, 0x2E0) };
    let header = Header {
        header_rsa_sig_1: RSASignature { data: bytes_to_array::<0x100>(hp, 0) },
        header_rsa_sig_2: RSASignature { data: bytes_to_array::<0x100>(hp, 0x100) },
        magic: read_le32(hp, 0x200),
        dist_type,
        cnt_type,
        key_generation_old: hp[0x206],
        key_area_encryption_key_index: kaek_index,
        cnt_size: read_le64(hp, 0x208),
        program_id: read_le64(hp, 0x210),
        cnt_idx: read_le32(hp, 0x218),
        sdk_addon_ver: SdkAddonVersion {
            unk: hp[0x21C],
            micro: hp[0x21D],
            minor: hp[0x21E],
            major: hp[0x21F],
        },
        key_generation: hp[0x220],
        header_1_signature_key_generation: hp[0x221],
        rights_id: bytes_to_array::<0x10>(hp, 0x230),
        fs_entries: [e0, e1, e2, e3],
        fs_header_hashes: [h0, h1, h2, h3],
        encrypted_key_area: KeyArea {
            aes_xts_key: bytes_to_array::<0x20>(hp, 0x300),
            aes_ctr_key: bytes_to_array::<0x10>(hp, 0x320),
            unk_key: bytes_to_array::<0x10>(hp, 0x330),
        },
    };
    proof {
        assert forall|i: int| 0 <= i < 4 implies (#[trigger] header.fs_entries@[i])
            == (FileSystemEntry {
            start_offset: le32_at(hp@, 0x240 + 16 * i),
            end_offset: le32_at(hp@, 0x244 + 16 * i),
        }) by {
            if i == 0 {
            } else if i == 1 {
            } else if i == 2 {
            } else {
            }
        }
        assert forall|i: int| 0 <= i < 4 implies (#[trigger] header.fs_header_hashes@[i]).hash@
            == hp@.subrange(0x280 + 32 * i, 0x2A0 + 32 * i) by {
            if i == 0 {
            } else if i == 1 {
            } else if i == 2 {
            } else {
            }
        }
    }
    Ok(header)
}

/// Parses one decrypted 0x200-byte section header at `base` field by
/// field.
///
/// Fails with `InvalidInput` exactly when an enum byte denotes no
/// known value.
fn parse_fs_header(sp: &Vec<u8>, base: usize) -> (r: Result<FileSystemHeader, NcaError>)
    requires
        base + 0x200 <= sp@.len(),
    ensures
        r is Ok <==> spec_fsh_enums_ok(sp@, base as int),
        r matches Ok(f) ==> spec_fsh_matches(f, sp@, base as int),
        r matches Err(e) ==> e == NcaError::InvalidInput,
{
    proof {
        vstd::std_specs::vec::axiom_spec_len(sp);
    }
    let fs_type = match fs_type_of(sp[base + 2]) {
        Some(f) => f,
        None => {
            return Err(NcaError::InvalidInput);
        },
    };
    let hash_type = match hash_type_of(sp[base + 3]) {
        Some(h) => h,
        None => {
            return Err(NcaError::InvalidInput);
        },
    };
    let encryption_type = match encryption_type_of(sp[base + 4]) {
        Some(e) => e,
        None => {
            return Err(NcaError::InvalidInput);
        },
    };
    let hash_info = if sp[base + 3] == 2 {
        HashInfo::HierarchicalSha256(HierarchicalSha256 {
            hash_table_hash: Sha256Hash { hash: bytes_to_array::<0x20>(sp, base + 8) },
            block_size: read_le32(sp, base + 0x28),
            hash_table_offset: read_le64(sp, base + 0x30),
            hash_table_size: read_le64(sp, base + 0x38),
            pfs0_offset: read_le64(sp, base + 0x40),
            pfs0_size: read_le64(sp, base + 0x48),
        })
    } else if sp[base + 3] == 3 {
        let l0 = HierarchicalIntegrityLevelInfo {
            offset: read_le64(sp, base + 24),
            size: read_le64(sp, base + 32),
            block_size_log2: read_le32(sp, base + 40),
        };
        let l1 = HierarchicalIntegrityLevelInfo {
            offset: read_le64(sp, base + 48),
            size: read_le64(sp, base + 56),
            block_size_log2: read_le32(sp, base + 64),
        };
        let l2 = HierarchicalIntegrityLevelInfo {
            offset: read_le64(sp, base + 72),
            size: read_le64(sp, base + 80),
            block_size_log2: read_le32(sp, base + 88),
        };
        let l3 = HierarchicalIntegrityLevelInfo {
            offset: read_le64(sp, base + 96),
            size: read_le64(sp, base + 104),
            block_size_log2: read_le32(sp, base + 112),
        };
        let l4 = HierarchicalIntegrityLevelInfo {
            offset: read_le64(sp, base + 120),
            size: read_le64(sp, base + 128),
            block_size_log2: read_le32(sp, base + 136),
        };
        let l5 = HierarchicalIntegrityLevelInfo {
            offset: read_le64(sp, base + 144),
            size: read_le64(sp, base + 152),
            block_size_log2: read_le32(sp, base + 160),
        };
        let levels_arr = [l0, l1, l2, l3, l4, l5];
        proof {
            assert forall|l: int| 0 <= l < 6 implies levels_arr@[l] == #[trigger] spec_level_at(
                sp@,
                base as int,
                l,
            ) by {
                if l == 0 {
                } else if l == 1 {
                } else if l == 2 {
                } else if l == 3 {
                } else if l == 4 {
                } else {
                }
            }
        }
        HashInfo::HierarchicalIntegrity(HierarchicalIntegrity {
            magic: read_le32(sp, base + 8),
            magic_num: read_le32(sp, base + 12),
            maybe_master_hash_size: read_le32(sp, base + 16),
            levels: levels_arr,
            hash: Sha256Hash { hash: bytes_to_array::<0x20>(sp, base + 0xC8) },
        })
    } else {
        HashInfo::Unrecognized
    };
    let f = FileSystemHeader {
        version: read_le16(sp, base),
        fs_type,
        hash_type,
        encryption_type,
        hash_info,
        patch_info: PatchInfo {
            info: BucketRelocationInfo {
                offset: read_le64(sp, base + 0x100),
                size: read_le64(sp, base + 0x108),
                magic: read_le32(sp, base + 0x110),
            },
            info_2: BucketRelocationInfo {
                offset: read_le64(sp, base + 0x120),
                size: read_le64(sp, base + 0x128),
                magic: read_le32(sp, base + 0x130),
            },
        },
        ctr: read_le64(sp, base + 0x140),
        sparse_info: SparseInfo {
            bucket: BucketInfo {
                offset: read_le64(sp, base + 0x148),
                size: read_le64(sp, base + 0x150),
                header: bytes_to_array::<0x10>(sp, base + 0x158),
            },
            physical_offset: read_le64(sp, base + 0x168),
            generation: read_le16(sp, base + 0x170),
        },
    };
    Ok(f)
}

/// Reads the filesystem-type byte.
fn fs_type_of(b: u8) -> (r: Option<FileSystemType>)
    ensures
        r == spec_fs_type(b),
{
    if b == 0 {
        Some(FileSystemType::RomFs)
    } else if b == 1 {
        Some(FileSystemType::PartitionFs)
    } else {
        None
    }
}

/// Reads the hash-type byte.
fn hash_type_of(b: u8) -> (r: Option<HashType>)
    ensures
        r == spec_hash_type(b),
{
    if b == 0 {
        Some(HashType::Auto)
    } else if b == 2 {
        Some(HashType::HierarchicalSha256)
    } else if b == 3 {
        Some(HashType::HierarchicalIntegrity)
    } else {
        None
    }
}

/// Reads the encryption-type byte.
fn encryption_type_of(b: u8) -> (r: Option<EncryptionType>)
    ensures
        r == spec_encryption_type(b),
{
    if b == 0 {
        Some(EncryptionType::Auto)
    } else if b == 1 {
        Some(EncryptionType::NoEncryption)
    } else if b == 2 {
        Some(EncryptionType::AesCtrOld)
    } else if b == 3 {
        Some(EncryptionType::AesCtr)
    } else if b == 4 {
        Some(EncryptionType::AesCtrEx)
    } else {
        None
    }
}

/// A parsed, decrypted archive: the shared source bytes, the derived
/// keys, the header, and the active sections in slot order.
pub struct NCA {
    pub data: Vec<u8>,
    pub dec_key_area: KeyArea,
    pub dec_title_key: Option<[u8; 0x10]>,
    pub header: Header,
    pub fs_headers: Vec<FileSystemHeader>,
    pub fs_entries_active: Vec<FileSystemEntry>,
}

/// The key-area keys of the family the header byte selects.
pub open spec fn spec_kaek_keys(keyset: Keyset, b: u8) -> Seq<[u8; 16]> {
    if b == 0 {
        keyset.key_area_keys_application@
    } else if b == 1 {
        keyset.key_area_keys_ocean@
    } else {
        keyset.key_area_keys_system@
    }
}

/// The decrypted 0x400-byte main header of archive bytes `data`.
pub open spec fn spec_header_plain(keyset: Keyset, data: Seq<u8>) -> Seq<u8> {
    xts128_dec(
        keyset.header_key@.subrange(0, 16),
        keyset.header_key@.subrange(16, 32),
        0x200,
        0,
        data.subrange(0, 0x400),
    )
}

/// The decrypted four 0x200-byte section headers of archive bytes
/// `data`.
pub open spec fn spec_sections_plain(keyset: Keyset, data: Seq<u8>) -> Seq<u8> {
    xts128_dec(
        keyset.header_key@.subrange(0, 16),
        keyset.header_key@.subrange(16, 32),
        0x200,
        2,
        data.subrange(0x400, 0xC00),
    )
}

/// Everything `NCA::new` checks past the magic: known enum bytes in
/// the header and in every active section header, a key generation the
/// keyset covers, and — for a rights-locked archive — a supplied title
/// key the keyset can decrypt.
pub open spec fn spec_open_checks(keyset: Keyset, data: Seq<u8>, title_key: Option<[u8; 16]>) -> bool {
    let hp = spec_header_plain(keyset, data);
    let sp = spec_sections_plain(keyset, data);
    &&& spec_header_enums_ok(hp)
    &&& (forall|i: int|
        0 <= i < 4 ==> ((#[trigger] spec_entry_start(hp, i)) != 0 ==> spec_section_enums_ok(
            sp,
            i,
        )))
    &&& (spec_key_generation(hp[0x206], hp[0x220]) as int) < spec_kaek_keys(
        keyset,
        hp[0x207],
    ).len()
    &&& (spec_all_zero(hp.subrange(0x230, 0x240)) || (title_key is Some && (spec_key_generation(
        hp[0x206],
        hp[0x220],
    ) as int) < keyset.title_key_encryption_keys@.len()))
}

/// The inner hash data of a partition section.
pub open spec fn spec_hs256_of(hi: HashInfo) -> HierarchicalSha256
    recommends
        hi is HierarchicalSha256,
{
    choose|x: HierarchicalSha256| hi == HashInfo::HierarchicalSha256(x)
}

/// The inner hash data of a RomFS section.
pub open spec fn spec_hi_of(hi: HashInfo) -> HierarchicalIntegrity
    recommends
        hi is HierarchicalIntegrity,
{
    choose|x: HierarchicalIntegrity| hi == HashInfo::HierarchicalIntegrity(x)
}

impl NCA {
    /// The AES-CTR key used for section decryption: the decrypted
    /// title key when one was derived, else the key area's CTR key.
    pub open spec fn spec_ctr_key(self) -> Seq<u8> {
        match self.dec_title_key {
            Some(k) => k@,
            None => self.dec_key_area.aes_ctr_key@,
        }
    }

    /// The plaintext byte at offset `o` of a CTR region of this
    /// archive based at absolute offset `base` with nonce `nonce`.
    pub open spec fn spec_section_plain_at(self, base: int, nonce: u64, o: int) -> u8 {
        spec_ctr_plain_byte(self.spec_ctr_key(), nonce, self.data@, base + o)
    }

    /// Opens an archive: decrypts the header with the keyset's header
    /// key, checks the magic, derives the CTR key from the key area or
    /// the title key, and collects the active sections in slot order.
    ///
    /// Fails with `Io` when fewer than 0xC00 bytes are present, and
    /// with `InvalidInput` when the magic is not `"NCA3"`, a header
    /// byte denotes no known value, or the keyset lacks the needed key
    /// generation.
    pub fn new(data: Vec<u8>, keyset: &Keyset, title_key: Option<[u8; 0x10]>) -> (r: Result<
        NCA,
        NcaError,
    >)
        ensures
            data@.len() < 0xC00 ==> r == Result::<NCA, NcaError>::Err(NcaError::Io),
            ({
                let hp = spec_header_plain(*keyset, data@);
                let sp = spec_sections_plain(*keyset, data@);
                let kg = spec_key_generation(hp[0x206], hp[0x220]) as int;
                &&& (data@.len() >= 0xC00 && le32_at(hp, 0x200) != NCA3_MAGIC ==> r == Result::<
                    NCA,
                    NcaError,
                >::Err(NcaError::InvalidInput))
                &&& (data@.len() >= 0xC00 && le32_at(hp, 0x200) == NCA3_MAGIC ==> {
                    &&& (r is Ok <==> spec_open_checks(*keyset, data@, title_key))
                    &&& (r is Err ==> r == Result::<NCA, NcaError>::Err(NcaError::InvalidInput))
                    &&& (r matches Ok(n) ==> {
                        &&& n.data@ == data@
                        &&& spec_header_matches(n.header, hp)
                        &&& n.fs_headers@.len() == spec_active_indices(hp).len()
                        &&& n.fs_entries_active@.len() == spec_active_indices(hp).len()
                        &&& (forall|j: int|
                            0 <= j < spec_active_indices(hp).len() ==> {
                                let idx = spec_active_indices(hp)[j];
                                &&& (#[trigger] n.fs_entries_active@[j]).start_offset
                                    == spec_entry_start(hp, idx)
                                &&& n.fs_entries_active@[j].end_offset == le32_at(
                                    hp,
                                    0x244 + 16 * idx,
                                )
                                &&& spec_fsh_matches(n.fs_headers@[j], sp, 0x200 * idx)
                            })
                        &&& (spec_all_zero(hp.subrange(0x230, 0x240)) ==> {
                            let ka = aes128_ecb_dec(
                                spec_kaek_keys(*keyset, hp[0x207])[kg]@,
                                hp.subrange(0x300, 0x340),
                            );
                            &&& n.dec_title_key is None
                            &&& n.dec_key_area.aes_xts_key@ == ka.subrange(0, 0x20)
                            &&& n.dec_key_area.aes_ctr_key@ == ka.subrange(0x20, 0x30)
                            &&& n.dec_key_area.unk_key@ == ka.subrange(0x30, 0x40)
                        })
                        &&& (!spec_all_zero(hp.subrange(0x230, 0x240)) ==> (n.dec_title_key
                            matches Some(k) && k@ == aes128_ecb_dec(
                            keyset.title_key_encryption_keys@[kg]@,
                            title_key.unwrap()@,
                        )))
                    })
                })
            }),
    {
        if data.len() < 0xC00 {
            return Err(NcaError::Io);
        }
        let k1 = slice_to_array_16(keyset.header_key.as_slice(), 0);
        let k2 = slice_to_array_16(keyset.header_key.as_slice(), 16);
        let hdr_enc = bytes_to_vec(&data, 0, 0x400);
        let hp_vec = xts128_decrypt_area(&k1, &k2, 0x200, 0, hdr_enc);
        proof {
            assert(k1@ == keyset.header_key@.subrange(0, 16));
            assert(k2@ == keyset.header_key@.subrange(16, 32));
            assert(hp_vec@ == spec_header_plain(*keyset, data@));
        }
        let magic = read_le32(&hp_vec, 0x200);
        if magic != NCA3_MAGIC {
            return Err(NcaError::InvalidInput);
        }
        let header = match parse_header(&hp_vec) {
            Ok(h) => h,
            Err(e) => {
                return Err(e);
            },
        };
        let sec_enc = bytes_to_vec(&data, 0x400, 0x800);
        let sp_vec = xts128_decrypt_area(&k1, &k2, 0x200, 2, sec_enc);
        proof {
            assert(data@.subrange(0x400, 0xC00) =~= data@.subrange(0x400int, 0x400int + 0x800int));
            assert(sp_vec@ == spec_sections_plain(*keyset, data@));
        }
        let key_gen = header.get_key_generation();
        let kaek_list = match header.key_area_encryption_key_index {
            KeyAreaEncryptionKeyIndex::Application => &keyset.key_area_keys_application,
            KeyAreaEncryptionKeyIndex::Ocean => &keyset.key_area_keys_ocean,
            KeyAreaEncryptionKeyIndex::System => &keyset.key_area_keys_system,
        };
        proof {
            assert(kaek_list@ == spec_kaek_keys(*keyset, hp_vec@[0x207]));
        }
        if key_gen as usize >= kaek_list.len() {
            return Err(NcaError::InvalidInput);
        }
        let kaek: [u8; 16] = kaek_list[key_gen as usize];
        let mut dec_key_area = KeyArea::empty();
        let mut dec_title_key: Option<[u8; 0x10]> = None;
        let rights_zero = all_zero_16(&header.rights_id);
        if !rights_zero {
            match title_key {
                Some(tk) => {
                    if key_gen as usize >= keyset.title_key_encryption_keys.len() {
                        return Err(NcaError::InvalidInput);
                    }
                    let tkek: [u8; 16] = keyset.title_key_encryption_keys[key_gen as usize];
                    let dec = aes128_ecb_decrypt(&tkek, tk.as_slice());
                    let tk_arr: [u8; 16] = bytes_to_array::<16>(&dec, 0);
                    proof {
                        assert(tk_arr@ =~= dec@);
                    }
                    dec_title_key = Some(tk_arr);
                },
                None => {
                    return Err(NcaError::InvalidInput);
                },
            }
        } else {
            let enc_ka = bytes_to_vec(&hp_vec, 0x300, 0x40);
            let dec = aes128_ecb_decrypt(&kaek, enc_ka.as_slice());
            dec_key_area = KeyArea::from_slice(dec.as_slice());
        }
        let (fs_headers, fs_entries_active) = match collect_active_sections(&hp_vec, &sp_vec) {
            Ok(pair) => pair,
            Err(e) => {
                return Err(e);
            },
        };
        proof {
            assert(spec_open_checks(*keyset, data@, title_key));
        }
        Ok(NCA { data, dec_key_area, dec_title_key, header, fs_headers, fs_entries_active })
    }

    /// How many sections the archive holds.
    pub fn get_filesystem_count(&self) -> (r: usize)
        ensures
            r == self.fs_headers@.len(),
    {
        self.fs_headers.len()
    }

    /// The AES-CTR key used for section decryption; the title key, if
    /// one was derived, wins over the key area.
    pub fn get_aes_ctr_decrypt_key(&self) -> (r: Vec<u8>)
        ensures
            r@ == self.spec_ctr_key(),
            r@.len() == 16,
    {
        match &self.dec_title_key {
            Some(k) => vstd::slice::slice_to_vec(k.as_slice()),
            None => vstd::slice::slice_to_vec(self.dec_key_area.aes_ctr_key.as_slice()),
        }
    }

    /// Whether the archive is rights-locked: a non-zero rights
    /// identifier demands a caller-supplied title key.
    pub fn needs_title_key_crypto(&self) -> (r: bool)
        ensures
            r == !spec_all_zero(self.header.rights_id@),
    {
        !all_zero_16(&self.header.rights_id)
    }

    /// The absolute byte offset where section `idx` begins: its start
    /// offset in 0x200-byte media units.
    fn get_fs_offset(&self, idx: usize) -> (r: u64)
        requires
            idx < self.fs_entries_active@.len(),
        ensures
            r == self.fs_entries_active@[idx as int].start_offset * 0x200,
    {
        (self.fs_entries_active[idx].start_offset as u64) * 0x200
    }

    /// The two section tables pair up: one filesystem entry per parsed
    /// section header.
    pub open spec fn wf(self) -> bool {
        self.fs_headers@.len() == self.fs_entries_active@.len()
    }

    /// The absolute offset where section `idx`'s inner PFS0 begins:
    /// the section start plus the partition offset its hash data
    /// declares.
    pub open spec fn spec_pfs0_base(self, idx: int) -> int {
        self.fs_entries_active@[idx].start_offset * 0x200 + spec_hs256_of(
            self.fs_headers@[idx].hash_info,
        ).pfs0_offset
    }

    /// Opens section `idx` as a flat partition filesystem, reading it
    /// through an AES-CTR region keyed with the archive's CTR key.
    ///
    /// Fails with `InvalidInput` when the index is out of range or the
    /// section holds no partition, and with `Unsupported` for a sparse
    /// section, an encryption type other than AES-CTR, or hash data of
    /// the wrong kind.
    pub fn open_pfs0_filesystem(&self, idx: usize) -> (r: Result<PFS0, NcaError>)
        requires
            self.wf(),
        ensures
            idx >= self.fs_headers@.len() ==> r == Result::<PFS0, NcaError>::Err(
                NcaError::InvalidInput,
            ),
            idx < self.fs_headers@.len() ==> ({
                let fsh = self.fs_headers@[idx as int];
                let base = self.spec_pfs0_base(idx as int);
                let avail = 16 * (self.data@.len() as int / 16) - base;
                let hdrbytes = Seq::new(16, |o: int| self.spec_section_plain_at(base, fsh.ctr, o));
                let h = crate::pfs0::spec_parse_header(hdrbytes);
                let tab_end = 16 + 24 * (h.file_count as int) + (h.string_table_size as int);
                let usable = fsh.fs_type == FileSystemType::PartitionFs
                    && fsh.sparse_info.generation == 0 && fsh.encryption_type
                    == EncryptionType::AesCtr && fsh.hash_info is HierarchicalSha256;
                &&& (fsh.fs_type != FileSystemType::PartitionFs ==> r == Result::<
                    PFS0,
                    NcaError,
                >::Err(NcaError::InvalidInput))
                &&& (fsh.fs_type == FileSystemType::PartitionFs && fsh.sparse_info.generation != 0
                    ==> r == Result::<PFS0, NcaError>::Err(NcaError::Unsupported))
                &&& (fsh.fs_type == FileSystemType::PartitionFs && fsh.sparse_info.generation == 0
                    && (fsh.encryption_type != EncryptionType::AesCtr || !(fsh.hash_info
                    is HierarchicalSha256)) ==> r == Result::<PFS0, NcaError>::Err(
                    NcaError::Unsupported,
                ))
                &&& (usable ==> {
                    &&& (r is Ok <==> (avail >= 16 && h.magic == PFS0_MAGIC && tab_end <= avail))
                    &&& (avail < 16 ==> r == Result::<PFS0, NcaError>::Err(NcaError::Io))
                    &&& (avail >= 16 && h.magic != PFS0_MAGIC ==> r == Result::<
                        PFS0,
                        NcaError,
                    >::Err(NcaError::InvalidInput))
                    &&& (avail >= 16 && h.magic == PFS0_MAGIC && tab_end > avail ==> r
                        == Result::<PFS0, NcaError>::Err(NcaError::Io))
                    &&& (r matches Ok(p) ==> {
                        &&& p.wf()
                        &&& p.header == h
                        &&& (p.reader matches Region::Ctr(c) && c.src@ == self.data@ && c.base
                            == base && c.nonce == fsh.ctr && c.key@ == self.spec_ctr_key())
                    })
                })
            }),
    {
        if idx >= self.fs_headers.len() {
            return Err(NcaError::InvalidInput);
        }
        let fsh = self.fs_headers[idx];
        if fsh.fs_type != FileSystemType::PartitionFs {
            return Err(NcaError::InvalidInput);
        }
        if fsh.sparse_info.generation != 0 {
            return Err(NcaError::Unsupported);
        }
        if fsh.encryption_type != EncryptionType::AesCtr {
            return Err(NcaError::Unsupported);
        }
        let sha = match fsh.hash_info {
            HashInfo::HierarchicalSha256(x) => x,
            _ => {
                return Err(NcaError::Unsupported);
            },
        };
        proof {
            assert(fsh.hash_info == HashInfo::HierarchicalSha256(sha));
            assert(sha == spec_hs256_of(fsh.hash_info));
        }
        let fs_start = self.get_fs_offset(idx);
        let base128: u128 = fs_start as u128 + (sha.pfs0_offset as u128);
        proof {
            self.lemma_data_len_bound();
        }
        if base128 > u64::MAX as u128 {
            return Err(NcaError::Io);
        }
        let key_vec = self.get_aes_ctr_decrypt_key();
        let key_arr: [u8; 16] = bytes_to_array::<16>(&key_vec, 0);
        proof {
            assert(key_arr@ =~= self.spec_ctr_key());
        }
        let src_copy = bytes_to_vec(&self.data, 0, self.data.len());
        proof {
            assert(src_copy@ =~= self.data@);
        }
        let region = Region::Ctr(CtrReader {
            src: src_copy,
            base: base128 as u64,
            nonce: fsh.ctr,
            key: key_arr,
        });
        let ghost greg = region;
        let res = PFS0::new(region);
        proof {
            let base = self.spec_pfs0_base(idx as int);
            let hdrbytes = Seq::new(16, |o: int| self.spec_section_plain_at(base, fsh.ctr, o));
            assert(greg.avail() == 16 * (self.data@.len() as int / 16) - base);
            assert(greg.plain_range(0, 16) =~= hdrbytes);
        }
        res
    }

    /// The absolute offset where section `idx`'s inner RomFS begins:
    /// the section start plus the offset of the integrity tree's last
    /// level, which is the data level.
    pub open spec fn spec_romfs_base(self, idx: int) -> int {
        self.fs_entries_active@[idx].start_offset * 0x200 + spec_hi_of(
            self.fs_headers@[idx].hash_info,
        ).levels@[5].offset
    }

    /// Opens section `idx` as a hierarchical read-only filesystem,
    /// reading it through an AES-CTR region keyed with the archive's
    /// CTR key.
    ///
    /// Fails with `InvalidInput` when the index is out of range or the
    /// section holds no RomFS, and with `Unsupported` for a sparse
    /// section, an encryption type other than AES-CTR, or hash data of
    /// the wrong kind.
    pub fn open_romfs_filesystem(&self, idx: usize) -> (r: Result<RomFs, NcaError>)
        requires
            self.wf(),
        ensures
            idx >= self.fs_headers@.len() ==> r == Result::<RomFs, NcaError>::Err(
                NcaError::InvalidInput,
            ),
            idx < self.fs_headers@.len() ==> ({
                let fsh = self.fs_headers@[idx as int];
                let base = self.spec_romfs_base(idx as int);
                let avail = 16 * (self.data@.len() as int / 16) - base;
                let hdrbytes = Seq::new(0x50, |o: int| self.spec_section_plain_at(
                    base,
                    fsh.ctr,
                    o,
                ));
                let h = spec_parse_romfs_header(hdrbytes);
                let sizes_ok = h.dir_hash_table_size % 4 == 0 && h.file_hash_table_size % 4 == 0;
                let tables_in = (h.dir_hash_table_size == 0 || h.dir_hash_table_offset
                    + h.dir_hash_table_size <= avail) && (h.dir_meta_table_size == 0
                    || h.dir_meta_table_offset + h.dir_meta_table_size <= avail) && (
                h.file_hash_table_size == 0 || h.file_hash_table_offset + h.file_hash_table_size
                    <= avail) && (h.file_meta_table_size == 0 || h.file_meta_table_offset
                    + h.file_meta_table_size <= avail);
                let usable = fsh.fs_type == FileSystemType::RomFs && fsh.sparse_info.generation
                    == 0 && fsh.encryption_type == EncryptionType::AesCtr && fsh.hash_info
                    is HierarchicalIntegrity;
                &&& (fsh.fs_type != FileSystemType::RomFs ==> r == Result::<RomFs, NcaError>::Err(
                    NcaError::InvalidInput,
                ))
                &&& (fsh.fs_type == FileSystemType::RomFs && fsh.sparse_info.generation != 0 ==> r
                    == Result::<RomFs, NcaError>::Err(NcaError::Unsupported))
                &&& (fsh.fs_type == FileSystemType::RomFs && fsh.sparse_info.generation == 0 && (
                fsh.encryption_type != EncryptionType::AesCtr || !(fsh.hash_info
                    is HierarchicalIntegrity)) ==> r == Result::<RomFs, NcaError>::Err(
                    NcaError::Unsupported,
                ))
                &&& (usable ==> {
                    &&& (r is Ok <==> (avail >= 0x50 && sizes_ok && tables_in))
                    &&& (avail < 0x50 ==> r == Result::<RomFs, NcaError>::Err(NcaError::Io))
                    &&& (avail >= 0x50 && !sizes_ok ==> r == Result::<RomFs, NcaError>::Err(
                        NcaError::InvalidInput,
                    ))
                    &&& (avail >= 0x50 && sizes_ok && !tables_in ==> r == Result::<
                        RomFs,
                        NcaError,
                    >::Err(NcaError::Io))
                    &&& (r matches Ok(f) ==> {
                        &&& f.wf()
                        &&& f.header == h
                        &&& (f.reader matches Region::Ctr(c) && c.src@ == self.data@ && c.base
                            == base && c.nonce == fsh.ctr && c.key@ == self.spec_ctr_key())
                    })
                })
            }),
    {
        if idx >= self.fs_headers.len() {
            return Err(NcaError::InvalidInput);
        }
        let fsh = self.fs_headers[idx];
        if fsh.fs_type != FileSystemType::RomFs {
            return Err(NcaError::InvalidInput);
        }
        if fsh.sparse_info.generation != 0 {
            return Err(NcaError::Unsupported);
        }
        if fsh.encryption_type != EncryptionType::AesCtr {
            return Err(NcaError::Unsupported);
        }
        let hi = match fsh.hash_info {
            HashInfo::HierarchicalIntegrity(x) => x,
            _ => {
                return Err(NcaError::Unsupported);
            },
        };
        proof {
            assert(fsh.hash_info == HashInfo::HierarchicalIntegrity(hi));
            assert(hi == spec_hi_of(fsh.hash_info));
        }
        let fs_start = self.get_fs_offset(idx);
        let level5 = vstd::array::array_index_get(&hi.levels, 5);
        let base128: u128 = fs_start as u128 + (level5.offset as u128);
        proof {
            self.lemma_data_len_bound();
        }
        if base128 > u64::MAX as u128 {
            return Err(NcaError::Io);
        }
        let key_vec = self.get_aes_ctr_decrypt_key();
        let key_arr: [u8; 16] = bytes_to_array::<16>(&key_vec, 0);
        proof {
            assert(key_arr@ =~= self.spec_ctr_key());
        }
        let src_copy = bytes_to_vec(&self.data, 0, self.data.len());
        proof {
            assert(src_copy@ =~= self.data@);
        }
        let region = Region::Ctr(CtrReader {
            src: src_copy,
            base: base128 as u64,
            nonce: fsh.ctr,
            key: key_arr,
        });
        let ghost greg = region;
        let res = RomFs::new(region);
        proof {
            let base = self.spec_romfs_base(idx as int);
            let hdrbytes = Seq::new(0x50, |o: int| self.spec_section_plain_at(base, fsh.ctr, o));
            assert(greg.avail() == 16 * (self.data@.len() as int / 16) - base);
            assert(greg.plain_range(0, 0x50) =~= hdrbytes);
        }
        res
    }

    /// The source never outgrows the machine's address range.
    proof fn lemma_data_len_bound(&self)
        ensures
            self.data@.len() <= usize::MAX,
    {
        vstd::std_specs::vec::axiom_spec_len(&self.data);
    }
}

/// Collects the active sections of a decrypted archive: for every
/// slot whose start offset is non-zero, in slot order, the parsed
/// section header paired with its filesystem entry.
///
/// Fails with `InvalidInput` exactly when an active section header
/// holds an enum byte that denotes no known value.
fn collect_active_sections(hp_vec: &Vec<u8>, sp_vec: &Vec<u8>) -> (r: Result<
    (Vec<FileSystemHeader>, Vec<FileSystemEntry>),
    NcaError,
>)
    requires
        hp_vec@.len() == 0x400,
        sp_vec@.len() == 0x800,
    ensures
        r is Ok <==> (forall|i: int|
            0 <= i < 4 ==> ((#[trigger] spec_entry_start(hp_vec@, i)) != 0
                ==> spec_section_enums_ok(sp_vec@, i))),
        r matches Ok(pair) ==> {
            &&& pair.0@.len() == spec_active_indices(hp_vec@).len()
            &&& pair.1@.len() == spec_active_indices(hp_vec@).len()
            &&& (forall|j: int|
                0 <= j < spec_active_indices(hp_vec@).len() ==> {
                    let idx = spec_active_indices(hp_vec@)[j];
                    &&& (#[trigger] pair.1@[j]).start_offset == spec_entry_start(hp_vec@, idx)
                    &&& pair.1@[j].end_offset == le32_at(hp_vec@, 0x244 + 16 * idx)
                    &&& spec_fsh_matches(pair.0@[j], sp_vec@, 0x200 * idx)
                })
        },
        r matches Err(e) ==> e == NcaError::InvalidInput,
{
    let mut fs_headers: Vec<FileSystemHeader> = Vec::new();
    let mut fs_entries_active: Vec<FileSystemEntry> = Vec::new();
    let ghost mut gidx: Seq<int> = Seq::empty();
    let mut i: usize = 0;
    while i < 4
        invariant
            0 <= i <= 4,
            hp_vec@.len() == 0x400,
            sp_vec@.len() == 0x800,
            fs_headers@.len() == gidx.len(),
            fs_entries_active@.len() == gidx.len(),
            spec_active_indices(hp_vec@) =~= gidx + spec_active_indices_from(hp_vec@, i as int),
            forall|j: int|
                0 <= j < gidx.len() ==> {
                    let idx = #[trigger] gidx[j];
                    &&& 0 <= idx < i
                    &&& fs_entries_active@[j].start_offset == spec_entry_start(hp_vec@, idx)
                    &&& fs_entries_active@[j].end_offset == le32_at(hp_vec@, 0x244 + 16 * idx)
                    &&& spec_fsh_matches(fs_headers@[j], sp_vec@, 0x200 * idx)
                },
            forall|k: int|
                0 <= k < i ==> ((#[trigger] spec_entry_start(hp_vec@, k)) != 0
                    ==> spec_section_enums_ok(sp_vec@, k)),
        decreases 4 - i,
    {
        let start = read_le32(hp_vec, 0x240 + 16 * i);
        proof {
            assert(start == spec_entry_start(hp_vec@, i as int));
        }
        if start != 0 {
            let fsh = match parse_fs_header(sp_vec, 0x200 * i) {
                Ok(f) => f,
                Err(_) => {
                    proof {
                        assert(!spec_section_enums_ok(sp_vec@, i as int));
                    }
                    return Err(NcaError::InvalidInput);
                },
            };
            let ent = FileSystemEntry {
                start_offset: start,
                end_offset: read_le32(hp_vec, 0x244 + 16 * i),
            };
            fs_headers.push(fsh);
            fs_entries_active.push(ent);
            proof {
                let iv = i as int;
                assert(spec_active_indices_from(hp_vec@, iv) =~= seq![iv]
                    + spec_active_indices_from(hp_vec@, iv + 1));
                let old_gidx = gidx;
                gidx = gidx.push(iv);
                assert(old_gidx + spec_active_indices_from(hp_vec@, iv) =~= gidx
                    + spec_active_indices_from(hp_vec@, iv + 1));
            }
        } else {
            proof {
                assert(spec_active_indices_from(hp_vec@, i as int) =~= spec_active_indices_from(
                    hp_vec@,
                    i as int + 1,
                ));
            }
        }
        i = i + 1;
    }
    proof {
        assert(spec_active_indices_from(hp_vec@, 4) =~= Seq::<int>::empty());
        assert(spec_active_indices(hp_vec@) =~= gidx);
    }
    Ok((fs_headers, fs_entries_active))
}

/// The active list elides absent slots and keeps slot order: from any
/// starting slot, the collected indices are exactly the slots at or
/// past it whose start offset is non-zero, in increasing order.
proof fn lemma_active_indices_from(hp: Seq<u8>, i: int)
    requires
        0 <= i <= 4,
    ensures
        forall|j: int|
            0 <= j < spec_active_indices_from(hp, i).len() ==> {
                let idx = #[trigger] spec_active_indices_from(hp, i)[j];
                i <= idx < 4 && spec_entry_start(hp, idx) != 0
            },
        forall|j1: int, j2: int|
            0 <= j1 < j2 < spec_active_indices_from(hp, i).len()
                ==> #[trigger] spec_active_indices_from(hp, i)[j1]
                < #[trigger] spec_active_indices_from(hp, i)[j2],
        forall|idx: int|
            i <= idx < 4 && (#[trigger] spec_entry_start(hp, idx)) != 0 ==> exists|j: int|
                0 <= j < spec_active_indices_from(hp, i).len()
                    && #[trigger] spec_active_indices_from(hp, i)[j] == idx,
    decreases 4 - i,
{
    if i < 4 {
        lemma_active_indices_from(hp, i + 1);
        let rest = spec_active_indices_from(hp, i + 1);
        if spec_entry_start(hp, i) != 0 {
            let cur = spec_active_indices_from(hp, i);
            assert(cur =~= seq![i] + rest);
            assert(cur[0] == i);
            assert forall|idx: int|
                i <= idx < 4 && (#[trigger] spec_entry_start(hp, idx)) != 0 implies exists|j: int|
                0 <= j < cur.len() && #[trigger] cur[j] == idx by {
                if idx == i {
                    assert(cur[0] == idx);
                } else {
                    let j2 = choose|j: int| 0 <= j < rest.len() && #[trigger] rest[j] == idx;
                    assert(cur[j2 + 1] == idx);
                }
            }
        } else {
            assert(spec_active_indices_from(hp, i) =~= rest);
        }
    }
}

/// Sections with a zero start offset are absent from the active list;
/// active indices are stable, zero-based and in slot order: the `j`-th
/// active section is the `j`-th slot of the header with a non-zero
/// start offset.
pub proof fn lemma_active_sections(hp: Seq<u8>)
    ensures
        forall|j: int|
            0 <= j < spec_active_indices(hp).len() ==> {
                let idx = #[trigger] spec_active_indices(hp)[j];
                0 <= idx < 4 && spec_entry_start(hp, idx) != 0
            },
        forall|j1: int, j2: int|
            0 <= j1 < j2 < spec_active_indices(hp).len() ==> #[trigger] spec_active_indices(
                hp,
            )[j1] < #[trigger] spec_active_indices(hp)[j2],
        forall|idx: int|
            0 <= idx < 4 && (#[trigger] spec_entry_start(hp, idx)) != 0 ==> exists|j: int|
                0 <= j < spec_active_indices(hp).len() && #[trigger] spec_active_indices(hp)[j]
                    == idx,
{
    lemma_active_indices_from(hp, 0);
    assert forall|idx: int|
        0 <= idx < 4 && (#[trigger] spec_entry_start(hp, idx)) != 0 implies exists|j: int|
        0 <= j < spec_active_indices(hp).len() && #[trigger] spec_active_indices(hp)[j]
            == idx by {
        let j0 = choose|j: int|
            0 <= j < spec_active_indices_from(hp, 0).len() && #[trigger] spec_active_indices_from(
                hp,
                0,
            )[j] == idx;
        assert(spec_active_indices(hp)[j0] == idx);
    }
}

/// Tests whether all sixteen bytes are zero.
fn all_zero_16(a: &[u8; 16]) -> (r: bool)
    ensures
        r == spec_all_zero(a@),
{
    let mut i: usize = 0;
    while i < 16
        invariant
            0 <= i <= 16,
            forall|k: int| 0 <= k < i ==> a@[k] == 0,
        decreases 16 - i,
    {
        if *vstd::array::array_index_get(a, i) != 0 {
            return false;
        }
        i = i + 1;
    }
    true
}

} // verus!
