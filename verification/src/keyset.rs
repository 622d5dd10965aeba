//! The key material an archive is opened with.

use vstd::prelude::*;

verus! {

/// Keys parsed from a console keyset by the caller: the 32-byte header
/// key for AES-XTS, the three families of key-area encryption keys
/// indexed by key generation, and the title-key encryption keys.
pub struct Keyset {
    pub header_key: [u8; 32],
    pub key_area_keys_application: Vec<[u8; 16]>,
    pub key_area_keys_ocean: Vec<[u8; 16]>,
    pub key_area_keys_system: Vec<[u8; 16]>,
    pub title_key_encryption_keys: Vec<[u8; 16]>,
}

} // verus!
