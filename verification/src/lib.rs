//! Read-only access to Nintendo Switch content archives (NCA version 3).
//!
//! An archive is an encrypted container holding up to four inner
//! filesystems, each either a flat partition filesystem (PFS0) or a
//! hierarchical read-only filesystem (RomFS).  The library decrypts the
//! archive header with AES-XTS, derives the per-section AES-CTR key, and
//! offers file-level reads through PFS0 and RomFS accessors layered on a
//! counter-mode region reader.

use vstd::prelude::*;

pub mod crypto;
mod err;
pub mod keyset;
pub mod lebytes;
pub mod nca;
pub mod pfs0;
pub mod region;
pub mod romfs;
mod text;

pub use err::NcaError;

verus! {

} // verus!
