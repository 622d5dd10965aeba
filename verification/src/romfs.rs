//! The hierarchical read-only filesystem (RomFS).
//!
//! A RomFS region holds a header, two hash tables of 32-bit bucket
//! heads, two metadata tables carrying the directory tree and the file
//! entries, and the file data.  A path is resolved component by
//! component: each name is hashed together with its parent directory's
//! metadata offset, and the bucket's chain is followed through
//! `next_hash` links until the name matches or the chain ends.

use vstd::prelude::*;
use vstd::string::StringSliceAdditionalSpecFns;
use vstd::utf8::{decode_utf8, valid_utf8};
use crate::err::NcaError;
use crate::lebytes::{bytes_to_vec, le32_at, le64_at, read_le32, read_le64};
use crate::region::Region;
use crate::text::string_from_utf8;

verus! {

broadcast use vstd::std_specs::vec::axiom_spec_len;

/// The table offset that marks the end of a chain or an absent child.
pub const NONE_OFFSET: u32 = 0xFFFFFFFF;

/// The 0x50-byte RomFS header: the location and size of the four
/// tables, and where the file data begins, all relative to the region.
#[derive(Clone, Copy, Debug, PartialEq, Eq, Structural)]
pub struct RomFsHeader {
    pub header_size: u64,
    pub dir_hash_table_offset: u64,
    pub dir_hash_table_size: u64,
    pub dir_meta_table_offset: u64,
    pub dir_meta_table_size: u64,
    pub file_hash_table_offset: u64,
    pub file_hash_table_size: u64,
    pub file_meta_table_offset: u64,
    pub file_meta_table_size: u64,
    pub data_offset: u64,
}

/// The header fields as laid out in the first 0x50 bytes of the
/// region.
pub open spec fn spec_parse_romfs_header(s: Seq<u8>) -> RomFsHeader {
    RomFsHeader {
        header_size: le64_at(s, 0),
        dir_hash_table_offset: le64_at(s, 8),
        dir_hash_table_size: le64_at(s, 16),
        dir_meta_table_offset: le64_at(s, 24),
        dir_meta_table_size: le64_at(s, 32),
        file_hash_table_offset: le64_at(s, 40),
        file_hash_table_size: le64_at(s, 48),
        file_meta_table_offset: le64_at(s, 56),
        file_meta_table_size: le64_at(s, 64),
        data_offset: le64_at(s, 72),
    }
}

/// One step of the name hash: rotate right by five, then mix in the
/// byte.
pub open spec fn spec_hash_step(h: u32, b: u8) -> u32 {
    ((h >> 5) | (h << 27)) ^ (b as u32)
}

/// The hash of the name bytes from position `i` on, starting from
/// accumulator `h`.
pub open spec fn spec_hash_iter(h: u32, name: Seq<u8>, i: int) -> u32
    decreases name.len() - i,
{
    if i < 0 || i >= name.len() {
        h
    } else {
        spec_hash_iter(spec_hash_step(h, name[i]), name, i + 1)
    }
}

/// The bucket hash of a name under its parent directory's metadata
/// offset.
pub open spec fn spec_name_hash(parent: u32, name: Seq<u8>) -> u32 {
    spec_hash_iter(parent ^ 123456789u32, name, 0)
}

/// Computes the bucket hash of a name under a parent offset.
pub fn name_hash(parent: u32, name: &[u8]) -> (r: u32)
    ensures
        r == spec_name_hash(parent, name@),
{
    let n = name.len();
    let mut h: u32 = parent ^ 123456789u32;
    let mut i: usize = 0;
    while i < n
        invariant
            0 <= i <= n,
            n == name@.len(),
            spec_hash_iter(h, name@, i as int) == spec_name_hash(parent, name@),
        decreases n - i,
    {
        let b = *vstd::slice::slice_index_get(name, i);
        h = ((h >> 5u32) | (h << 27u32)) ^ (b as u32);
        i = i + 1;
    }
    h
}

/// A directory entry of the metadata table, as a mathematical value.
pub struct SpecDirEntry {
    pub parent: u32,
    pub sibling: u32,
    pub child_dir: u32,
    pub child_file: u32,
    pub next_hash: u32,
    pub name: Seq<u8>,
}

/// A file entry of the metadata table, as a mathematical value.
pub struct SpecFileEntry {
    pub parent: u32,
    pub sibling: u32,
    pub data_offset: u64,
    pub data_size: u64,
    pub next_hash: u32,
    pub name: Seq<u8>,
}

/// The directory entry at byte offset `off` of the directory metadata
/// table.
pub open spec fn spec_dir_entry_at(meta: Seq<u8>, off: int) -> SpecDirEntry {
    SpecDirEntry {
        parent: le32_at(meta, off),
        sibling: le32_at(meta, off + 4),
        child_dir: le32_at(meta, off + 8),
        child_file: le32_at(meta, off + 12),
        next_hash: le32_at(meta, off + 16),
        name: meta.subrange(off + 24, off + 24 + le32_at(meta, off + 20) as int),
    }
}

/// Whether a whole directory entry lies inside the table.
pub open spec fn spec_dir_entry_ok(meta: Seq<u8>, off: int) -> bool {
    &&& 0 <= off
    &&& off + 24 <= meta.len()
    &&& off + 24 + le32_at(meta, off + 20) <= meta.len()
}

/// The file entry at byte offset `off` of the file metadata table.
pub open spec fn spec_file_entry_at(meta: Seq<u8>, off: int) -> SpecFileEntry {
    SpecFileEntry {
        parent: le32_at(meta, off),
        sibling: le32_at(meta, off + 4),
        data_offset: le64_at(meta, off + 8),
        data_size: le64_at(meta, off + 16),
        next_hash: le32_at(meta, off + 24),
        name: meta.subrange(off + 32, off + 32 + le32_at(meta, off + 28) as int),
    }
}

/// Whether a whole file entry lies inside the table.
pub open spec fn spec_file_entry_ok(meta: Seq<u8>, off: int) -> bool {
    &&& 0 <= off
    &&& off + 32 <= meta.len()
    &&& off + 32 + le32_at(meta, off + 28) <= meta.len()
}

/// The chain search for a file: follow `next_hash` links from `cur`
/// until an entry matches the parent and name, the chain ends, an
/// entry leaves the table, or the fuel — one more than the table can
/// hold — runs out.
pub open spec fn spec_find_file_from(
    meta: Seq<u8>,
    parent: u32,
    name: Seq<u8>,
    cur: u32,
    fuel: nat,
) -> Option<u32>
    decreases fuel,
{
    if fuel == 0 {
        None
    } else if cur == NONE_OFFSET {
        None
    } else if !spec_file_entry_ok(meta, cur as int) {
        None
    } else {
        let e = spec_file_entry_at(meta, cur as int);
        if e.parent == parent && e.name == name {
            Some(cur)
        } else {
            spec_find_file_from(meta, parent, name, e.next_hash, (fuel - 1) as nat)
        }
    }
}

/// The chain search for a directory, over the directory tables.
pub open spec fn spec_find_dir_from(
    meta: Seq<u8>,
    parent: u32,
    name: Seq<u8>,
    cur: u32,
    fuel: nat,
) -> Option<u32>
    decreases fuel,
{
    if fuel == 0 {
        None
    } else if cur == NONE_OFFSET {
        None
    } else if !spec_dir_entry_ok(meta, cur as int) {
        None
    } else {
        let e = spec_dir_entry_at(meta, cur as int);
        if e.parent == parent && e.name == name {
            Some(cur)
        } else {
            spec_find_dir_from(meta, parent, name, e.next_hash, (fuel - 1) as nat)
        }
    }
}

/// Splits path bytes on `/`, dropping empty components; `cur` is the
/// component read so far.
pub open spec fn spec_split_acc(p: Seq<u8>, cur: Seq<u8>) -> Seq<Seq<u8>>
    decreases p.len(),
{
    if p.len() == 0 {
        if cur.len() > 0 {
            seq![cur]
        } else {
            Seq::empty()
        }
    } else if p[0] == 47 {
        (if cur.len() > 0 {
            seq![cur]
        } else {
            Seq::empty()
        }) + spec_split_acc(p.subrange(1, p.len() as int), Seq::empty())
    } else {
        spec_split_acc(p.subrange(1, p.len() as int), cur.push(p[0]))
    }
}

/// The non-empty components of a path.
pub open spec fn spec_split(p: Seq<u8>) -> Seq<Seq<u8>> {
    spec_split_acc(p, Seq::empty())
}

/// Splits a byte path into its non-empty components.
fn split_path(path: &[u8]) -> (r: Vec<Vec<u8>>)
    ensures
        r.deep_view() == spec_split(path@),
{
    let n = path.len();
    let mut comps: Vec<Vec<u8>> = Vec::new();
    let mut cur: Vec<u8> = Vec::new();
    let mut j: usize = 0;
    proof {
        assert(path@.subrange(0, n as int) =~= path@);
        assert(comps.deep_view() =~~= Seq::<Seq<u8>>::empty());
        assert(spec_split(path@) =~~= comps.deep_view() + spec_split_acc(
            path@.subrange(0, n as int),
            cur@,
        ));
    }
    while j < n
        invariant
            0 <= j <= n,
            n == path@.len(),
            spec_split(path@) =~~= comps.deep_view() + spec_split_acc(
                path@.subrange(j as int, n as int),
                cur@,
            ),
        decreases n - j,
    {
        let ghost rest = path@.subrange(j as int, n as int);
        let b = *vstd::slice::slice_index_get(path, j);
        proof {
            assert(rest[0] == b);
            assert(rest.subrange(1, rest.len() as int) =~= path@.subrange(j + 1, n as int));
        }
        if b == 47 {
            if cur.len() > 0 {
                let ghost old_comps = comps.deep_view();
                let ghost old_cur = cur@;
                comps.push(cur);
                cur = Vec::new();
                proof {
                    assert(comps.deep_view() =~~= old_comps + seq![old_cur]);
                    assert((old_comps + seq![old_cur]) + spec_split_acc(
                        path@.subrange(j + 1, n as int),
                        Seq::empty(),
                    ) =~~= old_comps + (seq![old_cur] + spec_split_acc(
                        path@.subrange(j + 1, n as int),
                        Seq::empty(),
                    )));
                }
            } else {
                proof {
                    assert(cur@ =~= Seq::<u8>::empty());
                    assert(Seq::<Seq<u8>>::empty() + spec_split_acc(
                        path@.subrange(j + 1, n as int),
                        Seq::empty(),
                    ) =~~= spec_split_acc(path@.subrange(j + 1, n as int), Seq::empty()));
                }
            }
        } else {
            cur.push(b);
        }
        j = j + 1;
    }
    proof {
        assert(path@.subrange(n as int, n as int) =~= Seq::<u8>::empty());
    }
    if cur.len() > 0 {
        let ghost old_comps = comps.deep_view();
        let ghost old_cur = cur@;
        comps.push(cur);
        proof {
            assert(comps.deep_view() =~~= old_comps + seq![old_cur]);
            assert(spec_split(path@) =~~= comps.deep_view());
        }
    } else {
        proof {
            assert(spec_split(path@) =~~= comps.deep_view() + Seq::<Seq<u8>>::empty());
            assert(spec_split(path@) =~~= comps.deep_view());
        }
    }
    comps
}

/// Compares `len` bytes of `v` at `off` with `name`.
fn bytes_match(v: &Vec<u8>, off: usize, len: usize, name: &[u8]) -> (r: bool)
    requires
        off + len <= v@.len(),
    ensures
        r == (v@.subrange(off as int, off + len) == name@),
{
    proof {
        vstd::std_specs::vec::axiom_spec_len(v);
    }
    let n = name.len();
    if n != len {
        proof {
            assert(v@.subrange(off as int, off + len).len() == len);
        }
        return false;
    }
    let mut i: usize = 0;
    while i < len
        invariant
            0 <= i <= len,
            off + len <= v@.len(),
            v@.len() <= usize::MAX,
            len == name@.len(),
            forall|k: int| 0 <= k < i ==> v@[off + k] == name@[k],
        decreases len - i,
    {
        if v[off + i] != *vstd::slice::slice_index_get(name, i) {
            proof {
                assert(v@.subrange(off as int, off + len)[i as int] != name@[i as int]);
            }
            return false;
        }
        i = i + 1;
    }
    proof {
        assert(v@.subrange(off as int, off + len) =~= name@);
    }
    true
}

/// A parsed RomFS over a readable region: the header and the four
/// tables, loaded eagerly and kept for the reader's lifetime.
pub struct RomFs {
    pub reader: Region,
    pub header: RomFsHeader,
    pub dir_hash_table: Vec<u32>,
    pub dir_meta_table: Vec<u8>,
    pub file_hash_table: Vec<u32>,
    pub file_meta_table: Vec<u8>,
}

impl RomFs {
    /// The chain lookup of a file name under a parent directory:
    /// hash, pick the bucket, walk the chain.
    pub open spec fn spec_file_lookup(self, parent: u32, name: Seq<u8>) -> Option<u32> {
        if self.file_hash_table@.len() == 0 {
            None
        } else {
            let bucket = spec_name_hash(parent, name) as int % (self.file_hash_table@.len() as int);
            spec_find_file_from(
                self.file_meta_table@,
                parent,
                name,
                self.file_hash_table@[bucket],
                (self.file_meta_table@.len() + 1) as nat,
            )
        }
    }

    /// The chain lookup of a directory name under a parent directory.
    pub open spec fn spec_dir_lookup(self, parent: u32, name: Seq<u8>) -> Option<u32> {
        if self.dir_hash_table@.len() == 0 {
            None
        } else {
            let bucket = spec_name_hash(parent, name) as int % (self.dir_hash_table@.len() as int);
            spec_find_dir_from(
                self.dir_meta_table@,
                parent,
                name,
                self.dir_hash_table@[bucket],
                (self.dir_meta_table@.len() + 1) as nat,
            )
        }
    }

    /// Resolves directory components from `i` on, starting at the
    /// directory whose metadata offset is `cur`.
    pub open spec fn spec_resolve_dir(self, comps: Seq<Seq<u8>>, i: int, cur: u32) -> Option<u32>
        decreases comps.len() - i,
    {
        if i < 0 || i >= comps.len() {
            Some(cur)
        } else {
            match self.spec_dir_lookup(cur, comps[i]) {
                Some(d) => self.spec_resolve_dir(comps, i + 1, d),
                None => None,
            }
        }
    }

    /// Resolves a byte path to a file entry's metadata offset: all but
    /// the last component through the directory tables from the root,
    /// the last through the file tables.
    pub open spec fn spec_resolve_file(self, path: Seq<u8>) -> Option<u32> {
        let comps = spec_split(path);
        if comps.len() == 0 {
            None
        } else {
            match self.spec_resolve_dir(comps.subrange(0, comps.len() - 1), 0, 0u32) {
                Some(d) => self.spec_file_lookup(d, comps[comps.len() - 1]),
                None => None,
            }
        }
    }

    /// Resolves a byte path to a directory entry's metadata offset; an
    /// empty path names the root.
    pub open spec fn spec_resolve_dir_path(self, path: Seq<u8>) -> Option<u32> {
        self.spec_resolve_dir(spec_split(path), 0, 0u32)
    }

    /// Whether a path names a file of the filesystem.
    pub open spec fn spec_exists_file(self, path: Seq<u8>) -> bool {
        self.spec_resolve_file(path) is Some
    }

    /// Walks a file hash chain from `start`.
    fn find_file_from(&self, parent: u32, name: &[u8], start: u32) -> (r: Option<u32>)
        ensures
            r == spec_find_file_from(
                self.file_meta_table@,
                parent,
                name@,
                start,
                (self.file_meta_table@.len() + 1) as nat,
            ),
    {
        let meta_len = self.file_meta_table.len();
        let mut cur: u32 = start;
        let mut fuel: u128 = meta_len as u128 + 1;
        let ghost target = spec_find_file_from(
            self.file_meta_table@,
            parent,
            name@,
            start,
            (meta_len + 1) as nat,
        );
        while fuel > 0
            invariant
                meta_len == self.file_meta_table@.len(),
                fuel <= meta_len as int + 1,
                target == spec_find_file_from(
                    self.file_meta_table@,
                    parent,
                    name@,
                    start,
                    (self.file_meta_table@.len() + 1) as nat,
                ),
                spec_find_file_from(self.file_meta_table@, parent, name@, cur, fuel as nat)
                    == target,
            decreases fuel,
        {
            if cur == NONE_OFFSET {
                return None;
            }
            let curu: usize = cur as usize;
            if (curu as u64) + 32 > meta_len as u64 {
                return None;
            }
            let name_len = read_le32(&self.file_meta_table, curu + 28);
            if (curu as u64) + 32 + (name_len as u64) > meta_len as u64 {
                return None;
            }
            let e_parent = read_le32(&self.file_meta_table, curu);
            if e_parent == parent && bytes_match(
                &self.file_meta_table,
                curu + 32,
                name_len as usize,
                name,
            ) {
                return Some(cur);
            }
            cur = read_le32(&self.file_meta_table, curu + 24);
            fuel = fuel - 1;
        }
        None
    }

    /// Walks a directory hash chain from `start`.
    fn find_dir_from(&self, parent: u32, name: &[u8], start: u32) -> (r: Option<u32>)
        ensures
            r == spec_find_dir_from(
                self.dir_meta_table@,
                parent,
                name@,
                start,
                (self.dir_meta_table@.len() + 1) as nat,
            ),
    {
        let meta_len = self.dir_meta_table.len();
        let mut cur: u32 = start;
        let mut fuel: u128 = meta_len as u128 + 1;
        let ghost target = spec_find_dir_from(
            self.dir_meta_table@,
            parent,
            name@,
            start,
            (meta_len + 1) as nat,
        );
        while fuel > 0
            invariant
                meta_len == self.dir_meta_table@.len(),
                fuel <= meta_len as int + 1,
                target == spec_find_dir_from(
                    self.dir_meta_table@,
                    parent,
                    name@,
                    start,
                    (self.dir_meta_table@.len() + 1) as nat,
                ),
                spec_find_dir_from(self.dir_meta_table@, parent, name@, cur, fuel as nat)
                    == target,
            decreases fuel,
        {
            if cur == NONE_OFFSET {
                return None;
            }
            let curu: usize = cur as usize;
            if (curu as u64) + 24 > meta_len as u64 {
                return None;
            }
            let name_len = read_le32(&self.dir_meta_table, curu + 20);
            if (curu as u64) + 24 + (name_len as u64) > meta_len as u64 {
                return None;
            }
            let e_parent = read_le32(&self.dir_meta_table, curu);
            if e_parent == parent && bytes_match(
                &self.dir_meta_table,
                curu + 24,
                name_len as usize,
                name,
            ) {
                return Some(cur);
            }
            cur = read_le32(&self.dir_meta_table, curu + 16);
            fuel = fuel - 1;
        }
        None
    }

    /// Looks a file name up under a parent directory.
    fn find_file(&self, parent: u32, name: &[u8]) -> (r: Option<u32>)
        ensures
            r == self.spec_file_lookup(parent, name@),
    {
        let n = self.file_hash_table.len();
        if n == 0 {
            return None;
        }
        let bucket: usize = (name_hash(parent, name) as usize) % n;
        self.find_file_from(parent, name, self.file_hash_table[bucket])
    }

    /// Looks a directory name up under a parent directory.
    fn find_dir(&self, parent: u32, name: &[u8]) -> (r: Option<u32>)
        ensures
            r == self.spec_dir_lookup(parent, name@),
    {
        let n = self.dir_hash_table.len();
        if n == 0 {
            return None;
        }
        let bucket: usize = (name_hash(parent, name) as usize) % n;
        self.find_dir_from(parent, name, self.dir_hash_table[bucket])
    }

    /// Resolves the first `upto` components as directories from the
    /// root.
    fn resolve_dir(&self, comps: &Vec<Vec<u8>>, upto: usize) -> (r: Option<u32>)
        requires
            upto <= comps@.len(),
        ensures
            r == self.spec_resolve_dir(comps.deep_view().subrange(0, upto as int), 0, 0u32),
    {
        let ghost pref = comps.deep_view().subrange(0, upto as int);
        let ghost target = self.spec_resolve_dir(pref, 0, 0u32);
        let mut cur: u32 = 0;
        let mut i: usize = 0;
        while i < upto
            invariant
                0 <= i <= upto,
                upto <= comps@.len(),
                pref == comps.deep_view().subrange(0, upto as int),
                target == self.spec_resolve_dir(pref, 0, 0u32),
                self.spec_resolve_dir(pref, i as int, cur) == target,
            decreases upto - i,
        {
            proof {
                assert(pref[i as int] == comps@[i as int].deep_view());
                assert(comps@[i as int].deep_view() =~= comps@[i as int]@);
            }
            let d = match self.find_dir(cur, comps[i].as_slice()) {
                Some(d) => d,
                None => {
                    return None;
                },
            };
            cur = d;
            i = i + 1;
        }
        Some(cur)
    }
}

/// Parses a byte buffer as an array of little-endian 32-bit values.
fn parse_u32_table(bytes: &Vec<u8>) -> (r: Vec<u32>)
    requires
        bytes@.len() % 4 == 0,
    ensures
        r@.len() == bytes@.len() as int / 4,
        forall|k: int| 0 <= k < r@.len() ==> (#[trigger] r@[k]) == le32_at(bytes@, 4 * k),
{
    let n = bytes.len();
    let count = n / 4;
    let mut r: Vec<u32> = Vec::new();
    let mut i: usize = 0;
    while i < count
        invariant
            0 <= i <= count,
            n == bytes@.len(),
            count == n as int / 4,
            4 * count <= n,
            r@.len() == i,
            forall|k: int| 0 <= k < i ==> (#[trigger] r@[k]) == le32_at(bytes@, 4 * k),
        decreases count - i,
    {
        proof {
            assert(4 * i + 4 <= 4 * count) by (nonlinear_arith)
                requires i < count;
        }
        r.push(read_le32(bytes, 4 * i));
        i = i + 1;
    }
    r
}

/// Reads `size` bytes at region offset `off`, as one table.
fn read_table(reader: &Region, off: u64, size: u64) -> (r: Result<Vec<u8>, NcaError>)
    ensures
        r is Ok <==> (size == 0 || off + size <= reader.avail()),
        r matches Ok(v) ==> v@ == reader.plain_range(off as int, size as int),
        r matches Err(e) ==> e == NcaError::Io,
{
    proof {
        reader.lemma_avail_bound();
    }
    if size > usize::MAX as u64 {
        return Err(NcaError::Io);
    }
    match reader.read_exact_at(off, size as usize) {
        Ok(v) => Ok(v),
        Err(_) => Err(NcaError::Io),
    }
}

impl RomFs {
    /// The loaded tables are exactly what the region's plaintext
    /// holds, at the places the header names.
    pub open spec fn wf(self) -> bool {
        let h = self.header;
        &&& self.header == spec_parse_romfs_header(self.reader.plain_range(0, 0x50))
        &&& self.dir_hash_table@.len() == h.dir_hash_table_size as int / 4
        &&& (forall|k: int|
            0 <= k < self.dir_hash_table@.len() ==> (#[trigger] self.dir_hash_table@[k])
                == le32_at(
                self.reader.plain_range(
                    h.dir_hash_table_offset as int,
                    h.dir_hash_table_size as int,
                ),
                4 * k,
            ))
        &&& self.dir_meta_table@ == self.reader.plain_range(
            h.dir_meta_table_offset as int,
            h.dir_meta_table_size as int,
        )
        &&& self.file_hash_table@.len() == h.file_hash_table_size as int / 4
        &&& (forall|k: int|
            0 <= k < self.file_hash_table@.len() ==> (#[trigger] self.file_hash_table@[k])
                == le32_at(
                self.reader.plain_range(
                    h.file_hash_table_offset as int,
                    h.file_hash_table_size as int,
                ),
                4 * k,
            ))
        &&& self.file_meta_table@ == self.reader.plain_range(
            h.file_meta_table_offset as int,
            h.file_meta_table_size as int,
        )
    }

    /// Parses a RomFS from the start of `reader`: reads the header and
    /// loads the four tables eagerly.
    ///
    /// Fails with `Io` when the region is too short for the header or
    /// a table, and with `InvalidInput` when a hash table's size is
    /// not a whole number of 32-bit entries.
    pub fn new(reader: Region) -> (r: Result<RomFs, NcaError>)
        ensures
            ({
                let h = spec_parse_romfs_header(reader.plain_range(0, 0x50));
                let sizes_ok = h.dir_hash_table_size % 4 == 0 && h.file_hash_table_size % 4 == 0;
                let tables_in = (h.dir_hash_table_size == 0 || h.dir_hash_table_offset
                    + h.dir_hash_table_size <= reader.avail()) && (h.dir_meta_table_size == 0
                    || h.dir_meta_table_offset + h.dir_meta_table_size <= reader.avail()) && (
                h.file_hash_table_size == 0 || h.file_hash_table_offset + h.file_hash_table_size
                    <= reader.avail()) && (h.file_meta_table_size == 0 || h.file_meta_table_offset
                    + h.file_meta_table_size <= reader.avail());
                &&& (reader.avail() < 0x50 ==> r == Result::<RomFs, NcaError>::Err(NcaError::Io))
                &&& (reader.avail() >= 0x50 && !sizes_ok ==> r == Result::<RomFs, NcaError>::Err(
                    NcaError::InvalidInput,
                ))
                &&& (reader.avail() >= 0x50 && sizes_ok && !tables_in ==> r == Result::<
                    RomFs,
                    NcaError,
                >::Err(NcaError::Io))
                &&& (reader.avail() >= 0x50 && sizes_ok && tables_in ==> (r matches Ok(f)
                    && f.wf() && f.header == h && f.reader == reader))
            }),
    {
        let hdr_bytes = match reader.read_exact_at(0, 0x50) {
            Ok(v) => v,
            Err(_) => {
                return Err(NcaError::Io);
            },
        };
        let header = RomFsHeader {
            header_size: read_le64(&hdr_bytes, 0),
            dir_hash_table_offset: read_le64(&hdr_bytes, 8),
            dir_hash_table_size: read_le64(&hdr_bytes, 16),
            dir_meta_table_offset: read_le64(&hdr_bytes, 24),
            dir_meta_table_size: read_le64(&hdr_bytes, 32),
            file_hash_table_offset: read_le64(&hdr_bytes, 40),
            file_hash_table_size: read_le64(&hdr_bytes, 48),
            file_meta_table_offset: read_le64(&hdr_bytes, 56),
            file_meta_table_size: read_le64(&hdr_bytes, 64),
            data_offset: read_le64(&hdr_bytes, 72),
        };
        if header.dir_hash_table_size % 4 != 0 || header.file_hash_table_size % 4 != 0 {
            return Err(NcaError::InvalidInput);
        }
        let dht_bytes = match read_table(&reader, header.dir_hash_table_offset,
            header.dir_hash_table_size) {
            Ok(v) => v,
            Err(e) => {
                return Err(e);
            },
        };
        let dmt_bytes = match read_table(&reader, header.dir_meta_table_offset,
            header.dir_meta_table_size) {
            Ok(v) => v,
            Err(e) => {
                return Err(e);
            },
        };
        let fht_bytes = match read_table(&reader, header.file_hash_table_offset,
            header.file_hash_table_size) {
            Ok(v) => v,
            Err(e) => {
                return Err(e);
            },
        };
        let fmt_bytes = match read_table(&reader, header.file_meta_table_offset,
            header.file_meta_table_size) {
            Ok(v) => v,
            Err(e) => {
                return Err(e);
            },
        };
        let dir_hash_table = parse_u32_table(&dht_bytes);
        let file_hash_table = parse_u32_table(&fht_bytes);
        Ok(
            RomFs {
                reader,
                header,
                dir_hash_table,
                dir_meta_table: dmt_bytes,
                file_hash_table,
                file_meta_table: fmt_bytes,
            },
        )
    }

    /// Whether a path names a file of the filesystem.
    pub fn exists_file(&self, path: &str) -> (r: bool)
        ensures
            r == self.spec_exists_file(path.spec_bytes()),
    {
        let bytes = path.as_bytes();
        let comps = split_path(bytes);
        let nc = comps.len();
        if nc == 0 {
            return false;
        }
        let parent = match self.resolve_dir(&comps, nc - 1) {
            Some(d) => d,
            None => {
                return false;
            },
        };
        proof {
            assert(comps.deep_view()[nc - 1] =~= comps@[nc - 1]@);
        }
        let found = self.find_file(parent, comps[nc - 1].as_slice());
        found.is_some()
    }

    /// The metadata offset of the file a path names, or the error the
    /// user-facing operations report.
    fn resolve_file(&self, path: &str) -> (r: Result<u32, NcaError>)
        ensures
            self.spec_resolve_file(path.spec_bytes()) is None ==> r == Result::<u32, NcaError>::Err(
                NcaError::Unsupported,
            ),
            self.spec_resolve_file(path.spec_bytes()) matches Some(off) ==> r == Result::<
                u32,
                NcaError,
            >::Ok(off),
    {
        let bytes = path.as_bytes();
        let comps = split_path(bytes);
        let nc = comps.len();
        if nc == 0 {
            return Err(NcaError::Unsupported);
        }
        let parent = match self.resolve_dir(&comps, nc - 1) {
            Some(d) => d,
            None => {
                return Err(NcaError::Unsupported);
            },
        };
        proof {
            assert(comps.deep_view()[nc - 1] =~= comps@[nc - 1]@);
        }
        match self.find_file(parent, comps[nc - 1].as_slice()) {
            Some(off) => Ok(off),
            None => Err(NcaError::Unsupported),
        }
    }

    /// The size of the file a path names.
    ///
    /// Fails with `Unsupported` when the path names no file.
    pub fn get_file_size(&self, path: &str) -> (r: Result<u64, NcaError>)
        ensures
            self.spec_resolve_file(path.spec_bytes()) is None ==> r == Result::<u64, NcaError>::Err(
                NcaError::Unsupported,
            ),
            self.spec_resolve_file(path.spec_bytes()) matches Some(off) ==> r == Result::<
                u64,
                NcaError,
            >::Ok(spec_file_entry_at(self.file_meta_table@, off as int).data_size),
    {
        let off = match self.resolve_file(path) {
            Ok(o) => o,
            Err(e) => {
                return Err(e);
            },
        };
        proof {
            lemma_resolve_file_some_ok(*self, path.spec_bytes());
            vstd::std_specs::vec::axiom_spec_len(&self.file_meta_table);
        }
        Ok(read_le64(&self.file_meta_table, off as usize + 16))
    }

    /// Fills `buf` with the named file's bytes starting at `offset`
    /// within the file, and returns how many bytes were read.
    ///
    /// Fails with `Unsupported` when the path names no file, with
    /// `OutOfRange` when `offset + buf.len()` exceeds the file's size,
    /// and with `Io` when the region ends before the requested range;
    /// `buf` is then unchanged.
    pub fn read_file(&self, path: &str, offset: u64, buf: &mut Vec<u8>) -> (r: Result<
        usize,
        NcaError,
    >)
        ensures
            self.spec_resolve_file(path.spec_bytes()) is None ==> r == Result::<
                usize,
                NcaError,
            >::Err(NcaError::Unsupported) && *final(buf) == *old(buf),
            self.spec_resolve_file(path.spec_bytes()) matches Some(off) ==> ({
                let e = spec_file_entry_at(self.file_meta_table@, off as int);
                let pos = self.header.data_offset + e.data_offset + offset;
                let len = old(buf)@.len() as int;
                &&& (offset + len > e.data_size ==> r == Result::<usize, NcaError>::Err(
                    NcaError::OutOfRange,
                ) && *final(buf) == *old(buf))
                &&& (offset + len <= e.data_size ==> {
                    &&& (r is Ok <==> (len == 0 || pos + len <= self.reader.avail()))
                    &&& (r matches Ok(n) ==> n == len && final(buf)@ == Seq::new(
                        len as nat,
                        |k: int| self.reader.plain_at(pos + k),
                    ))
                    &&& (r is Err ==> r == Result::<usize, NcaError>::Err(NcaError::Io)
                        && *final(buf) == *old(buf))
                })
            }),
    {
        let off = match self.resolve_file(path) {
            Ok(o) => o,
            Err(e) => {
                return Err(e);
            },
        };
        proof {
            lemma_resolve_file_some_ok(*self, path.spec_bytes());
            vstd::std_specs::vec::axiom_spec_len(&self.file_meta_table);
        }
        let data_offset = read_le64(&self.file_meta_table, off as usize + 8);
        let data_size = read_le64(&self.file_meta_table, off as usize + 16);
        let len = buf.len();
        let want128: u128 = (offset as u128) + (len as u128);
        if want128 > data_size as u128 {
            return Err(NcaError::OutOfRange);
        }
        if len == 0 {
            let empty: Vec<u8> = Vec::new();
            *buf = empty;
            proof {
                assert(final(buf)@ =~= Seq::new(
                    0,
                    |k: int| self.reader.plain_at(
                        self.header.data_offset + data_offset + offset + k,
                    ),
                ));
            }
            return Ok(0);
        }
        proof {
            self.reader.lemma_avail_bound();
        }
        let pos128: u128 = (self.header.data_offset as u128) + (data_offset as u128) + (
        offset as u128);
        if pos128 > u64::MAX as u128 {
            return Err(NcaError::Io);
        }
        match self.reader.read_exact_at(pos128 as u64, len) {
            Ok(v) => {
                *buf = v;
                Ok(len)
            },
            Err(_) => Err(NcaError::Io),
        }
    }

    /// An iterator over the named directory's immediate children:
    /// first its subdirectories, then its files.  The iterator holds
    /// its own copy of the tables and outlives the filesystem.
    ///
    /// Fails with `Unsupported` when the path names no directory, and
    /// with `InvalidInput` when the directory's entry is malformed.
    pub fn open_dir_iterator(&self, path: &str) -> (r: Result<DirIter, NcaError>)
        ensures
            self.spec_resolve_dir_path(path.spec_bytes()) is None ==> r == Result::<
                DirIter,
                NcaError,
            >::Err(NcaError::Unsupported),
            self.spec_resolve_dir_path(path.spec_bytes()) matches Some(d) ==> ({
                if spec_dir_entry_ok(self.dir_meta_table@, d as int) {
                    let e = spec_dir_entry_at(self.dir_meta_table@, d as int);
                    r matches Ok(it) && it.dir_meta@ == self.dir_meta_table@ && it.file_meta@
                        == self.file_meta_table@ && it.cur_dir == e.child_dir && it.cur_file
                        == e.child_file
                } else {
                    r == Result::<DirIter, NcaError>::Err(NcaError::InvalidInput)
                }
            }),
    {
        let bytes = path.as_bytes();
        let comps = split_path(bytes);
        proof {
            assert(comps.deep_view().subrange(0, comps.deep_view().len() as int)
                =~~= comps.deep_view());
        }
        let d = match self.resolve_dir(&comps, comps.len()) {
            Some(d) => d,
            None => {
                return Err(NcaError::Unsupported);
            },
        };
        let meta_len = self.dir_meta_table.len();
        let du: usize = d as usize;
        if (du as u64) + 24 > meta_len as u64 {
            return Err(NcaError::InvalidInput);
        }
        let name_len = read_le32(&self.dir_meta_table, du + 20);
        if (du as u64) + 24 + (name_len as u64) > meta_len as u64 {
            return Err(NcaError::InvalidInput);
        }
        let child_dir = read_le32(&self.dir_meta_table, du + 8);
        let child_file = read_le32(&self.dir_meta_table, du + 12);
        let dm = bytes_to_vec(&self.dir_meta_table, 0, meta_len);
        let fm = bytes_to_vec(&self.file_meta_table, 0, self.file_meta_table.len());
        proof {
            assert(dm@ =~= self.dir_meta_table@);
            assert(fm@ =~= self.file_meta_table@);
        }
        Ok(DirIter { dir_meta: dm, file_meta: fm, cur_dir: child_dir, cur_file: child_file })
    }
}

/// A found file is a whole entry of the table that carries the looked
/// up parent and name.
pub proof fn lemma_find_file_some(meta: Seq<u8>, parent: u32, name: Seq<u8>, cur: u32, fuel: nat)
    requires
        spec_find_file_from(meta, parent, name, cur, fuel) is Some,
    ensures
        ({
            let off = spec_find_file_from(meta, parent, name, cur, fuel).unwrap();
            &&& spec_file_entry_ok(meta, off as int)
            &&& spec_file_entry_at(meta, off as int).parent == parent
            &&& spec_file_entry_at(meta, off as int).name == name
        }),
    decreases fuel,
{
    if fuel > 0 && cur != NONE_OFFSET && spec_file_entry_ok(meta, cur as int) {
        let e = spec_file_entry_at(meta, cur as int);
        if !(e.parent == parent && e.name == name) {
            lemma_find_file_some(meta, parent, name, e.next_hash, (fuel - 1) as nat);
        }
    }
}

/// A path that resolves to a file resolves to a whole entry with the
/// resolved parent and final component as its name.
pub proof fn lemma_resolve_file_some_ok(fs: RomFs, path: Seq<u8>)
    requires
        fs.spec_resolve_file(path) is Some,
    ensures
        spec_file_entry_ok(fs.file_meta_table@, fs.spec_resolve_file(path).unwrap() as int),
{
    let comps = spec_split(path);
    let parent = fs.spec_resolve_dir(comps.subrange(0, comps.len() - 1), 0, 0u32).unwrap();
    let name = comps[comps.len() - 1];
    if fs.file_hash_table@.len() != 0 {
        let bucket = spec_name_hash(parent, name) as int % (fs.file_hash_table@.len() as int);
        lemma_find_file_some(
            fs.file_meta_table@,
            parent,
            name,
            fs.file_hash_table@[bucket],
            (fs.file_meta_table@.len() + 1) as nat,
        );
    }
}

/// Whether walking `next_hash` links from `cur` reaches the entry at
/// `target` within `fuel` steps, passing only whole entries.
pub open spec fn spec_file_chain_contains(meta: Seq<u8>, cur: u32, target: u32, fuel: nat) -> bool
    decreases fuel,
{
    if fuel == 0 {
        false
    } else if cur == NONE_OFFSET {
        false
    } else if !spec_file_entry_ok(meta, cur as int) {
        false
    } else if cur == target {
        true
    } else {
        spec_file_chain_contains(
            meta,
            spec_file_entry_at(meta, cur as int).next_hash,
            target,
            (fuel - 1) as nat,
        )
    }
}

/// Whether walking directory `next_hash` links from `cur` reaches the
/// entry at `target` within `fuel` steps, passing only whole entries.
pub open spec fn spec_dir_chain_contains(meta: Seq<u8>, cur: u32, target: u32, fuel: nat) -> bool
    decreases fuel,
{
    if fuel == 0 {
        false
    } else if cur == NONE_OFFSET {
        false
    } else if !spec_dir_entry_ok(meta, cur as int) {
        false
    } else if cur == target {
        true
    } else {
        spec_dir_chain_contains(
            meta,
            spec_dir_entry_at(meta, cur as int).next_hash,
            target,
            (fuel - 1) as nat,
        )
    }
}

/// A file entry reachable along a chain is found by the chain search
/// under its own parent and name: the walk stops at it, or at an
/// earlier entry that carries the same parent and name.
pub proof fn lemma_file_chain_finds(meta: Seq<u8>, cur: u32, target: u32, fuel: nat)
    requires
        spec_file_chain_contains(meta, cur, target, fuel),
    ensures
        spec_find_file_from(
            meta,
            spec_file_entry_at(meta, target as int).parent,
            spec_file_entry_at(meta, target as int).name,
            cur,
            fuel,
        ) is Some,
    decreases fuel,
{
    let e = spec_file_entry_at(meta, cur as int);
    let te = spec_file_entry_at(meta, target as int);
    if cur != target && !(e.parent == te.parent && e.name == te.name) {
        lemma_file_chain_finds(meta, e.next_hash, target, (fuel - 1) as nat);
    }
}

/// A directory entry reachable along a chain is found by the chain
/// search under its own parent and name.
pub proof fn lemma_dir_chain_finds(meta: Seq<u8>, cur: u32, target: u32, fuel: nat)
    requires
        spec_dir_chain_contains(meta, cur, target, fuel),
    ensures
        spec_find_dir_from(
            meta,
            spec_dir_entry_at(meta, target as int).parent,
            spec_dir_entry_at(meta, target as int).name,
            cur,
            fuel,
        ) is Some,
    decreases fuel,
{
    let e = spec_dir_entry_at(meta, cur as int);
    let te = spec_dir_entry_at(meta, target as int);
    if cur != target && !(e.parent == te.parent && e.name == te.name) {
        lemma_dir_chain_finds(meta, e.next_hash, target, (fuel - 1) as nat);
    }
}

impl RomFs {
    /// The name-hash tables work: every file entry linked into the
    /// bucket its parent and name select is found by the bucket
    /// lookup.
    pub proof fn lemma_file_hash_reaches(self, target: u32)
        requires
            self.file_hash_table@.len() > 0,
            ({
                let te = spec_file_entry_at(self.file_meta_table@, target as int);
                let bucket = spec_name_hash(te.parent, te.name) as int % (
                self.file_hash_table@.len() as int);
                spec_file_chain_contains(
                    self.file_meta_table@,
                    self.file_hash_table@[bucket],
                    target,
                    (self.file_meta_table@.len() + 1) as nat,
                )
            }),
        ensures
            ({
                let te = spec_file_entry_at(self.file_meta_table@, target as int);
                self.spec_file_lookup(te.parent, te.name) is Some
            }),
    {
        let te = spec_file_entry_at(self.file_meta_table@, target as int);
        let bucket = spec_name_hash(te.parent, te.name) as int % (
        self.file_hash_table@.len() as int);
        lemma_file_chain_finds(
            self.file_meta_table@,
            self.file_hash_table@[bucket],
            target,
            (self.file_meta_table@.len() + 1) as nat,
        );
    }

    /// The name-hash tables work for directories too: every directory
    /// entry linked into the bucket its parent and name select is
    /// found by the bucket lookup.
    pub proof fn lemma_dir_hash_reaches(self, target: u32)
        requires
            self.dir_hash_table@.len() > 0,
            ({
                let te = spec_dir_entry_at(self.dir_meta_table@, target as int);
                let bucket = spec_name_hash(te.parent, te.name) as int % (
                self.dir_hash_table@.len() as int);
                spec_dir_chain_contains(
                    self.dir_meta_table@,
                    self.dir_hash_table@[bucket],
                    target,
                    (self.dir_meta_table@.len() + 1) as nat,
                )
            }),
        ensures
            ({
                let te = spec_dir_entry_at(self.dir_meta_table@, target as int);
                self.spec_dir_lookup(te.parent, te.name) is Some
            }),
    {
        let te = spec_dir_entry_at(self.dir_meta_table@, target as int);
        let bucket = spec_name_hash(te.parent, te.name) as int % (
        self.dir_hash_table@.len() as int);
        lemma_dir_chain_finds(
            self.dir_meta_table@,
            self.dir_hash_table@[bucket],
            target,
            (self.dir_meta_table@.len() + 1) as nat,
        );
    }

    /// A path that names a file can be sized and fully read: the
    /// resolved entry is whole, a size query is owed success by the
    /// size contract, and — when the file's data lies inside the
    /// readable region — a read of the whole file from offset zero
    /// meets every bound the read contract checks.
    pub proof fn lemma_exists_file_readable(self, path: Seq<u8>)
        requires
            self.spec_exists_file(path),
            ({
                let e = spec_file_entry_at(
                    self.file_meta_table@,
                    self.spec_resolve_file(path).unwrap() as int,
                );
                self.header.data_offset + e.data_offset + e.data_size <= self.reader.avail()
            }),
        ensures
            self.spec_resolve_file(path) is Some,
            spec_file_entry_ok(self.file_meta_table@, self.spec_resolve_file(path).unwrap() as int),
            ({
                let e = spec_file_entry_at(
                    self.file_meta_table@,
                    self.spec_resolve_file(path).unwrap() as int,
                );
                &&& 0 + e.data_size <= e.data_size
                &&& (e.data_size == 0 || self.header.data_offset + e.data_offset + 0 + e.data_size
                    <= self.reader.avail())
            }),
    {
        lemma_resolve_file_some_ok(self, path);
    }
}

/// An iterator over one directory's children: the sibling chain of
/// subdirectories, then the sibling chain of files.
pub struct DirIter {
    pub dir_meta: Vec<u8>,
    pub file_meta: Vec<u8>,
    pub cur_dir: u32,
    pub cur_file: u32,
}

impl DirIter {
    /// The next subdirectory's name, or nothing when the directory
    /// chain — or the iterator's view of it — ends.  A malformed or
    /// non-UTF-8 entry ends the chain.
    pub fn next_dir(&mut self) -> (r: Option<String>)
        ensures
            final(self).file_meta == old(self).file_meta,
            final(self).cur_file == old(self).cur_file,
            final(self).dir_meta == old(self).dir_meta,
            old(self).cur_dir == NONE_OFFSET ==> r is None && final(self).cur_dir == old(
                self,
            ).cur_dir,
            old(self).cur_dir != NONE_OFFSET ==> ({
                let ok = spec_dir_entry_ok(old(self).dir_meta@, old(self).cur_dir as int)
                    && valid_utf8(
                    spec_dir_entry_at(old(self).dir_meta@, old(self).cur_dir as int).name,
                );
                let e = spec_dir_entry_at(old(self).dir_meta@, old(self).cur_dir as int);
                &&& (!ok ==> r is None && final(self).cur_dir == NONE_OFFSET)
                &&& (ok ==> (r matches Some(s) && s@ == decode_utf8(e.name) && final(self).cur_dir
                    == e.sibling))
            }),
    {
        if self.cur_dir == NONE_OFFSET {
            return None;
        }
        let meta_len = self.dir_meta.len();
        let du: usize = self.cur_dir as usize;
        if (du as u64) + 24 > meta_len as u64 {
            self.cur_dir = NONE_OFFSET;
            return None;
        }
        let name_len = read_le32(&self.dir_meta, du + 20);
        if (du as u64) + 24 + (name_len as u64) > meta_len as u64 {
            self.cur_dir = NONE_OFFSET;
            return None;
        }
        let sibling = read_le32(&self.dir_meta, du + 4);
        let name_bytes = bytes_to_vec(&self.dir_meta, du + 24, name_len as usize);
        let ghost nb = name_bytes@;
        proof {
            assert(nb =~= spec_dir_entry_at(self.dir_meta@, self.cur_dir as int).name);
        }
        match string_from_utf8(name_bytes) {
            Some(s) => {
                self.cur_dir = sibling;
                Some(s)
            },
            None => {
                self.cur_dir = NONE_OFFSET;
                None
            },
        }
    }

    /// The next file's name and size, or nothing when the file chain —
    /// or the iterator's view of it — ends.  A malformed or non-UTF-8
    /// entry ends the chain.
    pub fn next_file(&mut self) -> (r: Option<(String, u64)>)
        ensures
            final(self).dir_meta == old(self).dir_meta,
            final(self).cur_dir == old(self).cur_dir,
            final(self).file_meta == old(self).file_meta,
            old(self).cur_file == NONE_OFFSET ==> r is None && final(self).cur_file == old(
                self,
            ).cur_file,
            old(self).cur_file != NONE_OFFSET ==> ({
                let ok = spec_file_entry_ok(old(self).file_meta@, old(self).cur_file as int)
                    && valid_utf8(
                    spec_file_entry_at(old(self).file_meta@, old(self).cur_file as int).name,
                );
                let e = spec_file_entry_at(old(self).file_meta@, old(self).cur_file as int);
                &&& (!ok ==> r is None && final(self).cur_file == NONE_OFFSET)
                &&& (ok ==> (r matches Some(p) && p.0@ == decode_utf8(e.name) && p.1 == e.data_size
                    && final(self).cur_file == e.sibling))
            }),
    {
        if self.cur_file == NONE_OFFSET {
            return None;
        }
        let meta_len = self.file_meta.len();
        let fu: usize = self.cur_file as usize;
        if (fu as u64) + 32 > meta_len as u64 {
            self.cur_file = NONE_OFFSET;
            return None;
        }
        let name_len = read_le32(&self.file_meta, fu + 28);
        if (fu as u64) + 32 + (name_len as u64) > meta_len as u64 {
            self.cur_file = NONE_OFFSET;
            return None;
        }
        let sibling = read_le32(&self.file_meta, fu + 4);
        let data_size = read_le64(&self.file_meta, fu + 16);
        let name_bytes = bytes_to_vec(&self.file_meta, fu + 32, name_len as usize);
        let ghost nb = name_bytes@;
        proof {
            assert(nb =~= spec_file_entry_at(self.file_meta@, self.cur_file as int).name);
        }
        match string_from_utf8(name_bytes) {
            Some(s) => {
                self.cur_file = sibling;
                Some((s, data_size))
            },
            None => {
                self.cur_file = NONE_OFFSET;
                None
            },
        }
    }
}

} // verus!
