//! The flat partition filesystem (PFS0).
//!
//! A PFS0 region holds a header, a file-entry table, a string table of
//! NUL-terminated names, and then the file data.  File `i`'s bytes live
//! at `data_base + entry[i].offset`, where `data_base` is the size of
//! the three tables together.

use vstd::prelude::*;
use vstd::utf8::{decode_utf8, valid_utf8};
use crate::err::NcaError;
use crate::lebytes::{bytes_to_vec, le32_at, le64_at, read_le32, read_le64};
use crate::region::Region;
use crate::text::string_from_utf8;

verus! {

broadcast use vstd::std_specs::vec::axiom_spec_len;

/// The magic `"PFS0"` as a little-endian 32-bit integer.
pub const PFS0_MAGIC: u32 = 0x30534650;

/// The partition header: magic, number of files, and the byte size of
/// the string table that follows the entry table.
#[derive(Clone, Copy, Debug, PartialEq, Eq, Structural)]
pub struct Header {
    pub magic: u32,
    pub file_count: u32,
    pub string_table_size: u32,
}

/// One file of the partition: where its data begins relative to the
/// data area, how long it is, and where its name begins in the string
/// table.
#[derive(Clone, Copy, Debug, PartialEq, Eq, Structural)]
pub struct FileEntry {
    pub offset: u64,
    pub size: u64,
    pub string_table_offset: u32,
}

/// The header fields as laid out in the first 16 bytes of the region.
pub open spec fn spec_parse_header(s: Seq<u8>) -> Header {
    Header { magic: le32_at(s, 0), file_count: le32_at(s, 4), string_table_size: le32_at(s, 8) }
}

/// One 24-byte file entry as laid out on disk.
pub open spec fn spec_parse_entry(s: Seq<u8>) -> FileEntry {
    FileEntry { offset: le64_at(s, 0), size: le64_at(s, 8), string_table_offset: le32_at(s, 16) }
}

/// The bytes of the NUL-terminated string at `off` in table `t`: all
/// bytes from `off` up to the first NUL or the end of the table.
pub open spec fn spec_cstr(t: Seq<u8>, off: int) -> Seq<u8>
    decreases t.len() - off,
{
    if off < 0 || off >= t.len() {
        Seq::empty()
    } else if t[off] == 0 {
        Seq::empty()
    } else {
        seq![t[off]] + spec_cstr(t, off + 1)
    }
}

/// A NUL-free run of the table is its own C string.
proof fn lemma_cstr_run(t: Seq<u8>, off: int, end: int)
    requires
        0 <= off <= end <= t.len(),
        forall|k: int| off <= k < end ==> t[k] != 0,
        end == t.len() || t[end] == 0,
    ensures
        spec_cstr(t, off) =~= Seq::new((end - off) as nat, |p: int| t[off + p]),
    decreases end - off,
{
    if off < end {
        lemma_cstr_run(t, off + 1, end);
        assert(spec_cstr(t, off) =~= seq![t[off]] + spec_cstr(t, off + 1));
    }
}

/// A parsed partition over a readable region.
pub struct PFS0 {
    pub reader: Region,
    pub header: Header,
    pub file_entries: Vec<FileEntry>,
    pub string_table: Vec<u8>,
}

impl PFS0 {
    /// Where the file data area begins: past the header, the entry
    /// table and the string table.
    pub open spec fn spec_data_base(self) -> int {
        16 + 24 * (self.header.file_count as int) + (self.header.string_table_size as int)
    }

    /// The plaintext byte at offset `k` of file `idx`.
    pub open spec fn spec_file_byte(self, idx: int, k: int) -> u8 {
        self.reader.plain_at(self.spec_data_base() + self.file_entries@[idx].offset + k)
    }

    /// The name bytes of file `idx`: the C string at its string-table
    /// offset.
    pub open spec fn spec_name_bytes(self, idx: int) -> Seq<u8> {
        spec_cstr(self.string_table@, self.file_entries@[idx].string_table_offset as int)
    }

    /// File `i`'s name offset lies inside the string table and its
    /// name bytes are valid UTF-8.
    pub open spec fn name_ok(self, i: int) -> bool {
        &&& self.file_entries@[i].string_table_offset <= self.string_table@.len()
        &&& valid_utf8(self.spec_name_bytes(i))
    }

    /// The parsed tables are exactly what the region's plaintext holds.
    pub open spec fn wf(self) -> bool {
        &&& self.header == spec_parse_header(self.reader.plain_range(0, 16))
        &&& self.header.magic == PFS0_MAGIC
        &&& self.file_entries@.len() == self.header.file_count
        &&& (forall|i: int|
            0 <= i < self.file_entries@.len() ==> self.file_entries@[i] == spec_parse_entry(
                self.reader.plain_range(16 + 24 * i, 24),
            ))
        &&& self.string_table@ == self.reader.plain_range(
            16 + 24 * (self.header.file_count as int),
            self.header.string_table_size as int,
        )
        &&& self.spec_data_base() <= self.reader.avail()
    }

    /// Parses a partition from the start of `reader`.
    ///
    /// Fails with `Io` when the region is too short for its declared
    /// tables, and with `InvalidInput` when the magic is not `"PFS0"`.
    pub fn new(reader: Region) -> (r: Result<PFS0, NcaError>)
        ensures
            ({
                let h = spec_parse_header(reader.plain_range(0, 16));
                let tab_end = 16 + 24 * (h.file_count as int) + (h.string_table_size as int);
                &&& (reader.avail() < 16 ==> r == Result::<PFS0, NcaError>::Err(NcaError::Io))
                &&& (reader.avail() >= 16 && h.magic != PFS0_MAGIC ==> r == Result::<
                    PFS0,
                    NcaError,
                >::Err(NcaError::InvalidInput))
                &&& (reader.avail() >= 16 && h.magic == PFS0_MAGIC && tab_end > reader.avail()
                    ==> r == Result::<PFS0, NcaError>::Err(NcaError::Io))
                &&& (reader.avail() >= 16 && h.magic == PFS0_MAGIC && tab_end <= reader.avail()
                    ==> (r matches Ok(p) && p.wf() && p.header == h && p.reader == reader))
            }),
    {
        let hdr_bytes = match reader.read_exact_at(0, 16) {
            Ok(v) => v,
            Err(_) => {
                return Err(NcaError::Io);
            },
        };
        let magic = read_le32(&hdr_bytes, 0);
        if magic != PFS0_MAGIC {
            return Err(NcaError::InvalidInput);
        }
        let file_count = read_le32(&hdr_bytes, 4);
        let sts = read_le32(&hdr_bytes, 8);
        proof {
            reader.lemma_avail_bound();
        }
        let ent_len128: u128 = 24u128 * (file_count as u128);
        if ent_len128 > usize::MAX as u128 {
            return Err(NcaError::Io);
        }
        let ent_len: usize = ent_len128 as usize;
        let ent_bytes = match reader.read_exact_at(16, ent_len) {
            Ok(v) => v,
            Err(_) => {
                return Err(NcaError::Io);
            },
        };
        let st_bytes = match reader.read_exact_at(16 + ent_len as u64, sts as usize) {
            Ok(v) => v,
            Err(_) => {
                return Err(NcaError::Io);
            },
        };
        let mut entries: Vec<FileEntry> = Vec::new();
        let count: usize = file_count as usize;
        let mut i: usize = 0;
        while i < count
            invariant
                0 <= i <= count,
                24 * count == ent_len,
                ent_bytes@ == reader.plain_range(16, ent_len as int),
                ent_bytes@.len() == ent_len,
                entries@.len() == i,
                forall|k: int|
                    0 <= k < i ==> entries@[k] == spec_parse_entry(
                        reader.plain_range(16 + 24 * k, 24),
                    ),
            decreases count - i,
        {
            let e = FileEntry {
                offset: read_le64(&ent_bytes, 24 * i),
                size: read_le64(&ent_bytes, 24 * i + 8),
                string_table_offset: read_le32(&ent_bytes, 24 * i + 16),
            };
            proof {
                let pr = reader.plain_range(16 + 24 * (i as int), 24);
                assert(ent_bytes@.subrange(24 * (i as int), 24 * (i as int) + 8) =~= pr.subrange(
                    0,
                    8,
                ));
                assert(ent_bytes@.subrange(24 * (i as int) + 8, 24 * (i as int) + 16)
                    =~= pr.subrange(8, 16));
                assert(ent_bytes@.subrange(24 * (i as int) + 16, 24 * (i as int) + 20)
                    =~= pr.subrange(16, 20));
            }
            entries.push(e);
            i = i + 1;
        }
        let header = Header { magic, file_count, string_table_size: sts };
        let p = PFS0 { reader, header, file_entries: entries, string_table: st_bytes };
        Ok(p)
    }

    /// The names of all files, in entry order, decoded as UTF-8.
    ///
    /// Fails with `InvalidInput` when a name offset points past the
    /// string table or a name is not valid UTF-8.
    pub fn list_files(&self) -> (r: Result<Vec<String>, NcaError>)
        ensures
            r is Ok <==> (forall|i: int|
                0 <= i < self.file_entries@.len() ==> #[trigger] self.name_ok(i)),
            r matches Ok(names) ==> {
                &&& names@.len() == self.file_entries@.len()
                &&& (forall|i: int|
                    0 <= i < names@.len() ==> (#[trigger] names@[i])@ == decode_utf8(
                        self.spec_name_bytes(i),
                    ))
            },
            r matches Err(e) ==> e == NcaError::InvalidInput,
    {
        let mut names: Vec<String> = Vec::new();
        let n = self.file_entries.len();
        let tlen = self.string_table.len();
        let mut i: usize = 0;
        while i < n
            invariant
                0 <= i <= n,
                n == self.file_entries@.len(),
                tlen == self.string_table@.len(),
                names@.len() == i,
                forall|k: int| 0 <= k < i ==> #[trigger] self.name_ok(k),
                forall|k: int|
                    0 <= k < i ==> (#[trigger] names@[k])@ == decode_utf8(self.spec_name_bytes(k)),
            decreases n - i,
        {
            let sto = self.file_entries[i].string_table_offset as usize;
            if sto > tlen {
                proof {
                    assert(!self.name_ok(i as int));
                }
                return Err(NcaError::InvalidInput);
            }
            let mut end: usize = sto;
            while end < tlen && *vstd::slice::slice_index_get(self.string_table.as_slice(), end)
                != 0
                invariant
                    sto <= end <= tlen,
                    tlen == self.string_table@.len(),
                    i < self.file_entries@.len(),
                    sto == self.file_entries@[i as int].string_table_offset,
                    forall|k: int| sto <= k < end ==> self.string_table@[k] != 0,
                decreases tlen - end,
            {
                end = end + 1;
            }
            let name_bytes = bytes_to_vec(&self.string_table, sto, end - sto);
            let ghost nb: Seq<u8> = name_bytes@;
            proof {
                lemma_cstr_run(self.string_table@, sto as int, end as int);
                assert(nb =~= self.spec_name_bytes(i as int));
            }
            match string_from_utf8(name_bytes) {
                Some(s) => {
                    proof {
                        assert(valid_utf8(self.spec_name_bytes(i as int)));
                        assert(s@ == decode_utf8(self.spec_name_bytes(i as int)));
                        assert(self.name_ok(i as int));
                    }
                    names.push(s);
                },
                None => {
                    proof {
                        assert(!valid_utf8(self.spec_name_bytes(i as int)));
                        assert(!self.name_ok(i as int));
                    }
                    return Err(NcaError::InvalidInput);
                },
            }
            i = i + 1;
        }
        Ok(names)
    }

    /// The declared size of file `idx`; `InvalidInput` when the index
    /// is out of range.
    pub fn get_file_size(&self, idx: usize) -> (r: Result<u64, NcaError>)
        ensures
            idx < self.file_entries@.len() ==> r == Result::<u64, NcaError>::Ok(
                self.file_entries@[idx as int].size,
            ),
            idx >= self.file_entries@.len() ==> r == Result::<u64, NcaError>::Err(
                NcaError::InvalidInput,
            ),
    {
        if idx >= self.file_entries.len() {
            return Err(NcaError::InvalidInput);
        }
        Ok(self.file_entries[idx].size)
    }

    /// Fills `buf` with the bytes of file `idx` starting at `offset`
    /// within the file, and returns how many bytes were read.
    ///
    /// Fails with `InvalidInput` on a bad index, `OutOfRange` when
    /// `offset + buf.len()` exceeds the file's size, and `Io` when the
    /// region ends before the requested range; `buf` is then unchanged.
    pub fn read_file(&self, idx: usize, offset: u64, buf: &mut Vec<u8>) -> (r: Result<
        usize,
        NcaError,
    >)
        ensures
            idx >= self.file_entries@.len() ==> r == Result::<usize, NcaError>::Err(
                NcaError::InvalidInput,
            ) && *final(buf) == *old(buf),
            idx < self.file_entries@.len() ==> {
                let e = self.file_entries@[idx as int];
                let pos = self.spec_data_base() + e.offset + offset;
                let len = old(buf)@.len() as int;
                &&& (offset + len > e.size ==> r == Result::<usize, NcaError>::Err(
                    NcaError::OutOfRange,
                ) && *final(buf) == *old(buf))
                &&& (offset + len <= e.size ==> {
                    &&& (r is Ok <==> (len == 0 || pos + len <= self.reader.avail()))
                    &&& (r matches Ok(n) ==> n == len && final(buf)@ == Seq::new(
                        len as nat,
                        |k: int| self.spec_file_byte(idx as int, offset + k),
                    ))
                    &&& (r is Err ==> r == Result::<usize, NcaError>::Err(NcaError::Io)
                        && *final(buf) == *old(buf))
                })
            },
    {
        if idx >= self.file_entries.len() {
            return Err(NcaError::InvalidInput);
        }
        let e = self.file_entries[idx];
        let len = buf.len();
        let sum128: u128 = (offset as u128) + (len as u128);
        if sum128 > e.size as u128 {
            return Err(NcaError::OutOfRange);
        }
        if len == 0 {
            let empty: Vec<u8> = Vec::new();
            *buf = empty;
            proof {
                assert(final(buf)@ =~= Seq::new(0, |k: int| self.spec_file_byte(idx as int, offset + k)));
            }
            return Ok(0);
        }
        proof {
            self.reader.lemma_avail_bound();
        }
        let data_base128: u128 = 16 + 24 * (self.header.file_count as u128) + (
        self.header.string_table_size as u128);
        let pos128: u128 = data_base128 + (e.offset as u128) + (offset as u128);
        if pos128 > u64::MAX as u128 {
            return Err(NcaError::Io);
        }
        match self.reader.read_exact_at(pos128 as u64, len) {
            Ok(v) => {
                *buf = v;
                Ok(len)
            },
            Err(_) => Err(NcaError::Io),
        }
    }

    /// An independent ranged reader over one file of the partition; it
    /// stays valid however long the partition itself lives.
    ///
    /// Fails with `InvalidInput` when the index is out of range.
    pub fn get_file_reader(&self, idx: usize) -> (r: Result<PFS0FileReader, NcaError>)
        ensures
            idx >= self.file_entries@.len() ==> r == Result::<PFS0FileReader, NcaError>::Err(
                NcaError::InvalidInput,
            ),
            idx < self.file_entries@.len() ==> (r matches Ok(fr) && {
                let e = self.file_entries@[idx as int];
                &&& fr.size == e.size
                &&& fr.pos == 0
                &&& fr.start == self.spec_data_base() + e.offset
                &&& (forall|o: int| fr.reader.plain_at(o) == self.reader.plain_at(o))
                &&& fr.reader.avail() == self.reader.avail()
            }),
    {
        if idx >= self.file_entries.len() {
            return Err(NcaError::InvalidInput);
        }
        let e = self.file_entries[idx];
        let data_base128: u128 = 16 + 24 * (self.header.file_count as u128) + (
        self.header.string_table_size as u128);
        let start: u128 = data_base128 + (e.offset as u128);
        Ok(PFS0FileReader { reader: self.reader.duplicate(), start, size: e.size, pos: 0 })
    }

    /// Two reads over overlapping ranges of one file agree on every
    /// shared byte: a file's content is a function of its offsets
    /// alone.
    pub proof fn lemma_read_overlap(
        self,
        idx: int,
        o1: int,
        n1: int,
        o2: int,
        n2: int,
        b1: Seq<u8>,
        b2: Seq<u8>,
    )
        requires
            b1 == Seq::new(n1 as nat, |k: int| self.spec_file_byte(idx, o1 + k)),
            b2 == Seq::new(n2 as nat, |k: int| self.spec_file_byte(idx, o2 + k)),
        ensures
            forall|a: int|
                (if o1 < o2 {
                    o2
                } else {
                    o1
                }) <= a < (if o1 + n1 < o2 + n2 {
                    o1 + n1
                } else {
                    o2 + n2
                }) ==> #[trigger] b1[a - o1] == b2[a - o2],
    {
    }

    /// Reading a whole file equals reading any split of it and
    /// concatenating the parts.
    pub proof fn lemma_read_partition(self, idx: int, k: int, size: int)
        requires
            0 <= k <= size,
        ensures
            Seq::new(k as nat, |t: int| self.spec_file_byte(idx, t)) + Seq::new(
                (size - k) as nat,
                |t: int| self.spec_file_byte(idx, k + t),
            ) =~= Seq::new(size as nat, |t: int| self.spec_file_byte(idx, t)),
    {
    }
}

/// Where a seek counts from.
#[derive(Clone, Copy, Debug, PartialEq, Eq, Structural)]
pub enum SeekOrigin {
    Start(u64),
    Current(i64),
    End(i64),
}

/// A ranged reader over a single file: its own region, the absolute
/// region offset where the file begins, the file's size, and the
/// current position within the file.
pub struct PFS0FileReader {
    pub reader: Region,
    pub start: u128,
    pub size: u64,
    pub pos: u64,
}

impl PFS0FileReader {
    /// The file's size in bytes.
    pub fn file_size(&self) -> (r: u64)
        ensures
            r == self.size,
    {
        self.size
    }

    /// Moves the position to an absolute offset, relative to the
    /// current position, or relative to the end of the file, and
    /// returns the new position.
    ///
    /// Fails with `InvalidInput`, leaving the position alone, when the
    /// target lies outside `[0, size]`.
    pub fn seek(&mut self, origin: SeekOrigin) -> (r: Result<u64, NcaError>)
        ensures
            final(self).reader == old(self).reader,
            final(self).start == old(self).start,
            final(self).size == old(self).size,
            ({
                let target: int = match origin {
                    SeekOrigin::Start(o) => o as int,
                    SeekOrigin::Current(d) => old(self).pos + d,
                    SeekOrigin::End(d) => old(self).size + d,
                };
                &&& (0 <= target <= old(self).size ==> r == Result::<u64, NcaError>::Ok(
                    target as u64,
                ) && final(self).pos == target)
                &&& (!(0 <= target <= old(self).size) ==> r == Result::<u64, NcaError>::Err(
                    NcaError::InvalidInput,
                ) && final(self).pos == old(self).pos)
            }),
    {
        let target: i128 = match origin {
            SeekOrigin::Start(o) => o as i128,
            SeekOrigin::Current(d) => self.pos as i128 + d as i128,
            SeekOrigin::End(d) => self.size as i128 + d as i128,
        };
        if target < 0 || target > self.size as i128 {
            return Err(NcaError::InvalidInput);
        }
        self.pos = target as u64;
        Ok(self.pos)
    }

    /// Reads up to `want` bytes at the current position — fewer at the
    /// end of the file — and advances the position by what was read.
    ///
    /// Fails with `Io`, leaving the position alone, when the region
    /// ends before the clamped range.
    pub fn read(&mut self, want: usize) -> (r: Result<Vec<u8>, NcaError>)
        ensures
            final(self).reader == old(self).reader,
            final(self).start == old(self).start,
            final(self).size == old(self).size,
            ({
                let n: int = if old(self).pos >= old(self).size {
                    0
                } else if want <= old(self).size - old(self).pos {
                    want as int
                } else {
                    old(self).size - old(self).pos
                };
                let pos = old(self).start + old(self).pos;
                &&& (r matches Ok(b) ==> b@ == Seq::new(
                    n as nat,
                    |k: int| old(self).reader.plain_at(pos + k),
                ) && final(self).pos == old(self).pos + n)
                &&& (r is Ok <==> (n == 0 || pos + n <= old(self).reader.avail()))
                &&& (r is Err ==> r == Result::<Vec<u8>, NcaError>::Err(NcaError::Io)
                    && final(self).pos == old(self).pos)
            }),
    {
        let remaining: u64 = if self.pos >= self.size {
            0
        } else {
            self.size - self.pos
        };
        let n: usize = if (want as u64) <= remaining {
            want
        } else {
            remaining as usize
        };
        if n == 0 {
            let empty: Vec<u8> = Vec::new();
            proof {
                assert(empty@ =~= Seq::new(
                    0,
                    |k: int| self.reader.plain_at(self.start + self.pos + k),
                ));
            }
            return Ok(empty);
        }
        proof {
            self.reader.lemma_avail_bound();
        }
        if self.start > u64::MAX as u128 {
            return Err(NcaError::Io);
        }
        let pos128: u128 = self.start + (self.pos as u128);
        if pos128 > u64::MAX as u128 {
            return Err(NcaError::Io);
        }
        match self.reader.read_exact_at(pos128 as u64, n) {
            Ok(v) => {
                self.pos = self.pos + (n as u64);
                Ok(v)
            },
            Err(_) => Err(NcaError::Io),
        }
    }

    /// Fills `buf` with file bytes starting at `offset`; the same
    /// bounds and errors as reading through the partition.
    pub fn read_at(&self, offset: u64, buf: &mut Vec<u8>) -> (r: Result<usize, NcaError>)
        ensures
            ({
                let pos = self.start + offset;
                let len = old(buf)@.len() as int;
                &&& (offset + len > self.size ==> r == Result::<usize, NcaError>::Err(
                    NcaError::OutOfRange,
                ) && *final(buf) == *old(buf))
                &&& (offset + len <= self.size ==> {
                    &&& (r is Ok <==> (len == 0 || pos + len <= self.reader.avail()))
                    &&& (r matches Ok(n) ==> n == len && final(buf)@ == Seq::new(
                        len as nat,
                        |k: int| self.reader.plain_at(pos + k),
                    ))
                    &&& (r is Err ==> r == Result::<usize, NcaError>::Err(NcaError::Io)
                        && *final(buf) == *old(buf))
                })
            }),
    {
        let len = buf.len();
        let sum128: u128 = (offset as u128) + (len as u128);
        if sum128 > self.size as u128 {
            return Err(NcaError::OutOfRange);
        }
        if len == 0 {
            let empty: Vec<u8> = Vec::new();
            *buf = empty;
            proof {
                assert(final(buf)@ =~= Seq::new(
                    0,
                    |k: int| self.reader.plain_at(self.start + offset + k),
                ));
            }
            return Ok(0);
        }
        proof {
            self.reader.lemma_avail_bound();
        }
        if self.start > u64::MAX as u128 {
            return Err(NcaError::Io);
        }
        let pos128: u128 = self.start + (offset as u128);
        if pos128 > u64::MAX as u128 {
            return Err(NcaError::Io);
        }
        match self.reader.read_exact_at(pos128 as u64, len) {
            Ok(v) => {
                *buf = v;
                Ok(len)
            },
            Err(_) => Err(NcaError::Io),
        }
    }
}

} // verus!
