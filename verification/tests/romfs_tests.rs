use nca_fs::region::Region;
use nca_fs::romfs::RomFs;
use nca_fs::NcaError;

const NONE: u32 = 0xFFFFFFFF;

fn pad4(n: usize) -> usize {
    (n + 3) & !3
}

fn name_hash(parent: u32, name: &[u8]) -> u32 {
    let mut h = parent ^ 123456789;
    for b in name {
        h = ((h >> 5) | (h << 27)) ^ (*b as u32);
    }
    h
}

/// Builds a RomFS image: `dirs[0]` must be the root (its own parent,
/// empty name); every other directory and file names its parent by
/// index into `dirs`.
fn build_romfs(dirs: &[(usize, &str)], files: &[(usize, &str, Vec<u8>)], buckets: usize) -> Vec<u8> {
    assert!(dirs[0].0 == 0 && dirs[0].1.is_empty());
    // metadata offsets
    let mut dir_off: Vec<u32> = Vec::new();
    let mut off = 0usize;
    for (_, name) in dirs {
        dir_off.push(off as u32);
        off += 24 + pad4(name.len());
    }
    let dmt_size = off;
    let mut file_off: Vec<u32> = Vec::new();
    off = 0;
    for (_, name, _) in files {
        file_off.push(off as u32);
        off += 32 + pad4(name.len());
    }
    let fmt_size = off;
    // children and sibling chains
    let child_dir: Vec<u32> = (0..dirs.len())
        .map(|p| {
            (1..dirs.len()).find(|&j| dirs[j].0 == p).map(|j| dir_off[j]).unwrap_or(NONE)
        })
        .collect();
    let dir_sibling: Vec<u32> = (0..dirs.len())
        .map(|j| {
            (j + 1..dirs.len())
                .find(|&k| j > 0 && dirs[k].0 == dirs[j].0)
                .map(|k| dir_off[k])
                .unwrap_or(NONE)
        })
        .collect();
    let child_file: Vec<u32> = (0..dirs.len())
        .map(|p| {
            (0..files.len()).find(|&j| files[j].0 == p).map(|j| file_off[j]).unwrap_or(NONE)
        })
        .collect();
    let file_sibling: Vec<u32> = (0..files.len())
        .map(|j| {
            (j + 1..files.len())
                .find(|&k| files[k].0 == files[j].0)
                .map(|k| file_off[k])
                .unwrap_or(NONE)
        })
        .collect();
    // hash chains
    let mut dht = vec![NONE; buckets];
    let mut dir_next = vec![NONE; dirs.len()];
    for j in 0..dirs.len() {
        let parent = dir_off[dirs[j].0];
        let b = (name_hash(parent, dirs[j].1.as_bytes()) as usize) % buckets;
        dir_next[j] = dht[b];
        dht[b] = dir_off[j];
    }
    let mut fht = vec![NONE; buckets];
    let mut file_next = vec![NONE; files.len()];
    for j in 0..files.len() {
        let parent = dir_off[files[j].0];
        let b = (name_hash(parent, files[j].1.as_bytes()) as usize) % buckets;
        file_next[j] = fht[b];
        fht[b] = file_off[j];
    }
    // file data
    let mut data: Vec<u8> = Vec::new();
    let mut file_data_off: Vec<u64> = Vec::new();
    for (_, _, content) in files {
        file_data_off.push(data.len() as u64);
        data.extend_from_slice(content);
    }
    // serialize the tables
    let mut dmt = vec![0u8; dmt_size];
    for j in 0..dirs.len() {
        let o = dir_off[j] as usize;
        dmt[o..o + 4].copy_from_slice(&dir_off[dirs[j].0].to_le_bytes());
        dmt[o + 4..o + 8].copy_from_slice(&dir_sibling[j].to_le_bytes());
        dmt[o + 8..o + 12].copy_from_slice(&child_dir[j].to_le_bytes());
        dmt[o + 12..o + 16].copy_from_slice(&child_file[j].to_le_bytes());
        dmt[o + 16..o + 20].copy_from_slice(&dir_next[j].to_le_bytes());
        dmt[o + 20..o + 24].copy_from_slice(&(dirs[j].1.len() as u32).to_le_bytes());
        dmt[o + 24..o + 24 + dirs[j].1.len()].copy_from_slice(dirs[j].1.as_bytes());
    }
    let mut fmt = vec![0u8; fmt_size];
    for j in 0..files.len() {
        let o = file_off[j] as usize;
        fmt[o..o + 4].copy_from_slice(&dir_off[files[j].0].to_le_bytes());
        fmt[o + 4..o + 8].copy_from_slice(&file_sibling[j].to_le_bytes());
        fmt[o + 8..o + 16].copy_from_slice(&file_data_off[j].to_le_bytes());
        fmt[o + 16..o + 24].copy_from_slice(&(files[j].2.len() as u64).to_le_bytes());
        fmt[o + 24..o + 28].copy_from_slice(&file_next[j].to_le_bytes());
        fmt[o + 28..o + 32].copy_from_slice(&(files[j].1.len() as u32).to_le_bytes());
        fmt[o + 32..o + 32 + files[j].1.len()].copy_from_slice(files[j].1.as_bytes());
    }
    // assemble: header, dir hash, dir meta, file hash, file meta, data
    let dht_off = 0x50u64;
    let dmt_off = dht_off + (buckets * 4) as u64;
    let fht_off = dmt_off + dmt_size as u64;
    let fmt_off = fht_off + (buckets * 4) as u64;
    let data_off = fmt_off + fmt_size as u64;
    let mut v: Vec<u8> = Vec::new();
    for x in [
        0x50u64,
        dht_off,
        (buckets * 4) as u64,
        dmt_off,
        dmt_size as u64,
        fht_off,
        (buckets * 4) as u64,
        fmt_off,
        fmt_size as u64,
        data_off,
    ] {
        v.extend_from_slice(&x.to_le_bytes());
    }
    for b in &dht {
        v.extend_from_slice(&b.to_le_bytes());
    }
    v.extend_from_slice(&dmt);
    for b in &fht {
        v.extend_from_slice(&b.to_le_bytes());
    }
    v.extend_from_slice(&fmt);
    v.extend_from_slice(&data);
    v
}

fn sample_fs() -> RomFs {
    let dirs = [(0usize, ""), (0, "qwe"), (0, "mt")];
    let files = [
        (1usize, "b.txt", Vec::new()),
        (0, "a.txt", b"romfs data!".to_vec()),
    ];
    let img = build_romfs(&dirs, &files, 3);
    RomFs::new(Region::Plain { src: img, base: 0 }).unwrap()
}

#[test]
fn romfs_lookup_and_empty_file() {
    let fs = sample_fs();
    assert!(fs.exists_file("qwe/b.txt"));
    assert_eq!(fs.get_file_size("qwe/b.txt"), Ok(0));
    assert!(!fs.exists_file("qwe/a.txt"));
    assert!(fs.exists_file("/qwe/b.txt"));
    assert!(fs.exists_file("a.txt"));
    assert!(!fs.exists_file("qwe"));
    assert!(!fs.exists_file(""));
}

#[test]
fn romfs_read_file() {
    let fs = sample_fs();
    let size = fs.get_file_size("a.txt").unwrap() as usize;
    assert_eq!(size, 11);
    let mut buf = vec![0u8; size];
    assert_eq!(fs.read_file("a.txt", 0, &mut buf), Ok(size));
    assert_eq!(&buf, b"romfs data!");
    let mut part = vec![0u8; 5];
    assert_eq!(fs.read_file("a.txt", 6, &mut part), Ok(5));
    assert_eq!(&part, b"data!");
    let mut over = vec![0u8; 1];
    assert_eq!(fs.read_file("a.txt", size as u64, &mut over), Err(NcaError::OutOfRange));
    let mut empty: Vec<u8> = Vec::new();
    assert_eq!(fs.read_file("a.txt", size as u64, &mut empty), Ok(0));
}

#[test]
fn romfs_missing_file_errors() {
    let fs = sample_fs();
    assert_eq!(fs.get_file_size("nope"), Err(NcaError::Unsupported));
    let mut buf = vec![0u8; 1];
    assert_eq!(fs.read_file("qwe/nope", 0, &mut buf), Err(NcaError::Unsupported));
    assert!(matches!(fs.open_dir_iterator("nope"), Err(NcaError::Unsupported)));
}

#[test]
fn romfs_empty_dir_yields_no_entries() {
    let fs = sample_fs();
    let mut it = fs.open_dir_iterator("mt").unwrap();
    assert!(it.next_dir().is_none());
    assert!(it.next_file().is_none());
}

#[test]
fn romfs_dir_iterator_lists_children() {
    let fs = sample_fs();
    let mut it = fs.open_dir_iterator("").unwrap();
    assert_eq!(it.next_dir(), Some(String::from("qwe")));
    assert_eq!(it.next_dir(), Some(String::from("mt")));
    assert_eq!(it.next_dir(), None);
    assert_eq!(it.next_file(), Some((String::from("a.txt"), 11)));
    assert_eq!(it.next_file(), None);
    let mut qwe = fs.open_dir_iterator("/qwe/").unwrap();
    assert_eq!(qwe.next_dir(), None);
    assert_eq!(qwe.next_file(), Some((String::from("b.txt"), 0)));
    assert_eq!(qwe.next_file(), None);
}

#[test]
fn romfs_single_bucket_chains_find_everything() {
    // one bucket forces every entry into one chain
    let dirs = [(0usize, ""), (0, "d1"), (0, "d2"), (1, "d3")];
    let files = [
        (0usize, "f1", b"one".to_vec()),
        (1, "f2", b"two".to_vec()),
        (2, "f3", b"three".to_vec()),
        (3, "f4", b"four".to_vec()),
        (0, "f5", b"five".to_vec()),
    ];
    let img = build_romfs(&dirs, &files, 1);
    let fs = RomFs::new(Region::Plain { src: img, base: 0 }).unwrap();
    for (path, content) in [
        ("f1", "one"),
        ("d1/f2", "two"),
        ("d2/f3", "three"),
        ("d1/d3/f4", "four"),
        ("f5", "five"),
    ] {
        assert!(fs.exists_file(path), "missing {}", path);
        let size = fs.get_file_size(path).unwrap() as usize;
        let mut buf = vec![0u8; size];
        assert_eq!(fs.read_file(path, 0, &mut buf), Ok(size));
        assert_eq!(buf, content.as_bytes());
    }
    assert!(!fs.exists_file("d1/f1"));
    assert!(!fs.exists_file("d2/f2"));
}

#[test]
fn romfs_name_hash_exact_value() {
    // h starts at parent ^ 123456789 and folds each byte in with a
    // 32-bit rotate right by five
    assert_eq!(nca_fs::romfs::name_hash(0, b""), 123456789);
    assert_eq!(nca_fs::romfs::name_hash(0, b"a"), 0xA83ADE09);
    let mut h: u32 = 7 ^ 123456789;
    for b in b"qwe" {
        h = h.rotate_right(5) ^ *b as u32;
    }
    assert_eq!(nca_fs::romfs::name_hash(7, b"qwe"), h);
}

#[test]
fn romfs_truncated_header() {
    let r = RomFs::new(Region::Plain { src: vec![0u8; 0x10], base: 0 });
    assert!(matches!(r, Err(NcaError::Io)));
}
