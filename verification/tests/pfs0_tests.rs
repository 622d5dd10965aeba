use nca_fs::pfs0::{SeekOrigin, PFS0};
use nca_fs::region::Region;
use nca_fs::NcaError;

fn le32(v: &mut Vec<u8>, x: u32) {
    v.extend_from_slice(&x.to_le_bytes());
}

fn le64(v: &mut Vec<u8>, x: u64) {
    v.extend_from_slice(&x.to_le_bytes());
}

/// One file "a.txt" holding "hello".
fn basic_image() -> Vec<u8> {
    let mut v: Vec<u8> = Vec::new();
    v.extend_from_slice(b"PFS0");
    le32(&mut v, 1); // file count
    le32(&mut v, 8); // string table size
    le32(&mut v, 0); // reserved
    // entry 0
    le64(&mut v, 0); // offset
    le64(&mut v, 5); // size
    le32(&mut v, 0); // string table offset
    le32(&mut v, 0); // reserved
    v.extend_from_slice(b"a.txt\0\0\0");
    v.extend_from_slice(b"hello");
    v
}

fn open_basic() -> PFS0 {
    PFS0::new(Region::Plain { src: basic_image(), base: 0 }).unwrap()
}

#[test]
fn pfs0_basic_archive() {
    let p = open_basic();
    let names = p.list_files().unwrap();
    assert_eq!(names, vec![String::from("a.txt")]);
    assert_eq!(p.get_file_size(0), Ok(5));
    let mut buf = vec![0u8; 5];
    assert_eq!(p.read_file(0, 0, &mut buf), Ok(5));
    assert_eq!(&buf, b"hello");
}

#[test]
fn pfs0_wrong_magic() {
    let mut img = basic_image();
    img[0] = b'Q';
    let r = PFS0::new(Region::Plain { src: img, base: 0 });
    assert!(matches!(r, Err(NcaError::InvalidInput)));
}

#[test]
fn pfs0_truncated_image() {
    let img = basic_image()[..10].to_vec();
    let r = PFS0::new(Region::Plain { src: img, base: 0 });
    assert!(matches!(r, Err(NcaError::Io)));
}

#[test]
fn pfs0_zero_length_read_at_eof() {
    let p = open_basic();
    let mut buf: Vec<u8> = Vec::new();
    assert_eq!(p.read_file(0, 5, &mut buf), Ok(0));
    assert!(buf.is_empty());
}

#[test]
fn pfs0_one_byte_read_at_eof_out_of_range() {
    let p = open_basic();
    let mut buf = vec![0u8; 1];
    assert_eq!(p.read_file(0, 5, &mut buf), Err(NcaError::OutOfRange));
}

#[test]
fn pfs0_bad_index() {
    let p = open_basic();
    assert_eq!(p.get_file_size(1), Err(NcaError::InvalidInput));
    let mut buf = vec![0u8; 1];
    assert_eq!(p.read_file(1, 0, &mut buf), Err(NcaError::InvalidInput));
}

#[test]
fn pfs0_overlapping_reads_agree() {
    let p = open_basic();
    let mut b1 = vec![0u8; 4];
    let mut b2 = vec![0u8; 4];
    assert_eq!(p.read_file(0, 0, &mut b1), Ok(4));
    assert_eq!(p.read_file(0, 1, &mut b2), Ok(4));
    // overlap is the file bytes [1, 4)
    assert_eq!(&b1[1..4], &b2[0..3]);
}

#[test]
fn pfs0_partition_concat_equals_whole() {
    let p = open_basic();
    let size = p.get_file_size(0).unwrap() as usize;
    let mut whole = vec![0u8; size];
    assert_eq!(p.read_file(0, 0, &mut whole), Ok(size));
    for k in 0..=size {
        let mut head = vec![0u8; k];
        let mut tail = vec![0u8; size - k];
        assert_eq!(p.read_file(0, 0, &mut head), Ok(k));
        assert_eq!(p.read_file(0, k as u64, &mut tail), Ok(size - k));
        let mut joined = head.clone();
        joined.extend_from_slice(&tail);
        assert_eq!(joined, whole);
    }
}

#[test]
fn pfs0_invalid_utf8_name() {
    let mut img = basic_image();
    // corrupt the first name byte with an invalid UTF-8 lead byte
    img[0x28] = 0xFF;
    let p = PFS0::new(Region::Plain { src: img, base: 0 }).unwrap();
    assert!(matches!(p.list_files(), Err(NcaError::InvalidInput)));
}

#[test]
fn pfs0_file_reader_reads() {
    let p = open_basic();
    let fr = p.get_file_reader(0).unwrap();
    assert_eq!(fr.file_size(), 5);
    let mut buf = vec![0u8; 3];
    assert_eq!(fr.read_at(2, &mut buf), Ok(3));
    assert_eq!(&buf, b"llo");
    let mut big = vec![0u8; 6];
    assert_eq!(fr.read_at(0, &mut big), Err(NcaError::OutOfRange));
}

#[test]
fn pfs0_file_reader_seek_and_read() {
    let p = open_basic();
    let mut fr = p.get_file_reader(0).unwrap();
    assert_eq!(fr.seek(SeekOrigin::Start(1)), Ok(1));
    assert_eq!(fr.read(2).unwrap(), b"el".to_vec());
    assert_eq!(fr.read(100).unwrap(), b"lo".to_vec());
    assert_eq!(fr.read(1).unwrap(), Vec::<u8>::new());
    assert_eq!(fr.seek(SeekOrigin::End(-5)), Ok(0));
    assert_eq!(fr.seek(SeekOrigin::Current(4)), Ok(4));
    assert_eq!(fr.read(5).unwrap(), b"o".to_vec());
    assert_eq!(fr.seek(SeekOrigin::Start(6)), Err(NcaError::InvalidInput));
    assert_eq!(fr.seek(SeekOrigin::Current(-100)), Err(NcaError::InvalidInput));
}
