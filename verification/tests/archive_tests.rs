use minitar::archive::TarFile;
use minitar::error::{FileTypeError, LibraryError, TarError};
use minitar::meta::{generate_header, FileMeta};
use minitar::node::TarNode;

fn file_meta(size: usize) -> FileMeta {
    FileMeta {
        is_dir: false,
        is_fifo: false,
        is_char_device: false,
        is_block_device: false,
        is_symlink: false,
        is_file: true,
        mode: 0o644,
        uid: 1000,
        gid: 100,
        size,
        mtime: 1600000000,
        link_name: Vec::new(),
        device_major: 0,
        device_minor: 0,
    }
}

fn symlink_meta(target: &[u8]) -> FileMeta {
    FileMeta {
        is_dir: false,
        is_fifo: false,
        is_char_device: false,
        is_block_device: false,
        is_symlink: true,
        is_file: false,
        mode: 0o777,
        uid: 1000,
        gid: 100,
        size: target.len(),
        mtime: 1600000000,
        link_name: target.to_vec(),
        device_major: 0,
        device_minor: 0,
    }
}

fn padded_name(name: &[u8]) -> Vec<u8> {
    let mut v = name.to_vec();
    while v.len() < 100 {
        v.push(0);
    }
    v
}

fn sample_content(len: usize) -> Vec<u8> {
    let mut v = Vec::new();
    for i in 0..len {
        v.push((i % 251) as u8);
    }
    v
}

#[test]
fn open_tar_file() {
    let content = sample_content(300);
    let archive = TarFile::new(&b"test/1.txt".to_vec(), &file_meta(300), &content, None);
    let stream = archive.write();
    let reopened = TarFile::open(&stream);
    assert_eq!(reopened.file.len(), 1);
}

#[test]
fn new_and_write_tar_file() {
    let content = b"Hello".to_vec();
    let archive = TarFile::new(&b"test/1.txt".to_vec(), &file_meta(5), &content, None);
    let bytes = archive.write();
    // one header record, one content block, the 18-block terminator
    assert_eq!(bytes.len(), 512 + 512 + 9216);
}

#[test]
fn new_and_append_tar_file() {
    let content = b"Hello".to_vec();
    let mut archive = TarFile::new(&b"test/1.txt".to_vec(), &file_meta(5), &content, None);
    archive.append(
        &b"test/1.lnk".to_vec(),
        &symlink_meta(b"test/1.txt"),
        &Vec::new(),
        None,
    );
    let bytes = archive.write();
    // a symlink entry owns no content blocks
    assert_eq!(bytes.len(), (512 + 512) + 512 + 9216);
}

#[test]
fn open_and_write_tar_file() {
    let content = sample_content(700);
    let archive = TarFile::new(&b"test/1.txt".to_vec(), &file_meta(700), &content, None);
    let first = archive.write();
    let reopened = TarFile::open(&first);
    let second = reopened.write();
    assert_eq!(first, second);
}

#[test]
fn append_remove_tar_file() {
    let content = b"Hello".to_vec();
    let mut archive = TarFile::new(&b"test/1.txt".to_vec(), &file_meta(5), &content, None);
    archive.append(&b"test/1.txt".to_vec(), &file_meta(5), &content, None);
    // the stored name field is "test/1.txt": a bare "1.txt" matches nothing
    assert!(!archive.remove(&b"1.txt".to_vec()));
    assert_eq!(archive.file.len(), 2);
    let bytes = archive.write();
    assert!(bytes.len() > 0);
}

#[test]
fn append_remove_remove_tar_file() {
    let content = b"Hello".to_vec();
    let mut archive = TarFile::new(&b"test/1.txt".to_vec(), &file_meta(5), &content, None);
    archive.append(&b"test/1.txt".to_vec(), &file_meta(5), &content, None);
    if archive.remove(&b"test/1.txt".to_vec()) {
        if archive.remove(&b"test/1.txt".to_vec()) {
            if archive.remove(&b"test/1.txt".to_vec()) {
                panic!("a third removal from a two-entry archive must fail");
            }
        }
    }
    let bytes = archive.write();
    if bytes.len() != 0 {
        panic!("an empty archive must write zero bytes");
    }
}

#[test]
fn remove_takes_exactly_one_match() {
    let content = b"abc".to_vec();
    let mut archive = TarFile::new(&b"same.txt".to_vec(), &file_meta(3), &content, None);
    archive.append(&b"same.txt".to_vec(), &file_meta(3), &content, None);
    assert_eq!(archive.file.len(), 2);
    assert!(archive.remove(&b"same.txt".to_vec()));
    assert_eq!(archive.file.len(), 1);
    let want = padded_name(b"same.txt");
    let mut matches = 0;
    for node in &archive.file {
        if node.header.file_name == want {
            matches += 1;
        }
    }
    assert_eq!(matches, 1);
}

#[test]
fn write_ends_with_zero_terminator() {
    let content = sample_content(513);
    let archive = TarFile::new(&b"t".to_vec(), &file_meta(513), &content, None);
    let bytes = archive.write();
    assert!(bytes.len() >= 9216);
    for i in bytes.len() - 9216..bytes.len() {
        assert_eq!(bytes[i], 0);
    }
}

#[test]
fn archive_roundtrip_preserves_entry() {
    let content = sample_content(700);
    let archive = TarFile::new(&b"a.txt".to_vec(), &file_meta(700), &content, None);
    let stream = archive.write();
    let reopened = TarFile::open(&stream);
    assert_eq!(reopened.file.len(), 1);
    let entry = &reopened.file[0];
    assert_eq!(entry.header.file_name, padded_name(b"a.txt"));
    let mut joined = Vec::new();
    for block in &entry.data {
        joined.extend_from_slice(block);
    }
    assert_eq!(&joined[..700], &content[..]);
}

#[test]
fn archive_roundtrip_block_aligned_content() {
    let content = sample_content(512);
    let archive = TarFile::new(&b"a.txt".to_vec(), &file_meta(512), &content, None);
    let stream = archive.write();
    let reopened = TarFile::open(&stream);
    assert_eq!(reopened.file.len(), 1);
    let entry = &reopened.file[0];
    let mut joined = Vec::new();
    for block in &entry.data {
        joined.extend_from_slice(block);
    }
    assert_eq!(&joined[..512], &content[..]);
}

#[test]
fn node_write_length() {
    let content = sample_content(1025);
    let node = TarNode::read_file_to_tar(&b"big".to_vec(), &file_meta(1025), &content, None);
    assert_eq!(node.data.len(), 3);
    assert_eq!(node.write().len(), 512 * 4);
}

#[test]
fn read_rejects_invalid_magic() {
    let mut header = generate_header(&b"x".to_vec(), &file_meta(0), None);
    header.ustar_magic[0] = b'X';
    header.update_checksum();
    assert!(header.validate_checksum());
    let bytes = header.to_bytes();
    assert!(matches!(
        TarNode::read(&bytes, 0),
        Err(TarError::InvalidMagic)
    ));
}

#[test]
fn read_rejects_invalid_checksum() {
    let mut header = generate_header(&b"x".to_vec(), &file_meta(0), None);
    header.header_checksum[0] = b'7';
    let bytes = header.to_bytes();
    assert!(matches!(
        TarNode::read(&bytes, 0),
        Err(TarError::InvalidChecksum)
    ));
}

#[test]
fn read_rejects_bad_size_field() {
    let mut header = generate_header(&b"x".to_vec(), &file_meta(0), None);
    header.file_size = b"xxxxxxxxxxx\0".to_vec();
    header.update_checksum();
    let bytes = header.to_bytes();
    assert!(matches!(
        TarNode::read(&bytes, 0),
        Err(TarError::EncodingFailure)
    ));
}

#[test]
fn read_stops_at_sentinel() {
    let zeros = vec![0u8; 512];
    assert!(matches!(TarNode::read(&zeros, 0), Err(TarError::EndOfTar)));
}

#[test]
fn read_fails_on_short_stream() {
    let short = vec![0u8; 100];
    assert!(matches!(TarNode::read(&short, 0), Err(TarError::IoFailure)));
}

#[test]
fn open_stops_at_corrupt_record() {
    let content = b"data".to_vec();
    let archive = TarFile::new(&b"ok.txt".to_vec(), &file_meta(4), &content, None);
    let mut stream = archive.write();
    // corrupt the second record (the terminator region): a non-zero garbage
    // record stops the scan after the first entry
    stream[512 + 512] = 0xff;
    let reopened = TarFile::open(&stream);
    assert_eq!(reopened.file.len(), 1);
}

#[test]
fn library_error_conversions() {
    assert_eq!(
        LibraryError::from(TarError::EndOfTar),
        LibraryError::Tar(TarError::EndOfTar)
    );
    assert_eq!(
        LibraryError::from(FileTypeError::Unknown),
        LibraryError::Filetype(FileTypeError::Unknown)
    );
}

#[test]
fn non_regular_entry_owns_no_blocks() {
    // a directory's size field quirk must not produce content blocks
    let mut meta = file_meta(4096);
    meta.is_file = false;
    meta.is_dir = true;
    let node = TarNode::read_file_to_tar(&b"some/dir".to_vec(), &meta, &Vec::new(), None);
    assert_eq!(node.data.len(), 0);
    assert_eq!(node.header.link_indicator, vec![0x35u8]);
}

#[test]
fn symlink_entry_carries_its_target() {
    let meta = symlink_meta(b"target/file");
    let node = TarNode::read_file_to_tar(&b"a.lnk".to_vec(), &meta, &Vec::new(), None);
    assert_eq!(node.data.len(), 0);
    assert_eq!(node.header.link_indicator, vec![0x32u8]);
    assert_eq!(node.header.link_name, padded_name(b"target/file"));
}

#[test]
fn device_entry_carries_device_numbers() {
    let mut meta = file_meta(0);
    meta.is_file = false;
    meta.is_char_device = true;
    meta.device_major = 5;
    meta.device_minor = 1;
    let header = generate_header(&b"dev/tty1".to_vec(), &meta, None);
    assert_eq!(header.link_indicator, vec![0x33u8]);
    assert_eq!(header.device_major, b"0000005\0".to_vec());
    assert_eq!(header.device_minor, b"0000001\0".to_vec());
}

#[test]
fn owner_name_field_from_user() {
    let user = b"operator".to_vec();
    let header = generate_header(&b"a".to_vec(), &file_meta(0), Some(&user));
    assert_eq!(&header.own_user_name[..8], b"operator");
    for i in 8..32 {
        assert_eq!(header.own_user_name[i], 0);
    }
    let bare = generate_header(&b"a".to_vec(), &file_meta(0), None);
    assert_eq!(bare.own_user_name, vec![0u8; 32]);
}
