use minitar::error::TarError;
use minitar::header::TarHeader;
use minitar::meta::{get_file_type, type_flag, FileMeta, HeaderNums};
use minitar::meta::{convert_header_to_dec, convert_header_to_oct, generate_header};
use minitar::node::parse_data;
use minitar::octal::{dec_to_oct, oct_to_dec};

fn regular_meta(size: usize) -> FileMeta {
    FileMeta {
        is_dir: false,
        is_fifo: false,
        is_char_device: false,
        is_block_device: false,
        is_symlink: false,
        is_file: true,
        mode: 0o644,
        uid: 1000,
        gid: 100,
        size,
        mtime: 1600000000,
        link_name: Vec::new(),
        device_major: 0,
        device_minor: 0,
    }
}

#[test]
fn dec_to_oct_exact() {
    assert_eq!(dec_to_oct(0o755, 7), b"0000755".to_vec());
    assert_eq!(dec_to_oct(0, 11), b"00000000000".to_vec());
    assert_eq!(dec_to_oct(512, 11), b"00000001000".to_vec());
}

#[test]
fn oct_to_dec_exact() {
    assert_eq!(oct_to_dec(&b"0000755\0".to_vec()), Ok(0o755));
    assert_eq!(oct_to_dec(&b"00000001001\0".to_vec()), Ok(513));
}

#[test]
fn oct_to_dec_rejects_bad_text() {
    assert_eq!(
        oct_to_dec(&b"00009xy\0".to_vec()),
        Err(TarError::EncodingFailure)
    );
    assert_eq!(oct_to_dec(&b"\0".to_vec()), Err(TarError::EncodingFailure));
    assert_eq!(oct_to_dec(&Vec::new()), Err(TarError::EncodingFailure));
}

#[test]
fn checksum_exact_value() {
    // an all-zero header summed with the checksum field read as spaces:
    // 8 * 0x20 == 256 == 0o400
    let mut h = TarHeader::default();
    assert_eq!(h.calc_checksum(), 256);
    h.update_checksum();
    assert_eq!(h.header_checksum, b"000400\0 ".to_vec());
    assert!(h.validate_checksum());
}

#[test]
fn checksum_validates_after_update() {
    let name = b"test/1.txt".to_vec();
    let meta = regular_meta(5);
    let mut h = generate_header(&name, &meta, None);
    assert!(h.validate_checksum());
    h.update_checksum();
    assert!(h.validate_checksum());
}

#[test]
fn checksum_detects_single_byte_change() {
    let name = b"test/1.txt".to_vec();
    let meta = regular_meta(5);
    let mut h = generate_header(&name, &meta, None);
    assert!(h.validate_checksum());
    h.file_name[0] = b'x';
    assert!(!h.validate_checksum());
}

#[test]
fn magic_validation() {
    let zeroed = TarHeader::default();
    assert!(!zeroed.validate_magic());
    let built = generate_header(&b"a.txt".to_vec(), &regular_meta(0), None);
    assert!(built.validate_magic());
    assert_eq!(built.ustar_magic, b"ustar ".to_vec());
    assert_eq!(built.ustar_version, vec![0x20u8, 0x00u8]);
}

#[test]
fn header_bytes_roundtrip() {
    let user = b"operator".to_vec();
    let h = generate_header(&b"dir/file.bin".to_vec(), &regular_meta(513), Some(&user));
    let bytes = h.to_bytes();
    assert_eq!(bytes.len(), 512);
    let back = TarHeader::from_bytes(&bytes).unwrap();
    assert_eq!(back.file_name, h.file_name);
    assert_eq!(back.file_size, h.file_size);
    assert_eq!(back.header_checksum, h.header_checksum);
    assert_eq!(back.own_user_name, h.own_user_name);
    assert!(back.validate_checksum());
}

#[test]
fn from_bytes_needs_exactly_one_block() {
    let short = vec![0u8; 511];
    assert!(matches!(
        TarHeader::from_bytes(&short),
        Err(TarError::EncodingFailure)
    ));
    let long = vec![0u8; 513];
    assert!(matches!(
        TarHeader::from_bytes(&long),
        Err(TarError::EncodingFailure)
    ));
}

#[test]
fn chunk_counts() {
    assert_eq!(parse_data(&Vec::new()).len(), 0);
    assert_eq!(parse_data(&vec![7u8; 512]).len(), 1);
    let blocks = parse_data(&vec![9u8; 513]);
    assert_eq!(blocks.len(), 2);
    assert_eq!(blocks[1][0], 9);
    for i in 1..512 {
        assert_eq!(blocks[1][i], 0, "padding byte {} must be zero", i);
    }
}

#[test]
fn file_type_classification() {
    let mut meta = regular_meta(0);
    assert_eq!(get_file_type(&meta), 0x30);
    meta.is_dir = true;
    assert_eq!(get_file_type(&meta), 0x35);
    meta.is_dir = false;
    meta.is_fifo = true;
    assert_eq!(get_file_type(&meta), 0x36);
    meta.is_fifo = false;
    meta.is_char_device = true;
    assert_eq!(get_file_type(&meta), 0x33);
    meta.is_char_device = false;
    meta.is_block_device = true;
    assert_eq!(get_file_type(&meta), 0x34);
    meta.is_block_device = false;
    meta.is_symlink = true;
    assert_eq!(get_file_type(&meta), 0x32);
    meta.is_symlink = false;
    meta.is_file = false;
    assert_eq!(get_file_type(&meta), 0x00);
}

#[test]
fn type_flag_codes() {
    assert_eq!(type_flag::Normal.code(), 0x30);
    assert_eq!(type_flag::Hard.code(), 0x31);
    assert_eq!(type_flag::Symbolic.code(), 0x32);
    assert_eq!(type_flag::Character.code(), 0x33);
    assert_eq!(type_flag::Block.code(), 0x34);
    assert_eq!(type_flag::Directory.code(), 0x35);
    assert_eq!(type_flag::FIFO.code(), 0x36);
    assert_eq!(type_flag::Unknown.code(), 0x00);
}

#[test]
fn numeric_fields_roundtrip() {
    let nums = HeaderNums {
        mode: 0o640,
        uid: 12,
        gid: 7,
        size: 4097,
        mtime: 1234567,
    };
    let h = convert_header_to_oct(&nums);
    let back = convert_header_to_dec(&h).unwrap();
    assert_eq!(back.mode, 0o640);
    assert_eq!(back.uid, 12);
    assert_eq!(back.gid, 7);
    assert_eq!(back.size, 4097);
    assert_eq!(back.mtime, 1234567);
}

#[test]
fn numeric_fields_reject_zero_filled() {
    let h = TarHeader::default();
    assert!(matches!(
        convert_header_to_dec(&h),
        Err(TarError::EncodingFailure)
    ));
}
