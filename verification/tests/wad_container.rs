use doom_core::bytes::name_from_field;
use doom_core::bytes::name_len;
use doom_core::bytes::read_i16_at;
use doom_core::bytes::read_u16_at;
use doom_core::bytes::read_u32_at;
use doom_core::wad::read_directory;
use doom_core::wad::write_directory;
use doom_core::wad::DirEntry;
use doom_core::wad::ReadStage;
use doom_core::wad::WadError;
use doom_core::wad::WadFile;

/// A container with the lumps stored one after the other behind the header
/// and the directory at the end.
fn container(magic: &[u8; 4], lumps: &[(&[u8; 8], &[u8])]) -> Vec<u8> {
    let mut bytes = Vec::new();
    bytes.extend_from_slice(magic);
    bytes.extend_from_slice(&(lumps.len() as u32).to_le_bytes());
    let data_len: usize = lumps.iter().map(|l| l.1.len()).sum();
    bytes.extend_from_slice(&((12 + data_len) as u32).to_le_bytes());
    let mut offsets = Vec::new();
    for (_, data) in lumps {
        offsets.push(bytes.len() as u32);
        bytes.extend_from_slice(data);
    }
    for (i, (name, data)) in lumps.iter().enumerate() {
        bytes.extend_from_slice(&offsets[i].to_le_bytes());
        bytes.extend_from_slice(&(data.len() as u32).to_le_bytes());
        bytes.extend_from_slice(&name[..]);
    }
    bytes
}

fn header(magic: &[u8; 4], count: u32, directory: u32) -> Vec<u8> {
    let mut bytes = magic.to_vec();
    bytes.extend_from_slice(&count.to_le_bytes());
    bytes.extend_from_slice(&directory.to_le_bytes());
    bytes
}

fn entry(offset: u32, size: u32, name: &[u8; 8]) -> Vec<u8> {
    let mut bytes = offset.to_le_bytes().to_vec();
    bytes.extend_from_slice(&size.to_le_bytes());
    bytes.extend_from_slice(name);
    bytes
}

#[test]
fn patch_container_with_one_lump_loads() {
    let bytes = container(b"PWAD", &[(b"TESTLUMP", &[1, 2, 3, 4])]);
    let wad = WadFile::load(&bytes).unwrap();
    assert_eq!(wad.lumps.len(), 1);
    let lump = wad.find_lump("TESTLUMP").unwrap();
    assert_eq!(lump.name, "TESTLUMP");
    assert_eq!(lump.data, vec![1, 2, 3, 4]);
}

#[test]
fn unknown_signature_is_rejected() {
    let mut bytes = container(b"PWAD", &[(b"TESTLUMP", &[1, 2, 3, 4])]);
    bytes[0] = b'X';
    assert!(matches!(WadFile::load(&bytes), Err(WadError::InvalidSignature)));
    assert!(matches!(read_directory(&bytes), Err(WadError::InvalidSignature)));
    assert!(matches!(WadFile::load(b"XWAD"), Err(WadError::InvalidSignature)));
    assert!(matches!(WadFile::load(b"pwad\0\0\0\0\x0c\0\0\0"), Err(WadError::InvalidSignature)));
    assert!(matches!(WadFile::load(b"PWAX\0\0\0\0\x0c\0\0\0"), Err(WadError::InvalidSignature)));
}

#[test]
fn both_signatures_are_recognised() {
    for magic in [b"IWAD", b"PWAD"] {
        let wad = WadFile::load(&container(magic, &[(b"A\0\0\0\0\0\0\0", &[7])])).unwrap();
        assert_eq!(wad.lumps[0].name, "A");
        assert_eq!(wad.lumps[0].data, vec![7]);
    }
}

#[test]
fn empty_container_has_no_lumps() {
    let wad = WadFile::load(&header(b"IWAD", 0, 12)).unwrap();
    assert!(wad.lumps.is_empty());
    assert!(wad.find_lump("").is_none());
}

#[test]
fn stream_that_ends_early_is_an_io_error() {
    assert_eq!(WadFile::load(&[]).err(), Some(WadError::Io(ReadStage::Signature)));
    assert_eq!(WadFile::load(b"XW").err(), Some(WadError::Io(ReadStage::Signature)));
    assert_eq!(WadFile::load(b"PWAD").err(), Some(WadError::Io(ReadStage::Header)));
    assert_eq!(
        WadFile::load(b"PWAD\0\0\0\0\x0c\0\0").err(),
        Some(WadError::Io(ReadStage::Header))
    );
    // The directory starts past the end.
    assert_eq!(
        WadFile::load(&header(b"PWAD", 0, 13)).err(),
        Some(WadError::Io(ReadStage::Directory))
    );
    // The directory is cut short.
    let mut bytes = container(b"PWAD", &[(b"TESTLUMP", &[1, 2, 3, 4])]);
    bytes.pop();
    assert_eq!(WadFile::load(&bytes).err(), Some(WadError::Io(ReadStage::Directory)));
    // More lumps are announced than the directory holds.
    let mut bytes = container(b"PWAD", &[(b"TESTLUMP", &[1, 2, 3, 4])]);
    bytes[4] = 2;
    assert_eq!(WadFile::load(&bytes).err(), Some(WadError::Io(ReadStage::Directory)));
    assert_eq!(
        WadFile::load(&header(b"PWAD", u32::MAX, u32::MAX)).err(),
        Some(WadError::Io(ReadStage::Directory))
    );
}

#[test]
fn lump_that_runs_past_the_end_fails_the_whole_load() {
    let mut bytes = header(b"PWAD", 2, 12);
    bytes.extend_from_slice(&entry(0, 4, b"GOOD\0\0\0\0"));
    bytes.extend_from_slice(&entry(40, 5, b"LONG\0\0\0\0"));
    assert_eq!(bytes.len(), 44);
    assert_eq!(WadFile::load(&bytes).err(), Some(WadError::Io(ReadStage::Lump)));
    bytes[32] = 4;
    assert_eq!(WadFile::load(&bytes).unwrap().lumps.len(), 2);
    // An empty lump may start at the very end of the stream, not past it.
    let mut bytes = header(b"PWAD", 1, 12);
    bytes.extend_from_slice(&entry(28, 0, b"EMPTY\0\0\0"));
    assert_eq!(WadFile::load(&bytes).unwrap().lumps[0].data, Vec::<u8>::new());
    bytes[12] = 29;
    assert_eq!(WadFile::load(&bytes).err(), Some(WadError::Io(ReadStage::Lump)));
    let mut bytes = header(b"PWAD", 1, 12);
    bytes.extend_from_slice(&entry(u32::MAX, u32::MAX, b"HUGE\0\0\0\0"));
    assert_eq!(WadFile::load(&bytes).err(), Some(WadError::Io(ReadStage::Lump)));
}

#[test]
fn directory_and_data_may_stand_in_any_order() {
    // Header, directory, then the lumps in reverse order, overlapping.
    let mut bytes = header(b"IWAD", 3, 12);
    bytes.extend_from_slice(&entry(62, 2, b"FIRST\0\0\0"));
    bytes.extend_from_slice(&entry(60, 3, b"SECOND\0\0"));
    bytes.extend_from_slice(&entry(0, 4, b"HEADER\0\0"));
    bytes.extend_from_slice(&[10, 11, 12, 13]);
    let wad = WadFile::load(&bytes).unwrap();
    let names: Vec<&str> = wad.lumps.iter().map(|l| l.name.as_str()).collect();
    assert_eq!(names, vec!["FIRST", "SECOND", "HEADER"]);
    assert_eq!(wad.lumps[0].data, vec![12, 13]);
    assert_eq!(wad.lumps[1].data, vec![10, 11, 12]);
    assert_eq!(wad.lumps[2].data, b"IWAD".to_vec());
}

#[test]
fn find_returns_the_first_of_equal_names() {
    let bytes = container(
        b"PWAD",
        &[
            (b"OTHER\0\0\0", &[0]),
            (b"DUP\0\0\0\0\0", &[1]),
            (b"DUP\0\0\0\0\0", &[2]),
            (b"DUP\0JUNK", &[3]),
        ],
    );
    let wad = WadFile::load(&bytes).unwrap();
    assert_eq!(wad.find_lump("DUP").unwrap().data, vec![1]);
    assert_eq!(wad.find_index("DUP"), Some(1));
    assert_eq!(wad.find_index("OTHER"), Some(0));
    assert_eq!(wad.find_index("dup"), None);
    assert_eq!(wad.find_index("DUP "), None);
    assert_eq!(wad.find_index("DU"), None);
    assert!(wad.find_lump("JUNK").is_none());
}

#[test]
fn names_end_at_the_first_zero_byte() {
    assert_eq!(name_from_field(b"E1M1\0\0\0\0"), "E1M1");
    assert_eq!(name_from_field(b"TESTLUMP"), "TESTLUMP");
    assert_eq!(name_from_field(b"AB\0CD\0\0\0"), "AB");
    assert_eq!(name_from_field(b"\0BCDEFGH"), "");
    assert_eq!(name_from_field(b""), "");
    assert_eq!(name_from_field(b" a b \0\0\0"), " a b ");
    assert_eq!(name_len(b"AB\0CD\0\0\0"), 2);
    assert_eq!(name_len(b"TESTLUMP"), 8);
    assert_eq!(name_len(b""), 0);
}

#[test]
fn bytes_that_are_not_text_are_replaced_not_refused() {
    assert_eq!(name_from_field(&[b'A', 0xFF, b'B', 0, 0, 0, 0, 0]), "A\u{FFFD}B");
    assert_eq!(name_from_field(&[0xC3, 0xA9, 0, 0, 0, 0, 0, 0]), "\u{e9}");
    assert_eq!(name_from_field(&[0xC3, 0, 0xA9, 0, 0, 0, 0, 0]), "\u{FFFD}");
    let mut bytes = container(b"PWAD", &[(b"TESTLUMP", &[])]);
    let at = bytes.len() - 8;
    bytes[at] = 0x80;
    let wad = WadFile::load(&bytes).unwrap();
    assert_eq!(wad.lumps[0].name, "\u{FFFD}ESTLUMP");
}

#[test]
fn little_endian_fields_are_read_in_place() {
    let data = [0x34, 0x12, 0xFE, 0xFF, 0x78, 0x56, 0x34, 0x12, 0x00, 0x80];
    assert_eq!(read_u16_at(&data, 0), 0x1234);
    assert_eq!(read_u16_at(&data, 2), 0xFFFE);
    assert_eq!(read_i16_at(&data, 2), -2);
    assert_eq!(read_i16_at(&data, 0), 0x1234);
    assert_eq!(read_i16_at(&data, 8), i16::MIN);
    assert_eq!(read_u32_at(&data, 4), 0x1234_5678);
    assert_eq!(read_u32_at(&data, 0), 0xFFFE_1234);
    assert_eq!(read_u32_at(&data, 6), 0x8000_1234);
}

#[test]
fn directory_survives_reading_and_writing_back() {
    let bytes = container(
        b"IWAD",
        &[
            (b"E1M1\0\0\0\0", &[]),
            (b"THINGS\0\0", &[1, 2, 3, 4, 5, 6, 7, 8, 9, 10]),
            (b"AB\0CD\0\0\0", &[0xFF; 300]),
            (b"\xFF\xFE\0\0\0\0\0\0", &[1]),
        ],
    );
    let entries = read_directory(&bytes).unwrap();
    assert_eq!(entries.len(), 4);
    let start = 12 + 311;
    assert_eq!(write_directory(&entries), bytes[start..].to_vec());
    let wad = WadFile::load(&bytes).unwrap();
    for (e, lump) in entries.iter().zip(wad.lumps.iter()) {
        assert_eq!(e.size as usize, lump.data.len());
        assert_eq!(&bytes[e.offset as usize..(e.offset + e.size) as usize], &lump.data[..]);
    }
    assert_eq!(
        entries.iter().map(|e| (e.offset, e.size)).collect::<Vec<_>>(),
        vec![(12, 0), (12, 10), (22, 300), (322, 1)]
    );
}

#[test]
fn written_directory_reads_back() {
    let entries = vec![
        DirEntry { offset: 0, size: 12, name: *b"HEADER\0\0" },
        DirEntry { offset: 0x0102_0304, size: 0xA0B0_C0D0, name: [1, 2, 3, 4, 5, 6, 7, 8] },
        DirEntry { offset: u32::MAX, size: 0, name: [0; 8] },
    ];
    let stored = write_directory(&entries);
    assert_eq!(stored.len(), 48);
    assert_eq!(&stored[16..24], &[4, 3, 2, 1, 0xD0, 0xC0, 0xB0, 0xA0]);
    let mut bytes = header(b"PWAD", 3, 12);
    bytes.extend_from_slice(&stored);
    let read = read_directory(&bytes).unwrap();
    assert_eq!(read.len(), 3);
    for (a, b) in read.iter().zip(entries.iter()) {
        assert_eq!((a.offset, a.size, a.name), (b.offset, b.size, b.name));
    }
    assert_eq!(write_directory(&vec![]), Vec::<u8>::new());
}

#[test]
fn container_errors_describe_themselves() {
    assert_eq!(WadError::InvalidSignature.message(), "Invalid WAD signature");
    assert_eq!(
        WadError::Io(ReadStage::Signature).message(),
        "IO error: unexpected end of stream in the signature"
    );
    assert_eq!(
        WadError::Io(ReadStage::Header).message(),
        "IO error: unexpected end of stream in the header"
    );
    assert_eq!(
        WadError::Io(ReadStage::Directory).message(),
        "IO error: unexpected end of stream in the directory"
    );
    assert_eq!(
        WadError::Io(ReadStage::Lump).message(),
        "IO error: unexpected end of stream in the lump data"
    );
    assert_eq!(WadError::InvalidLumpName.message(), "Invalid lump name");
}
