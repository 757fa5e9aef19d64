use oxos::ide::IDEImpl;
use oxos::sfs::{
    file_entry_from_words, ContinuationEntry, DeletedDirectoryEntry, DeletedFileEntry,
    DirectoryEntry, FileEntry, SfsError, StartingMarkerEntry, SuperBlock, UnusableEntry,
    UnusedEntry, SFS,
};

fn set_byte(words: &mut [u32], b: usize, v: u8) {
    let shift = 8 * (b % 4);
    let w = b / 4;
    words[w] = (words[w] & !(0xFFu32 << shift)) | ((v as u32) << shift);
}

fn set_u64(words: &mut [u32], b0: usize, v: u64) {
    for k in 0..8 {
        set_byte(words, b0 + k, ((v >> (8 * k)) & 0xFF) as u8);
    }
}

fn sample_super_block() -> SuperBlock {
    SuperBlock {
        timestamp: 1,
        data_area_size: 2,
        index_area_size: 128,
        magicnum_and_sfs_version: 0x10534653,
        total_blocks: 16,
        reserved_block: 1,
        block_size: 2, // 512-byte blocks
        checksum: 0,
    }
}

#[test]
fn super_block_geometry() {
    let sb = sample_super_block();
    assert_eq!(sb.block_size_bytes(), 512);
    assert_eq!(sb.get_media_size(), 16 * 512);
    assert_eq!(sb.data_start_location(), 512);
    assert_eq!(sb.index_start_location(), 16 * 512 - 128);
    let mut sb2 = sample_super_block();
    sb2.increment_data_area_size(3, 99);
    assert_eq!(sb2.data_area_size, 5);
    assert_eq!(sb2.timestamp, 99);
    sb2.increment_index_area_size(64, 100);
    assert_eq!(sb2.index_area_size, 192);
    assert_eq!(sb2.timestamp, 100);
}

#[test]
fn entry_constructors_carry_their_tags() {
    assert_eq!(StartingMarkerEntry::new().entry_type, 0x02);
    assert_eq!(UnusedEntry::new().entry_type, 0x10);
    assert_eq!(DirectoryEntry::new(vec![0; 54], 0, 7).entry_type, 0x11);
    let f = FileEntry::new(vec![0; 30], 2, 4, 100, 0, 7);
    assert_eq!(f.entry_type, 0x12);
    assert_eq!(f.starting_block, 2);
    assert_eq!(f.ending_block, 4);
    assert_eq!(f.length, 100);
    assert_eq!(UnusableEntry::new(1, 2).entry_type, 0x18);
    assert_eq!(DeletedDirectoryEntry::new(vec![0; 54], 0, 7).entry_type, 0x19);
    assert_eq!(DeletedFileEntry::new(vec![0; 30], 1, 2, 3, 0, 7).entry_type, 0x1A);
    assert_eq!(ContinuationEntry::new(vec![b'x'; 64]).entry_name.len(), 64);
}

#[test]
fn file_entry_decoding() {
    let mut words = vec![0u32; 16];
    set_byte(&mut words, 0, 0x12);
    set_byte(&mut words, 1, 2);
    set_u64(&mut words, 2, 0xAABBCCDD11223344);
    set_u64(&mut words, 10, 5);
    set_u64(&mut words, 18, 9);
    set_u64(&mut words, 26, 1000);
    for (k, b) in b"hello".iter().enumerate() {
        set_byte(&mut words, 34 + k, *b);
    }
    let e = file_entry_from_words(&words);
    assert_eq!(e.entry_type, 0x12);
    assert_eq!(e.continuations, 2);
    assert_eq!(e.timestamp, 0xAABBCCDD11223344);
    assert_eq!(e.starting_block, 5);
    assert_eq!(e.ending_block, 9);
    assert_eq!(e.length, 1000);
    assert_eq!(&e.filename[0..5], b"hello");
    assert!(e.filename[5..].iter().all(|b| *b == 0));
}

fn sample_fs() -> SFS {
    let sb = sample_super_block();
    // media: 16 blocks of 512 bytes = 2048 words
    let mut disk = vec![0u32; 2048];
    // file "test": blocks [0, 1), 8 bytes long, in the data area
    let index_start_bytes = 16 * 512 - 128;
    let mut entry = vec![0u32; 16];
    set_byte(&mut entry, 0, 0x12);
    set_u64(&mut entry, 10, 0); // starting block
    set_u64(&mut entry, 18, 1); // ending block
    set_u64(&mut entry, 26, 8); // length in bytes
    for (k, b) in b"test".iter().enumerate() {
        set_byte(&mut entry, 34 + k, *b);
    }
    for (k, w) in entry.iter().enumerate() {
        disk[index_start_bytes / 4 + k] = *w;
    }
    // the file's data: data area starts at byte 512 = word 128
    disk[128] = 0x11111111;
    disk[129] = 0x22222222;
    disk[130] = 0x33333333; // beyond the file's length
    SFS::new(IDEImpl::with_data(1, disk), sb)
}

#[test]
fn read_file_returns_stored_words() {
    let fs = sample_fs();
    assert_eq!(fs.get_media_size(), 8192);
    let data = fs.read_file(&b"test".to_vec()).expect("file exists");
    assert_eq!(data, vec![0x11111111, 0x22222222]);
}

#[test]
fn read_file_missing_name() {
    let fs = sample_fs();
    match fs.read_file(&b"nosuch".to_vec()) {
        Err(SfsError::FileNotFound) => {},
        _ => panic!("expected FileNotFound"),
    }
    match fs.read_file(&vec![b'x'; 31]) {
        Err(SfsError::NameTooLong) => {},
        _ => panic!("expected NameTooLong"),
    }
}

#[test]
fn create_append_read_round_trip() {
    // a fresh filesystem: the index area holds just the starting marker
    let sb = SuperBlock {
        timestamp: 1,
        data_area_size: 0,
        index_area_size: 64,
        magicnum_and_sfs_version: 0x10534653,
        total_blocks: 16,
        reserved_block: 1,
        block_size: 2,
        checksum: 0,
    };
    let mut disk = vec![0u32; 2048];
    disk[(16 * 512 - 64) / 4] = 0x02; // the starting marker
    let mut fs = SFS::new(IDEImpl::with_data(1, disk), sb);
    let name = b"notes".to_vec();
    fs.create_file(&name, 2, 7);
    assert_eq!(fs.super_block.data_area_size, 2);
    assert_eq!(fs.super_block.index_area_size, 128);
    assert_eq!(fs.super_block.timestamp, 7);
    // the new entry is found and decodes as written
    let (entry, _pos) = fs.get_file_entry(&name).expect("created file exists");
    assert_eq!(entry.starting_block, 0);
    assert_eq!(entry.ending_block, 2);
    assert_eq!(entry.length, 0);
    assert_eq!(entry.timestamp, 7);
    // append two words; read them back through the entry
    fs.append_to_file(&name, &vec![0xAB, 0xCD], 8);
    let data = fs.read_file(&name).expect("file exists");
    assert_eq!(data, vec![0xAB, 0xCD]);
    let (entry2, _) = fs.get_file_entry(&name).expect("still there");
    assert_eq!(entry2.length, 8);
    assert_eq!(entry2.timestamp, 8);
    // creating the same name again changes nothing
    fs.create_file(&name, 5, 9);
    assert_eq!(fs.super_block.data_area_size, 2);
    // appending to a missing file changes nothing
    fs.append_to_file(&b"nosuch".to_vec(), &vec![1], 10);
    assert!(fs.read_file(&b"nosuch".to_vec()).is_err());
}

#[test]
fn get_file_entry_reports_position() {
    let fs = sample_fs();
    let (entry, pos) = fs.get_file_entry(&b"test".to_vec()).expect("file exists");
    assert_eq!(pos, 16 * 512 - 128);
    assert_eq!(entry.starting_block, 0);
    assert_eq!(entry.ending_block, 1);
    assert_eq!(entry.length, 8);
}
