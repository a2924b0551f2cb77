use lib::device::{BlockDevice, RamDisk};
use lib::fs::{fms_strerror, Fms};
use lib::layout::{
    read_u32, write_u32, FmsError, FmsFileEntry, FmsSuperblock, FMS_BLOCK_SIZE, FMS_MAGIC,
    FMS_MAX_FILES, FMS_VERSION,
};
use lib::table::{bytes_to_blocks, find_contiguous_space, find_entry, find_free_entry, validate_name};

fn fresh(blocks: u32) -> (RamDisk, Fms) {
    let mut disk = RamDisk::new(blocks);
    let fs = Fms::format(&mut disk, blocks).expect("format");
    (disk, fs)
}

fn read_all(fs: &mut Fms, disk: &mut RamDisk, name: &str) -> Result<Vec<u8>, FmsError> {
    let entry = fs.stat(disk, name)?;
    let mut buf = vec![0u8; entry.size as usize];
    let mut read = 0usize;
    fs.read_file(disk, name, &mut buf, &mut read)?;
    buf.truncate(read);
    Ok(buf)
}

fn listed(fs: &mut Fms, disk: &mut RamDisk) -> Vec<FmsFileEntry> {
    let mut entries = [FmsFileEntry::empty(); FMS_MAX_FILES];
    let mut count = 0usize;
    fs.list(disk, &mut entries, &mut count).expect("list");
    entries[..count].to_vec()
}

#[test]
fn format_gives_an_empty_filesystem() {
    let (mut disk, mut fs) = fresh(128);
    assert_eq!(listed(&mut fs, &mut disk).len(), 0);
    assert_eq!(fs.superblock.total_blocks, 128);
    assert_eq!(fs.superblock.file_table_start, 1);
    assert_eq!(fs.superblock.data_start, 9);
    assert_eq!(fs.superblock.file_count, 0);
}

#[test]
fn format_refuses_too_few_blocks() {
    let mut disk = RamDisk::new(9);
    assert!(matches!(Fms::format(&mut disk, 9), Err(FmsError::BadFs)));
    let mut disk = RamDisk::new(10);
    assert!(Fms::format(&mut disk, 10).is_ok());
}

#[test]
fn format_needs_the_blocks_it_names() {
    let mut disk = RamDisk::new(20);
    assert!(matches!(Fms::format(&mut disk, 30), Err(FmsError::Io)));
}

#[test]
fn read_after_write() {
    let (mut disk, mut fs) = fresh(128);
    fs.write_file(&mut disk, "hello.txt", b"hello, world").unwrap();
    assert_eq!(read_all(&mut fs, &mut disk, "hello.txt").unwrap(), b"hello, world".to_vec());
}

#[test]
fn read_after_write_across_blocks() {
    let (mut disk, mut fs) = fresh(128);
    let data: Vec<u8> = (0..1300u32).map(|i| (i % 251) as u8).collect();
    fs.write_file(&mut disk, "big.bin", &data).unwrap();
    let entry = fs.stat(&mut disk, "big.bin").unwrap();
    assert_eq!(entry.size, 1300);
    assert_eq!(entry.block_count, 3);
    assert_eq!(entry.start_block, 9);
    assert_eq!(read_all(&mut fs, &mut disk, "big.bin").unwrap(), data);
}

#[test]
fn empty_file_takes_no_blocks() {
    let (mut disk, mut fs) = fresh(64);
    fs.write_file(&mut disk, "empty", b"").unwrap();
    let entry = fs.stat(&mut disk, "empty").unwrap();
    assert_eq!(entry.size, 0);
    assert_eq!(entry.block_count, 0);
    assert_eq!(entry.start_block, 9);
    assert_eq!(read_all(&mut fs, &mut disk, "empty").unwrap(), Vec::<u8>::new());
}

#[test]
fn other_files_are_kept_by_a_write() {
    let (mut disk, mut fs) = fresh(128);
    fs.write_file(&mut disk, "a", b"first").unwrap();
    fs.write_file(&mut disk, "b", b"second").unwrap();
    assert_eq!(read_all(&mut fs, &mut disk, "a").unwrap(), b"first".to_vec());
    assert_eq!(read_all(&mut fs, &mut disk, "b").unwrap(), b"second".to_vec());
    assert_eq!(fs.superblock.file_count, 2);
}

#[test]
fn overwrite_keeps_the_second_contents() {
    let (mut disk, mut fs) = fresh(128);
    fs.write_file(&mut disk, "note", b"one").unwrap();
    fs.write_file(&mut disk, "note", b"two two").unwrap();
    assert_eq!(read_all(&mut fs, &mut disk, "note").unwrap(), b"two two".to_vec());
    assert_eq!(fs.superblock.file_count, 1);
    assert_eq!(listed(&mut fs, &mut disk).len(), 1);
}

#[test]
fn delete_removes_the_file() {
    let (mut disk, mut fs) = fresh(128);
    fs.write_file(&mut disk, "gone", b"bye").unwrap();
    fs.write_file(&mut disk, "kept", b"stay").unwrap();
    fs.delete(&mut disk, "gone").unwrap();
    assert!(matches!(fs.stat(&mut disk, "gone"), Err(FmsError::NotFound)));
    assert_eq!(read_all(&mut fs, &mut disk, "kept").unwrap(), b"stay".to_vec());
    assert_eq!(fs.superblock.file_count, 1);
}

#[test]
fn delete_of_a_missing_file_is_not_found() {
    let (mut disk, mut fs) = fresh(64);
    assert!(matches!(fs.delete(&mut disk, "nothing"), Err(FmsError::NotFound)));
}

#[test]
fn write_then_delete_leaves_nothing() {
    let (mut disk, mut fs) = fresh(64);
    fs.write_file(&mut disk, "tmp", b"x").unwrap();
    fs.delete(&mut disk, "tmp").unwrap();
    assert_eq!(listed(&mut fs, &mut disk).len(), 0);
    assert_eq!(fs.superblock.file_count, 0);
}

#[test]
fn remount_sees_the_same_files() {
    let (mut disk, mut fs) = fresh(128);
    fs.write_file(&mut disk, "persist", b"still here").unwrap();
    fs.unmount();
    let mut again = Fms::mount(&mut disk).unwrap();
    assert_eq!(again.superblock.file_count, 1);
    assert_eq!(read_all(&mut again, &mut disk, "persist").unwrap(), b"still here".to_vec());
}

#[test]
fn unmounted_filesystem_refuses_work() {
    let (mut disk, mut fs) = fresh(64);
    fs.unmount();
    assert!(matches!(fs.write_file(&mut disk, "x", b"y"), Err(FmsError::BadFs)));
    assert!(matches!(fs.stat(&mut disk, "x"), Err(FmsError::BadFs)));
    assert!(matches!(fs.delete(&mut disk, "x"), Err(FmsError::BadFs)));
    let mut entries = [FmsFileEntry::empty(); FMS_MAX_FILES];
    let mut count = 7usize;
    assert!(matches!(fs.list(&mut disk, &mut entries, &mut count), Err(FmsError::BadFs)));
    assert_eq!(count, 7);
}

#[test]
fn unmounted_filesystem_still_checks_names_first() {
    let (mut disk, mut fs) = fresh(64);
    fs.unmount();
    assert!(matches!(fs.stat(&mut disk, ""), Err(FmsError::BadName)));
}

#[test]
fn mount_refuses_a_blank_disk() {
    let mut disk = RamDisk::new(16);
    assert!(matches!(Fms::mount(&mut disk), Err(FmsError::BadFs)));
}

#[test]
fn mount_of_an_empty_device_fails() {
    let mut disk = RamDisk::new(0);
    assert!(matches!(Fms::mount(&mut disk), Err(FmsError::Io)));
}

#[test]
fn names_are_checked() {
    let (mut disk, mut fs) = fresh(64);
    assert!(matches!(fs.write_file(&mut disk, "", b"x"), Err(FmsError::BadName)));
    assert!(matches!(fs.write_file(&mut disk, "a/b", b"x"), Err(FmsError::BadName)));
    let long = "abcdefghijklmnopqrstuvwxyz012345";
    assert_eq!(long.len(), 32);
    assert!(matches!(fs.write_file(&mut disk, long, b"x"), Err(FmsError::BadName)));
    let longest = "abcdefghijklmnopqrstuvwxyz01234";
    assert!(fs.write_file(&mut disk, longest, b"x").is_ok());
    assert_eq!(fs.stat(&mut disk, longest).unwrap().name_bytes(), longest.as_bytes());
}

#[test]
fn validate_name_rules() {
    assert!(validate_name("ok.txt").is_ok());
    assert!(matches!(validate_name(""), Err(FmsError::BadName)));
    assert!(matches!(validate_name("dir/file"), Err(FmsError::BadName)));
    assert!(matches!(validate_name(&"n".repeat(32)), Err(FmsError::BadName)));
    assert!(validate_name(&"n".repeat(31)).is_ok());
}

#[test]
fn a_read_buffer_too_small_is_too_large() {
    let (mut disk, mut fs) = fresh(64);
    fs.write_file(&mut disk, "f", b"0123456789").unwrap();
    let mut buf = [0u8; 4];
    let mut read = 99usize;
    assert!(matches!(fs.read_file(&mut disk, "f", &mut buf, &mut read), Err(FmsError::TooLarge)));
    assert_eq!(read, 99);
}

#[test]
fn a_full_disk_has_no_space() {
    let (mut disk, mut fs) = fresh(12);
    fs.write_file(&mut disk, "fill", &[7u8; 3 * 512]).unwrap();
    assert!(matches!(fs.write_file(&mut disk, "more", b"x"), Err(FmsError::NoSpace)));
    assert!(fs.write_file(&mut disk, "none", b"").is_ok());
}

#[test]
fn a_full_table_has_no_space() {
    let (mut disk, mut fs) = fresh(16);
    for i in 0..64 {
        let name = format!("f{i}");
        fs.write_file(&mut disk, &name, b"").unwrap();
    }
    assert_eq!(fs.superblock.file_count, 64);
    assert!(matches!(fs.write_file(&mut disk, "extra", b""), Err(FmsError::NoSpace)));
    fs.write_file(&mut disk, "f3", b"replaced").unwrap();
    assert_eq!(read_all(&mut fs, &mut disk, "f3").unwrap(), b"replaced".to_vec());
}

#[test]
fn first_fit_reuses_a_freed_hole() {
    let (mut disk, mut fs) = fresh(64);
    fs.write_file(&mut disk, "a", &[1u8; 512]).unwrap();
    fs.write_file(&mut disk, "b", &[2u8; 1024]).unwrap();
    fs.write_file(&mut disk, "c", &[3u8; 512]).unwrap();
    assert_eq!(fs.stat(&mut disk, "b").unwrap().start_block, 10);
    fs.delete(&mut disk, "b").unwrap();
    fs.write_file(&mut disk, "d", &[4u8; 512]).unwrap();
    assert_eq!(fs.stat(&mut disk, "d").unwrap().start_block, 10);
    fs.write_file(&mut disk, "e", &[5u8; 1024]).unwrap();
    assert_eq!(fs.stat(&mut disk, "e").unwrap().start_block, 13);
}

#[test]
fn list_gives_used_slots_in_table_order() {
    let (mut disk, mut fs) = fresh(64);
    fs.write_file(&mut disk, "one", b"1").unwrap();
    fs.write_file(&mut disk, "two", b"22").unwrap();
    fs.write_file(&mut disk, "three", b"333").unwrap();
    fs.delete(&mut disk, "two").unwrap();
    let names: Vec<Vec<u8>> = listed(&mut fs, &mut disk).iter().map(|e| e.name_bytes().to_vec()).collect();
    assert_eq!(names, vec![b"one".to_vec(), b"three".to_vec()]);
}

#[test]
fn strerror_messages() {
    assert_eq!(fms_strerror(FmsError::Io), "io error");
    assert_eq!(fms_strerror(FmsError::BadFs), "invalid filesystem");
    assert_eq!(fms_strerror(FmsError::NotFound), "file not found");
    assert_eq!(fms_strerror(FmsError::Exists), "file already exists");
    assert_eq!(fms_strerror(FmsError::NoSpace), "no space left");
    assert_eq!(fms_strerror(FmsError::BadName), "invalid filename");
    assert_eq!(fms_strerror(FmsError::TooLarge), "buffer too small");
}

#[test]
fn superblock_new_and_roundtrip() {
    let sb = FmsSuperblock::new(4096);
    assert_eq!(sb.magic, FMS_MAGIC);
    assert_eq!(sb.version, FMS_VERSION);
    assert_eq!(sb.block_size, 512);
    assert_eq!(sb.file_table_blocks, 8);
    assert_eq!(sb.max_files, 64);
    assert!(sb.is_valid());
    let mut block = [0xAAu8; FMS_BLOCK_SIZE];
    sb.encode_into(&mut block);
    assert_eq!(&block[0..4], &[0x46, 0x53, 0x46, 0x31]);
    assert_eq!(block[100], 0);
    let back = FmsSuperblock::decode_from(&block);
    assert_eq!(back.total_blocks, 4096);
    assert_eq!(back.data_start, 9);
    assert!(back.is_valid());
}

#[test]
fn superblock_validity() {
    let mut sb = FmsSuperblock::new(100);
    sb.magic = 0;
    assert!(!sb.is_valid());
    let mut sb = FmsSuperblock::new(9);
    assert!(!sb.is_valid());
    sb.total_blocks = 10;
    assert!(sb.is_valid());
}

#[test]
fn u32_little_endian() {
    let mut buf = [0u8; 8];
    write_u32(&mut buf, 2, 0x1234_5678);
    assert_eq!(buf, [0, 0, 0x78, 0x56, 0x34, 0x12, 0, 0]);
    assert_eq!(read_u32(&buf, 2), 0x1234_5678);
}

#[test]
fn entry_names() {
    let mut e = FmsFileEntry::empty();
    assert_eq!(e.name_len(), 0);
    e.set_name("abc");
    assert_eq!(e.name_len(), 3);
    assert_eq!(e.name_bytes(), b"abc");
    e.set_name(&"z".repeat(40));
    assert_eq!(e.name_len(), 31);
    e.set_name("x");
    assert_eq!(e.name_bytes(), b"x");
}

#[test]
fn blocks_for_sizes() {
    assert_eq!(bytes_to_blocks(0), 0);
    assert_eq!(bytes_to_blocks(1), 1);
    assert_eq!(bytes_to_blocks(512), 1);
    assert_eq!(bytes_to_blocks(513), 2);
    assert_eq!(bytes_to_blocks(1300), 3);
}

#[test]
fn table_searches() {
    let mut table = [FmsFileEntry::empty(); FMS_MAX_FILES];
    assert_eq!(find_free_entry(&table), Some(0));
    table[0].used = true;
    table[0].set_name("a");
    table[2].used = true;
    table[2].set_name("b");
    assert_eq!(find_entry(&table, "b"), Some(2));
    assert_eq!(find_entry(&table, "c"), None);
    assert_eq!(find_free_entry(&table), Some(1));
    for e in table.iter_mut() {
        e.used = true;
    }
    assert_eq!(find_free_entry(&table), None);
}

#[test]
fn contiguous_space_first_fit() {
    let sb = FmsSuperblock::new(20);
    let mut table = [FmsFileEntry::empty(); FMS_MAX_FILES];
    assert_eq!(find_contiguous_space(&sb, &table, 0), Some(9));
    assert_eq!(find_contiguous_space(&sb, &table, 11), Some(9));
    assert_eq!(find_contiguous_space(&sb, &table, 12), None);
    table[0].used = true;
    table[0].start_block = 9;
    table[0].block_count = 2;
    table[1].used = true;
    table[1].start_block = 12;
    table[1].block_count = 3;
    assert_eq!(find_contiguous_space(&sb, &table, 1), Some(11));
    assert_eq!(find_contiguous_space(&sb, &table, 2), Some(15));
    assert_eq!(find_contiguous_space(&sb, &table, 5), Some(15));
    assert_eq!(find_contiguous_space(&sb, &table, 6), None);
}

#[test]
fn ram_disk_blocks() {
    let mut disk = RamDisk::new(4);
    assert_eq!(disk.block_count(), 4);
    let data = [9u8; FMS_BLOCK_SIZE];
    assert!(disk.write_block(3, &data).is_ok());
    let mut out = [0u8; FMS_BLOCK_SIZE];
    assert!(disk.read_block(3, &mut out).is_ok());
    assert_eq!(out, data);
    assert!(matches!(disk.read_block(4, &mut out), Err(FmsError::Io)));
    assert!(matches!(disk.write_block(4, &data), Err(FmsError::Io)));
}

#[test]
fn unmounted_filesystem_needs_no_disk() {
    let mut disk = RamDisk::new(0);
    let mut fs = Fms::format(&mut RamDisk::new(16), 16).unwrap();
    fs.unmount();
    assert!(matches!(fs.write_file(&mut disk, "x", b"y"), Err(FmsError::BadFs)));
    assert!(matches!(fs.write_file(&mut disk, "a/b", b"y"), Err(FmsError::BadName)));
    let mut out = [0u8; 4];
    let mut n = 0usize;
    assert!(matches!(fs.read_file(&mut disk, "x", &mut out, &mut n), Err(FmsError::BadFs)));
}

#[test]
fn save_places_the_file_at_the_first_free_block() {
    let (mut disk, mut fs) = fresh(1024);
    fs.write_file(&mut disk, "notes", b"hello world").unwrap();
    let e = fs.stat(&mut disk, "notes").unwrap();
    assert_eq!((e.size, e.start_block, e.block_count), (11, 9, 1));
    let mut block = [0xFFu8; FMS_BLOCK_SIZE];
    disk.read_block(9, &mut block).unwrap();
    assert_eq!(&block[..11], b"hello world");
    assert!(block[11..].iter().all(|b| *b == 0));
}

#[test]
fn file_count_counts_the_names() {
    let (mut disk, mut fs) = fresh(64);
    fs.write_file(&mut disk, "a", b"1").unwrap();
    fs.write_file(&mut disk, "b", b"2").unwrap();
    fs.write_file(&mut disk, "a", b"3").unwrap();
    fs.delete(&mut disk, "b").unwrap();
    assert_eq!(fs.superblock.file_count as usize, listed(&mut fs, &mut disk).len());
    fs.unmount();
    let again = Fms::mount(&mut disk).unwrap();
    assert_eq!(again.superblock.file_count, 1);
    assert_eq!(again.superblock.total_blocks, 64);
}
