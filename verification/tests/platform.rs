use lib::boot::{
    BootChecks, MULTIBOOT_BOOTLOADER_MAGIC, MULTIBOOT_CHECKSUM, MULTIBOOT_FLAGS,
    MULTIBOOT_HEADER_MAGIC,
};
use lib::cli::{parse_blocks, parse_host_args, HostCommand};
use lib::console::{
    make_color, Console, COLOR_BLACK, COLOR_BLUE, COLOR_LIGHT_CYAN, COLOR_RED, COLOR_WHITE,
    VGA_CELLS, VGA_WIDTH,
};
use lib::device::RamDisk;
use lib::fs::Fms;
use lib::host::{image_block_count, extents_fit, host_delete, host_files, host_info, host_open, host_save};
use lib::keyboard::{scancode_to_char, LineEditor};
use lib::layout::{
    decode_entry_at, decode_table_bytes, encode_entry_at, encode_table_bytes, FmsError,
    FmsFileEntry, FMS_DEFAULT_TOTAL_BLOCKS, FMS_MAX_FILES, TABLE_BYTES,
};
use lib::memory::{total_memory, PagePool, PhysicalMemory, MEMORY_POOL_SIZE, PAGE_SIZE};
use lib::pci::{make_config_address, pci_init, PciAction, PciDeviceInfo, VirtioProbe};
use lib::virtio::{fs_format_over_virtio, fs_mount_over_virtio, VirtioBlkDevice};

fn args(words: &[&str]) -> Vec<String> {
    words.iter().map(|w| w.to_string()).collect()
}

#[test]
fn block_counts_parse_like_u32() {
    assert_eq!(parse_blocks("128"), Ok(128));
    assert_eq!(parse_blocks("+7"), Ok(7));
    assert_eq!(parse_blocks("0"), Ok(0));
    assert_eq!(parse_blocks("4294967295"), Ok(u32::MAX));
    assert_eq!(parse_blocks("4294967296"), Err(FmsError::BadFs));
    assert_eq!(parse_blocks(""), Err(FmsError::BadFs));
    assert_eq!(parse_blocks("+"), Err(FmsError::BadFs));
    assert_eq!(parse_blocks("-1"), Err(FmsError::BadFs));
    assert_eq!(parse_blocks("12a"), Err(FmsError::BadFs));
    assert_eq!(parse_blocks(" 12"), Err(FmsError::BadFs));
    assert_eq!(parse_blocks("00012"), Ok(12));
}

#[test]
fn host_arguments() {
    assert!(matches!(parse_host_args(&args(&["fms"])), Ok(HostCommand::Usage)));
    match parse_host_args(&args(&["fms", "mkfs", "d.img"])) {
        Ok(HostCommand::Mkfs { disk, total_blocks }) => {
            assert_eq!(disk, "d.img");
            assert_eq!(total_blocks, FMS_DEFAULT_TOTAL_BLOCKS);
        },
        _ => panic!("expected mkfs"),
    }
    match parse_host_args(&args(&["fms", "mkfs", "d.img", "128"])) {
        Ok(HostCommand::Mkfs { total_blocks, .. }) => assert_eq!(total_blocks, 128),
        _ => panic!("expected mkfs"),
    }
    assert!(matches!(parse_host_args(&args(&["fms", "mkfs", "d.img", "lots"])), Err(FmsError::BadFs)));
    assert!(matches!(parse_host_args(&args(&["fms", "mkfs"])), Ok(HostCommand::Usage)));
    match parse_host_args(&args(&["fms", "save", "d.img", "notes.txt", "hello.txt"])) {
        Ok(HostCommand::Save { disk, host_file, name }) => {
            assert_eq!(disk, "d.img");
            assert_eq!(host_file, "notes.txt");
            assert_eq!(name, "hello.txt");
        },
        _ => panic!("expected save"),
    }
    match parse_host_args(&args(&["fms", "open", "d.img", "hello.txt"])) {
        Ok(HostCommand::Open { name, out, .. }) => {
            assert_eq!(name, "hello.txt");
            assert!(out.is_none());
        },
        _ => panic!("expected open"),
    }
    match parse_host_args(&args(&["fms", "open", "d.img", "hello.txt", "back.txt"])) {
        Ok(HostCommand::Open { out, .. }) => assert_eq!(out, Some("back.txt".to_string())),
        _ => panic!("expected open"),
    }
    assert!(matches!(parse_host_args(&args(&["fms", "files", "d.img"])), Ok(HostCommand::Files { .. })));
    assert!(matches!(parse_host_args(&args(&["fms", "files"])), Ok(HostCommand::Usage)));
    assert!(matches!(parse_host_args(&args(&["fms", "delete", "d.img", "x"])), Ok(HostCommand::Delete { .. })));
    assert!(matches!(parse_host_args(&args(&["fms", "info", "d.img", "x"])), Ok(HostCommand::Info { .. })));
    assert!(matches!(parse_host_args(&args(&["fms", "info", "d.img"])), Ok(HostCommand::Usage)));
    assert!(matches!(parse_host_args(&args(&["fms", "copy", "d.img"])), Ok(HostCommand::Usage)));
}

#[test]
fn host_commands_on_an_image() {
    let mut disk = RamDisk::new(64);
    Fms::format(&mut disk, 64).unwrap();
    assert!(matches!(host_save(&mut disk, "hello.txt", b"hello from the host"), Some(Ok(()))));
    match host_open(&mut disk, "hello.txt") {
        Some(Ok(v)) => assert_eq!(v, b"hello from the host".to_vec()),
        _ => panic!("expected the contents"),
    }
    match host_info(&mut disk, "hello.txt") {
        Some(Ok(e)) => {
            assert_eq!(e.size, 19);
            assert_eq!(e.start_block, 9);
            assert_eq!(e.block_count, 1);
        },
        _ => panic!("expected the entry"),
    }
    match host_files(&mut disk) {
        Some(Ok(v)) => {
            assert_eq!(v.len(), 1);
            assert_eq!(v[0].name_bytes(), b"hello.txt");
        },
        _ => panic!("expected the listing"),
    }
    assert!(matches!(host_delete(&mut disk, "hello.txt"), Some(Ok(()))));
    assert!(matches!(host_open(&mut disk, "hello.txt"), Some(Err(FmsError::NotFound))));
    assert!(matches!(host_info(&mut disk, "hello.txt"), Some(Err(FmsError::NotFound))));
    assert!(matches!(host_delete(&mut disk, "a/b"), Some(Err(FmsError::BadName))));
    match host_files(&mut disk) {
        Some(Ok(v)) => assert_eq!(v.len(), 0),
        _ => panic!("expected the listing"),
    }
}

#[test]
fn host_commands_need_a_filesystem() {
    let mut disk = RamDisk::new(16);
    assert!(matches!(host_files(&mut disk), Some(Err(FmsError::BadFs))));
    assert!(matches!(host_save(&mut disk, "a", b"b"), Some(Err(FmsError::BadFs))));
    assert!(matches!(host_open(&mut disk, "a"), Some(Err(FmsError::BadFs))));
}

#[test]
fn host_refuses_a_table_past_32_bit_blocks() {
    let mut disk = RamDisk::new(64);
    let fs = Fms::format(&mut disk, 64).unwrap();
    let mut table = [FmsFileEntry::empty(); FMS_MAX_FILES];
    table[0].used = true;
    table[0].set_name("far");
    table[0].start_block = u32::MAX - 1;
    table[0].block_count = 5;
    assert!(!extents_fit(&table));
    fs.save_table(&mut disk, &table).unwrap();
    assert!(host_save(&mut disk, "x", b"y").is_none());
    assert!(host_open(&mut disk, "far").is_none());
    table[0].block_count = 1;
    assert!(extents_fit(&table));
}

#[test]
fn table_bytes_roundtrip() {
    let mut table = [FmsFileEntry::empty(); FMS_MAX_FILES];
    table[3].used = true;
    table[3].set_name("three");
    table[3].start_block = 40;
    table[3].block_count = 2;
    table[3].size = 1000;
    let bytes = encode_table_bytes(&table);
    assert_eq!(bytes.len(), TABLE_BYTES);
    assert_eq!(bytes[3 * 45], 1);
    assert_eq!(&bytes[3 * 45 + 1..3 * 45 + 6], b"three");
    let back = decode_table_bytes(&bytes);
    assert!(back[3].used);
    assert_eq!(back[3].name_bytes(), b"three");
    assert_eq!(back[3].start_block, 40);
    assert_eq!(back[3].block_count, 2);
    assert_eq!(back[3].size, 1000);
    assert!(!back[2].used);
    let mut out = [0u8; TABLE_BYTES];
    encode_entry_at(&mut out, 63, &table[3]);
    assert_eq!(decode_entry_at(&out, 63).size, 1000);
}

#[test]
fn colors() {
    assert_eq!(make_color(COLOR_WHITE, COLOR_BLACK), 0x0F);
    assert_eq!(make_color(COLOR_WHITE, COLOR_RED), 0x4F);
    assert_eq!(make_color(COLOR_LIGHT_CYAN, COLOR_BLUE), 0x1B);
}

#[test]
fn console_lines_and_cells() {
    let mut c = Console::new();
    c.write_line("hi");
    assert_eq!(c.take_serial(), b"hi\r\n".to_vec());
    assert_eq!(c.cell(0), (b'h', 0x0F));
    assert_eq!(c.cell(1), (b'i', 0x0F));
    c.write_str_color("x", COLOR_RED);
    assert_eq!(c.cell(VGA_WIDTH), (b'x', 0x04));
    c.write_str("y");
    assert_eq!(c.cell(VGA_WIDTH + 1), (b'y', 0x0F));
    c.backspace_vga();
    assert_eq!(c.cell(VGA_WIDTH + 1), (b' ', 0x0F));
}

#[test]
fn console_scrolls_at_the_bottom() {
    let mut c = Console::new();
    for i in 0..25 {
        let line = format!("{}", i % 10);
        c.write_line(&line);
    }
    assert_eq!(c.cell(0), (b'1', 0x0F));
    assert_eq!(c.cell(23 * VGA_WIDTH), (b'4', 0x0F));
    assert_eq!(c.cell(24 * VGA_WIDTH), (b' ', 0x0F));
}

#[test]
fn console_wraps_long_lines() {
    let mut c = Console::new();
    let long = "a".repeat(VGA_WIDTH + 1);
    c.vga_print(&long);
    assert_eq!(c.cell(VGA_WIDTH), (b'a', 0x0F));
    assert_eq!(c.take_serial(), Vec::<u8>::new());
}

#[test]
fn boot_report_and_panic_screen() {
    let mut c = Console::new();
    let checks = BootChecks { bootloader_ok: true, multiboot_info_ok: false, kernel_ok: true };
    c.show_boot_report(&checks);
    assert_eq!(c.cell(0), (b'S', 0x0F));
    assert_eq!(c.cell(10), (b'b', 0x0F));
    assert_eq!(c.cell(2 * VGA_WIDTH), (b'B', make_color(COLOR_WHITE, COLOR_BLACK)));
    assert_eq!(c.cell(VGA_WIDTH + 5), (b' ', 0x0F));
    assert_eq!(c.cell(5 * VGA_WIDTH + 24), (b'[', 0x04));
    assert_eq!(c.cell(4 * VGA_WIDTH + 25), (b'o', 0x02));
    assert_eq!(c.cell(8 * VGA_WIDTH), (b'O', 0x0C));
    let serial = String::from_utf8(c.take_serial()).unwrap();
    assert_eq!(
        serial,
        "Sample OS boot report:\r\nBootloader handoff: \x1b[32mok\x1b[0m\r\nMultiboot info: \x1b[31mfail\x1b[0m\r\nKernel init: \x1b[32mok\x1b[0m\r\n"
    );
    c.show_panic();
    assert_eq!(c.cell(0), (b'!', 0x4F));
    assert_eq!(c.cell(VGA_WIDTH + 33), (b'K', 0x4F));
    assert_eq!(c.cell(VGA_CELLS - 1), (b' ', 0x4F));
}

#[test]
fn scancodes() {
    assert_eq!(scancode_to_char(0x1E), Some(b'a'));
    assert_eq!(scancode_to_char(0x2C), Some(b'z'));
    assert_eq!(scancode_to_char(0x0B), Some(b'0'));
    assert_eq!(scancode_to_char(0x39), Some(b' '));
    assert_eq!(scancode_to_char(0x1C), Some(b'\n'));
    assert_eq!(scancode_to_char(0x0E), Some(0x08));
    assert_eq!(scancode_to_char(0x35), Some(b'/'));
    assert_eq!(scancode_to_char(0x9E), None);
    assert_eq!(scancode_to_char(0x00), None);
}

#[test]
fn line_editing() {
    let mut c = Console::new();
    let mut e = LineEditor::new(8);
    for k in [b'l', b's', b'x', 0x08, 0x01, b' ', b'-'] {
        assert!(!e.is_done());
        e.feed_key(k, &mut c);
    }
    e.feed_key(b'\r', &mut c);
    assert!(e.is_done());
    assert_eq!(c.take_serial(), b"lsx\x08 \x08 -\r\n".to_vec());
    assert_eq!(e.into_line(), b"ls -".to_vec());
}

#[test]
fn line_editing_stops_at_capacity() {
    let mut c = Console::new();
    let mut e = LineEditor::new(2);
    e.feed_key(0x08, &mut c);
    e.feed_key(b'a', &mut c);
    e.feed_key(b'b', &mut c);
    assert!(e.is_done());
    assert_eq!(c.take_serial(), b"ab".to_vec());
    assert_eq!(e.into_line(), b"ab".to_vec());
}

#[test]
fn config_addresses() {
    pci_init();
    assert_eq!(make_config_address(0, 0, 0, 0), 0x8000_0000);
    assert_eq!(make_config_address(1, 2, 3, 0x3F), 0x8001_133C);
    assert_eq!(make_config_address(255, 31, 7, 0xFF), 0x80FF_FFFC);
}

fn probe(devices: &[(u8, u8, u32)]) -> (Option<PciDeviceInfo>, usize) {
    let (mut p, mut action) = VirtioProbe::start();
    let mut reads = 0usize;
    loop {
        match action {
            PciAction::Read { bus, slot, function, offset } => {
                assert_eq!(function, 0);
                reads += 1;
                let value = match devices.iter().find(|d| d.0 == bus && d.1 == slot) {
                    Some(d) => match offset {
                        0x00 => d.2,
                        0x10 => 0xC041,
                        0x3C => 0x0000_010B,
                        _ => panic!("unexpected register"),
                    },
                    None => 0xFFFF_FFFF,
                };
                action = p.advance(value);
            },
            PciAction::Found(info) => return (Some(info), reads),
            PciAction::NotFound => return (None, reads),
        }
    }
}

#[test]
fn virtio_probe_finds_the_first_device() {
    let (found, reads) = probe(&[(0, 3, 0x1237_8086), (0, 5, 0x1001_1AF4), (2, 1, 0x1000_1AF4)]);
    let info = found.unwrap();
    assert_eq!((info.bus, info.slot, info.function), (0, 5, 0));
    assert_eq!(info.vendor_id, 0x1AF4);
    assert_eq!(info.device_id, 0x1001);
    assert_eq!(info.bar0, 0xC041);
    assert_eq!(info.interrupt_line, 0x0B);
    assert_eq!(reads, 8);
}

#[test]
fn virtio_probe_skips_other_vendors_and_ids() {
    let (found, reads) = probe(&[(0, 0, 0x1080_1AF4), (7, 31, 0x107F_1AF4)]);
    let info = found.unwrap();
    assert_eq!((info.bus, info.slot), (7, 31));
    assert_eq!(reads, 8 * 32 + 2);
}

#[test]
fn virtio_probe_reports_nothing_found() {
    let (found, reads) = probe(&[]);
    assert!(found.is_none());
    assert_eq!(reads, 256 * 32);
}

struct NoMemory;

impl PhysicalMemory for NoMemory {
    fn alloc_pages(&mut self, _page_count: usize) -> Option<usize> {
        None
    }

    fn virt_to_phys(&self, virtual_addr: usize) -> usize {
        virtual_addr
    }
}

#[test]
fn virtio_device_setup() {
    let mut pmm = NoMemory;
    let mut dev = VirtioBlkDevice::default();
    assert!(!dev.init(&mut pmm, None));
    let io = PciDeviceInfo { bar0: 0xC041, interrupt_line: 11, ..PciDeviceInfo::default() };
    assert!(dev.init(&mut pmm, Some(io)));
    assert_eq!(dev.io_base, 0xC040);
    assert_eq!(dev.irq_line, 11);
    let mut other = VirtioBlkDevice::default();
    let mem = PciDeviceInfo { bar0: 0xFEBC_0000, ..PciDeviceInfo::default() };
    assert!(!other.init(&mut pmm, Some(mem)));
    assert_eq!(other.pci.bar0, 0xFEBC_0000);
    assert_eq!(other.io_base, 0);
    let mut buf = [0u8; 512];
    assert_eq!(dev.read_block(&pmm, 0, &mut buf), -1);
    assert_eq!(dev.write_block(&pmm, 0, &buf), -1);
    let mut fs: Option<Fms> = None;
    assert_eq!(fs_mount_over_virtio(&mut fs, &mut dev, &mut pmm), Err(FmsError::Io));
    assert_eq!(fs_format_over_virtio(&mut fs, &mut dev, &mut pmm, 128), Err(FmsError::Io));
    assert!(fs.is_none());
}

#[test]
fn boot_checks() {
    let c = BootChecks::from_boot_state(MULTIBOOT_BOOTLOADER_MAGIC, 0x9000);
    assert!(c.bootloader_ok && c.multiboot_info_ok && !c.kernel_ok);
    assert!(!c.all_ok());
    let mut c2 = c;
    c2.kernel_ok = true;
    assert!(c2.all_ok());
    let bad = BootChecks::from_boot_state(0, 0);
    assert!(!bad.bootloader_ok && !bad.multiboot_info_ok);
    assert_eq!(
        MULTIBOOT_HEADER_MAGIC.wrapping_add(MULTIBOOT_FLAGS).wrapping_add(MULTIBOOT_CHECKSUM),
        0
    );
}

#[test]
fn page_pool() {
    let mut pool = PagePool::new(0x20_0000);
    assert_eq!(total_memory(), MEMORY_POOL_SIZE);
    assert_eq!(pool.allocate_page(), Some(0x20_0000));
    assert_eq!(pool.allocate_page(), Some(0x20_0000 + PAGE_SIZE));
    assert_eq!(pool.used_memory(), 2 * PAGE_SIZE);
    assert_eq!(pool.alloc_pages(3), Some(0x20_0000 + 2 * PAGE_SIZE));
    assert_eq!(pool.alloc_pages(300), None);
    assert_eq!(pool.virt_to_phys(1234), 1234);
    pool.init();
    assert_eq!(pool.used_memory(), 0);
    for _ in 0..256 {
        assert!(pool.allocate_page().is_some());
    }
    assert_eq!(pool.allocate_page(), None);
    assert_eq!(pool.used_memory(), MEMORY_POOL_SIZE);
}

#[test]
fn image_sizes() {
    assert_eq!(image_block_count(0), Err(FmsError::BadFs));
    assert_eq!(image_block_count(511), Err(FmsError::BadFs));
    assert_eq!(image_block_count(1000), Err(FmsError::BadFs));
    assert_eq!(image_block_count(512), Ok(1));
    assert_eq!(image_block_count(4096 * 512), Ok(4096));
    assert_eq!(image_block_count(512u64 << 32), Ok(0));
}

#[test]
fn device_errors_pass_through() {
    let mut empty = RamDisk::new(0);
    assert!(matches!(host_files(&mut empty), Some(Err(FmsError::Io))));
    let mut short = RamDisk::new(5);
    assert!(matches!(Fms::format(&mut short, 10), Err(FmsError::Io)));
}
