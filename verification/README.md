# FMS: a small flat filesystem, its host tool and its kernel shells

A verified library for a flat filesystem of 512-byte blocks (a superblock in block 0, a
64-slot file table in blocks 1 to 8, contiguous file data after it), together with the
parts of a small x86 kernel that decide what to do: the console model, the keyboard line
editor, the PCI scan for a VirtIO device, the page allocator, and the two command shells.

## Layout

- `src/` — the library, verified with Verus.
  - `layout.rs`: constants, the error type, the little-endian codec, superblock and table
    entries and their byte encodings.
  - `table.rs`: name rules, slot searches and first-fit placement of a file's blocks.
  - `model.rs`: the mathematical model of a disk: its table, its files as a map from name
    to contents, and the invariant every operation keeps.
  - `device.rs`, `fs.rs`: block devices (a RAM disk among them) and the filesystem
    operations: format, mount, list, stat, read, write, delete.
  - `laws.rs`: properties spanning operations (read after write, delete, overwrite,
    remount).
  - `host.rs`, `cli.rs`: the host tool's commands and its command line.
  - `console.rs`, `keyboard.rs`, `terminal.rs`, `shell.rs`: the kernel's text screen and
    serial output, line editing, and its two shells.
  - `memory.rs`, `pci.rs`, `virtio.rs`, `boot.rs`: the page pool, PCI configuration
    addresses and the VirtIO scan, the VirtIO device record, and the boot checks.
- `tests/` — tests that run the compiled library.
- `app/` — the programs around it: the host tool's file I/O, and the kernel's port I/O,
  keyboard polling and command loops.
