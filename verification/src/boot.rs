//! What the kernel checks at boot: the multiboot handoff and its own initialisation.
use vstd::prelude::*;

verus! {

pub const MULTIBOOT_HEADER_MAGIC: u32 = 0x1BADB002;
pub const MULTIBOOT_BOOTLOADER_MAGIC: u32 = 0x2BADB002;
pub const MULTIBOOT_FLAGS: u32 = 0x00000003;
pub const MULTIBOOT_CHECKSUM: u32 = 0xE4524FFB;

/// The multiboot header's three words add up to zero modulo 2^32, as the format demands.
pub proof fn law_multiboot_checksum()
    ensures
        (MULTIBOOT_HEADER_MAGIC + MULTIBOOT_FLAGS + MULTIBOOT_CHECKSUM) % 0x1_0000_0000 == 0,
{
}

/// The outcome of each boot check.
#[derive(Clone, Copy, Debug)]
pub struct BootChecks {
    pub bootloader_ok: bool,
    pub multiboot_info_ok: bool,
    pub kernel_ok: bool,
}

impl BootChecks {
    /// The checks the bootloader's handoff decides; the kernel check starts failed.
    pub fn from_boot_state(multiboot_magic: u32, multiboot_info_addr: u32) -> (c: Self)
        ensures
            c.bootloader_ok == (multiboot_magic == MULTIBOOT_BOOTLOADER_MAGIC),
            c.multiboot_info_ok == (multiboot_info_addr != 0),
            !c.kernel_ok,
    {
        BootChecks {
            bootloader_ok: multiboot_magic == MULTIBOOT_BOOTLOADER_MAGIC,
            multiboot_info_ok: multiboot_info_addr != 0,
            kernel_ok: false,
        }
    }

    /// Whether every check passed.
    pub fn all_ok(&self) -> (b: bool)
        ensures
            b == (self.bootloader_ok && self.multiboot_info_ok && self.kernel_ok),
    {
        self.bootloader_ok && self.multiboot_info_ok && self.kernel_ok
    }
}

} // verus!
