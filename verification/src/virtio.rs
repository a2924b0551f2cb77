//! The VirtIO block device as far as it is set up: its PCI function, I/O base and interrupt
//! line. Block transfers are not implemented and always fail.
use crate::fs::Fms;
use crate::layout::FmsError;
use crate::memory::PhysicalMemory;
use crate::pci::PciDeviceInfo;
use vstd::prelude::*;

verus! {

/// A VirtIO block device found on the PCI bus.
#[derive(Clone, Copy, Debug, Default)]
pub struct VirtioBlkDevice {
    pub pci: PciDeviceInfo,
    pub io_base: u16,
    pub irq_line: u8,
}

impl VirtioBlkDevice {
    /// Sets the device up from what the PCI scan found. Fails when nothing was found or when
    /// the first base address register does not map I/O ports.
    pub fn init<P: PhysicalMemory>(&mut self, _pmm: &mut P, found: Option<PciDeviceInfo>) -> (ok:
        bool)
        ensures
            *final(_pmm) == *old(_pmm),
            found is None ==> !ok && *final(self) == *old(self),
            found matches Some(dev) ==> {
                &&& final(self).pci == dev
                &&& ok == (dev.bar0 % 2 == 1)
                &&& ok ==> final(self).io_base == (dev.bar0 % 65536) as u16 / 4 * 4
                    && final(self).irq_line == dev.interrupt_line
                &&& !ok ==> final(self).io_base == old(self).io_base && final(self).irq_line == old(self).irq_line
            },
    {
        let dev = match found {
            Some(d) => d,
            None => return false,
        };
        self.pci = dev;
        proof {
            let b = dev.bar0;
            assert(b & 1 == b % 2) by (bit_vector);
            assert(((b & !3u32) as u16) == (b % 65536) as u16 / 4 * 4) by (bit_vector);
        }
        if (dev.bar0 & 0x1) == 0 {
            return false;
        }
        self.io_base = (dev.bar0 & !0x3u32) as u16;
        self.irq_line = dev.interrupt_line;
        true
    }

    /// Reading sectors is not implemented: always fails with -1.
    pub fn read_block<P: PhysicalMemory>(&mut self, _pmm: &P, _sector: u64, _buffer: &mut [u8]) -> (r:
        i32)
        ensures
            r == -1,
            *final(self) == *old(self),
            final(_buffer)@ == old(_buffer)@,
    {
        -1
    }

    /// Writing sectors is not implemented: always fails with -1.
    pub fn write_block<P: PhysicalMemory>(&mut self, _pmm: &P, _sector: u64, _buffer: &[u8]) -> (r:
        i32)
        ensures
            r == -1,
            *final(self) == *old(self),
    {
        -1
    }
}

/// Mounting a filesystem over VirtIO is not implemented: always fails with `Io`.
pub fn fs_mount_over_virtio<P: PhysicalMemory>(
    _fs: &mut Option<Fms>,
    _blk: &mut VirtioBlkDevice,
    _pmm: &mut P,
) -> (r: Result<(), FmsError>)
    ensures
        r == Err::<(), FmsError>(FmsError::Io),
        *final(_fs) == *old(_fs),
        *final(_blk) == *old(_blk),
        *final(_pmm) == *old(_pmm),
{
    Err(FmsError::Io)
}

/// Formatting a filesystem over VirtIO is not implemented: always fails with `Io`.
pub fn fs_format_over_virtio<P: PhysicalMemory>(
    _fs: &mut Option<Fms>,
    _blk: &mut VirtioBlkDevice,
    _pmm: &mut P,
    _total_blocks: u32,
) -> (r: Result<(), FmsError>)
    ensures
        r == Err::<(), FmsError>(FmsError::Io),
        *final(_fs) == *old(_fs),
        *final(_blk) == *old(_blk),
        *final(_pmm) == *old(_pmm),
{
    Err(FmsError::Io)
}

} // verus!
