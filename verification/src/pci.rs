//! PCI configuration space: the address format, and the scan that finds the first VirtIO
//! device, as a state machine whose reads the caller performs.
use vstd::prelude::*;

verus! {

pub const PCI_CONFIG_ADDRESS_PORT: u16 = 0xCF8;
pub const PCI_CONFIG_DATA_PORT: u16 = 0xCFC;

pub const VIRTIO_PCI_VENDOR_ID: u16 = 0x1AF4;
pub const VIRTIO_PCI_DEVICE_MIN: u16 = 0x1000;
pub const VIRTIO_PCI_DEVICE_MAX: u16 = 0x107F;

/// Where a PCI function sits and what its configuration space says.
#[derive(Clone, Copy, Debug, Default)]
pub struct PciDeviceInfo {
    pub bus: u8,
    pub slot: u8,
    pub function: u8,
    pub vendor_id: u16,
    pub device_id: u16,
    pub bar0: u32,
    pub interrupt_line: u8,
}

/// Nothing to set up before configuration reads.
pub fn pci_init() {
}

/// The word written to the address port to reach register `offset` of a function: the
/// enable bit, then bus, slot, function and the register's dword-aligned offset.
pub fn make_config_address(bus: u8, slot: u8, function: u8, offset: u8) -> (a: u32)
    ensures
        a == (0x8000_0000u32 | ((bus as u32) << 16u32) | ((slot as u32) << 11u32) | ((
        function as u32) << 8u32) | ((offset as u32) & 0xFCu32)),
        slot < 32 && function < 8 ==> a == 0x8000_0000 + bus * 65536 + slot * 2048 + function
            * 256 + (offset / 4) * 4,
{
    let a = (1u32 << 31u32) | ((bus as u32) << 16u32) | ((slot as u32) << 11u32) | ((
    function as u32) << 8u32) | ((offset as u32) & 0xFCu32);
    proof {
        let b = bus as u32;
        let s = slot as u32;
        let f = function as u32;
        let o = offset as u32;
        assert((1u32 << 31u32) == 0x8000_0000u32) by (bit_vector);
        assert(b < 256 && s < 32 && f < 8 && o < 256 ==> (0x8000_0000u32 | (b << 16u32) | (s
            << 11u32) | (f << 8u32) | (o & 0xFCu32)) == 0x8000_0000u32 + b * 65536 + s * 2048 + f
            * 256 + (o / 4) * 4) by (bit_vector);
    }
    a
}

/// Where a scan for a VirtIO device stands.
#[derive(Clone, Copy, Debug)]
pub enum ProbeStage {
    /// Reading the identification register of the current slot.
    ReadId,
    /// A VirtIO device was found; reading its first base address register.
    ReadBar { vendor_id: u16, device_id: u16 },
    /// Reading its interrupt line.
    ReadIrq { vendor_id: u16, device_id: u16, bar0: u32 },
    /// The scan has ended.
    Done,
}

/// What the scan asks for next.
#[derive(Clone, Copy, Debug)]
pub enum PciAction {
    /// Read the configuration register and hand its value to `advance`.
    Read { bus: u8, slot: u8, function: u8, offset: u8 },
    /// The first VirtIO device.
    Found(PciDeviceInfo),
    /// No slot holds a VirtIO device.
    NotFound,
}

/// A scan over function 0 of every slot of every bus, in order, for a VirtIO device.
#[derive(Clone, Copy, Debug)]
pub struct VirtioProbe {
    pub bus: u8,
    pub slot: u8,
    pub stage: ProbeStage,
}

/// Whether an identification register names a VirtIO device.
pub open spec fn is_virtio_id(id_reg: u32) -> bool {
    id_reg % 65536 == VIRTIO_PCI_VENDOR_ID && VIRTIO_PCI_DEVICE_MIN <= id_reg / 65536
        <= VIRTIO_PCI_DEVICE_MAX
}

/// Whether a vendor and a device id name a VirtIO device.
pub open spec fn virtio_ids(vendor_id: u16, device_id: u16) -> bool {
    vendor_id == VIRTIO_PCI_VENDOR_ID && VIRTIO_PCI_DEVICE_MIN <= device_id <= VIRTIO_PCI_DEVICE_MAX
}

/// The read of register `offset` of function 0 of the current slot.
pub open spec fn read_at(bus: u8, slot: u8, offset: u8) -> PciAction {
    PciAction::Read { bus, slot, function: 0, offset }
}

impl VirtioProbe {
    /// Whether the scan is at a slot that exists, and the ids it carries, once it has found
    /// a device, are those of a VirtIO device.
    pub open spec fn wf(&self) -> bool {
        &&& self.slot < 32
        &&& match self.stage {
            ProbeStage::ReadBar { vendor_id, device_id } => virtio_ids(vendor_id, device_id),
            ProbeStage::ReadIrq { vendor_id, device_id, .. } => virtio_ids(vendor_id, device_id),
            _ => true,
        }
    }

    /// A scan at slot 0 of bus 0, and its first read.
    pub fn start() -> (r: (Self, PciAction))
        ensures
            r.0.wf(),
            r.0.bus == 0 && r.0.slot == 0 && r.0.stage == ProbeStage::ReadId,
            r.1 == read_at(0, 0, 0),
    {
        (VirtioProbe { bus: 0, slot: 0, stage: ProbeStage::ReadId }, PciAction::Read {
            bus: 0,
            slot: 0,
            function: 0,
            offset: 0,
        })
    }

    /// Takes the value of the register last asked for, and says what to do next.
    pub fn advance(&mut self, value: u32) -> (a: PciAction)
        requires
            old(self).wf(),
            !(old(self).stage is Done),
        ensures
            final(self).wf(),
            a matches PciAction::Found(info) ==> virtio_ids(info.vendor_id, info.device_id),
            match old(self).stage {
                ProbeStage::ReadId => if is_virtio_id(value) {
                    &&& final(self).bus == old(self).bus && final(self).slot == old(self).slot
                    &&& final(self).stage == ProbeStage::ReadBar {
                        vendor_id: (value % 65536) as u16,
                        device_id: (value / 65536) as u16,
                    }
                    &&& a == read_at(old(self).bus, old(self).slot, 0x10)
                } else if old(self).slot < 31 {
                    &&& final(self).bus == old(self).bus && final(self).slot == old(self).slot + 1
                    &&& final(self).stage == ProbeStage::ReadId
                    &&& a == read_at(final(self).bus, final(self).slot, 0)
                } else if old(self).bus < 255 {
                    &&& final(self).bus == old(self).bus + 1 && final(self).slot == 0
                    &&& final(self).stage == ProbeStage::ReadId
                    &&& a == read_at(final(self).bus, 0, 0)
                } else {
                    &&& final(self).bus == old(self).bus && final(self).slot == old(self).slot
                    &&& final(self).stage == ProbeStage::Done
                    &&& a == PciAction::NotFound
                },
                ProbeStage::ReadBar { vendor_id, device_id } => {
                    &&& final(self).bus == old(self).bus && final(self).slot == old(self).slot
                    &&& final(self).stage == ProbeStage::ReadIrq { vendor_id, device_id, bar0: value }
                    &&& a == read_at(old(self).bus, old(self).slot, 0x3C)
                },
                ProbeStage::ReadIrq { vendor_id, device_id, bar0 } => {
                    &&& final(self).bus == old(self).bus && final(self).slot == old(self).slot
                    &&& final(self).stage == ProbeStage::Done
                    &&& a == PciAction::Found(
                        PciDeviceInfo {
                            bus: old(self).bus,
                            slot: old(self).slot,
                            function: 0,
                            vendor_id,
                            device_id,
                            bar0,
                            interrupt_line: (value % 256) as u8,
                        },
                    )
                },
                ProbeStage::Done => false,
            },
    {
        match self.stage {
            ProbeStage::ReadId => {
                let vendor_id = (value & 0xFFFF) as u16;
                let device_id = (value >> 16) as u16;
                proof {
                    assert(value & 0xFFFF == value % 65536) by (bit_vector);
                    assert(value >> 16 == value / 65536) by (bit_vector);
                }
                if vendor_id == VIRTIO_PCI_VENDOR_ID && VIRTIO_PCI_DEVICE_MIN <= device_id
                    && device_id <= VIRTIO_PCI_DEVICE_MAX {
                    self.stage = ProbeStage::ReadBar { vendor_id, device_id };
                    return PciAction::Read { bus: self.bus, slot: self.slot, function: 0, offset: 0x10 };
                }
                if self.slot < 31 {
                    self.slot = self.slot + 1;
                    PciAction::Read { bus: self.bus, slot: self.slot, function: 0, offset: 0 }
                } else if self.bus < 255 {
                    self.bus = self.bus + 1;
                    self.slot = 0;
                    PciAction::Read { bus: self.bus, slot: 0, function: 0, offset: 0 }
                } else {
                    self.stage = ProbeStage::Done;
                    PciAction::NotFound
                }
            },
            ProbeStage::ReadBar { vendor_id, device_id } => {
                self.stage = ProbeStage::ReadIrq { vendor_id, device_id, bar0: value };
                PciAction::Read { bus: self.bus, slot: self.slot, function: 0, offset: 0x3C }
            },
            ProbeStage::ReadIrq { vendor_id, device_id, bar0 } => {
                self.stage = ProbeStage::Done;
                proof {
                    assert(value as u8 == value % 256) by (bit_vector);
                }
                PciAction::Found(
                    PciDeviceInfo {
                        bus: self.bus,
                        slot: self.slot,
                        function: 0,
                        vendor_id,
                        device_id,
                        bar0,
                        interrupt_line: value as u8,
                    },
                )
            },
            ProbeStage::Done => PciAction::NotFound,
        }
    }
}

} // verus!
