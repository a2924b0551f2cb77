//! Block devices: the interface the filesystem stores its blocks through,
//! and a device held in memory.
use crate::layout::{zeros, FmsError, FMS_BLOCK_SIZE};
use vstd::prelude::*;

verus! {

/// A device of fixed-size blocks, numbered from zero, that stores faithfully.
///
/// Its state is the sequence of its blocks. A read or a write succeeds exactly
/// when the block exists; a read changes nothing, a failed call changes nothing
/// and reports the device's `fault()`. The filesystem's contracts are stated for
/// devices of this kind. A store that can also fail for other reasons, such as a
/// file with I/O errors, is not one: the host tool loads an image file into a
/// `RamDisk`, runs the command on that, and writes the blocks back, so file errors
/// arise only before and after a command.
pub trait BlockDevice {
    /// The blocks the device holds.
    spec fn blocks(&self) -> Seq<[u8; FMS_BLOCK_SIZE]>;

    /// The error the device reports when a block cannot be read or written.
    spec fn fault(&self) -> FmsError;

    /// Copies block `block_number` into `out`.
    fn read_block(&mut self, block_number: u32, out: &mut [u8; FMS_BLOCK_SIZE]) -> (r: Result<
        (),
        FmsError,
    >)
        ensures
            final(self).blocks() == old(self).blocks(),
            final(self).fault() == old(self).fault(),
            r is Ok <==> block_number < old(self).blocks().len(),
            r is Err ==> r == Err::<(), FmsError>(old(self).fault()),
            r is Ok ==> *final(out) == old(self).blocks()[block_number as int],
    ;

    /// Replaces block `block_number` with `data`.
    fn write_block(&mut self, block_number: u32, data: &[u8; FMS_BLOCK_SIZE]) -> (r: Result<
        (),
        FmsError,
    >)
        ensures
            final(self).fault() == old(self).fault(),
            r is Ok <==> block_number < old(self).blocks().len(),
            r is Err ==> r == Err::<(), FmsError>(old(self).fault()),
            r is Ok ==> final(self).blocks() == old(self).blocks().update(
                block_number as int,
                *data,
            ),
            r is Err ==> final(self).blocks() == old(self).blocks(),
    ;
}

/// A block device held in memory.
pub struct RamDisk {
    data: Vec<[u8; FMS_BLOCK_SIZE]>,
}

impl RamDisk {
    /// A disk of `block_count` zeroed blocks.
    pub fn new(block_count: u32) -> (d: Self)
        ensures
            d.blocks().len() == block_count,
            forall|i: int| 0 <= i < block_count ==> (#[trigger] d.blocks()[i])@ == zeros(512),
    {
        let mut data: Vec<[u8; FMS_BLOCK_SIZE]> = Vec::new();
        let zero = [0u8; FMS_BLOCK_SIZE];
        assert(zero@ =~= zeros(512));
        let mut i: u32 = 0;
        while i < block_count
            invariant
                i <= block_count,
                data@.len() == i,
                zero@ == zeros(512),
                forall|k: int| 0 <= k < i ==> (#[trigger] data@[k])@ == zeros(512),
            decreases block_count - i,
        {
            data.push(zero);
            i = i + 1;
        }
        RamDisk { data }
    }

    /// Number of blocks held.
    pub fn block_count(&self) -> (n: usize)
        ensures
            n == self.blocks().len(),
    {
        self.data.len()
    }
}

impl BlockDevice for RamDisk {
    closed spec fn blocks(&self) -> Seq<[u8; FMS_BLOCK_SIZE]> {
        self.data@
    }

    open spec fn fault(&self) -> FmsError {
        FmsError::Io
    }

    fn read_block(&mut self, block_number: u32, out: &mut [u8; FMS_BLOCK_SIZE]) -> (r: Result<
        (),
        FmsError,
    >)
        ensures
            r is Err ==> r == Err::<(), FmsError>(FmsError::Io),
    {
        if (block_number as usize) < self.data.len() {
            *out = self.data[block_number as usize];
            Ok(())
        } else {
            Err(FmsError::Io)
        }
    }

    fn write_block(&mut self, block_number: u32, data: &[u8; FMS_BLOCK_SIZE]) -> (r: Result<
        (),
        FmsError,
    >)
        ensures
            r is Err ==> r == Err::<(), FmsError>(FmsError::Io),
    {
        if (block_number as usize) < self.data.len() {
            self.data.set(block_number as usize, *data);
            Ok(())
        } else {
            Err(FmsError::Io)
        }
    }
}

} // verus!
