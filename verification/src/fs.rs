//! The filesystem: formatting, mounting, and file operations over a block device.
use crate::device::BlockDevice;
use crate::layout::{
    decode_superblock, decode_table, decode_table_bytes, encode_superblock, encode_table,
    encode_table_bytes, fresh_superblock, lemma_superblock_roundtrip, lemma_table_roundtrip,
    names_sized, superblock_valid, empty_entry, table_view, zeros, EntryView, FmsError, FmsFileEntry,
    FmsSuperblock, FMS_BLOCK_SIZE, FMS_FILE_TABLE_BLOCKS, FMS_MAX_FILES, TABLE_BYTES,
};
use crate::model::{
    blocks_concat, block_numbers_fit, disk_table, lemma_blocks_concat_agree, lemma_used_upto_len,
    same_outside, used_entries, used_upto, Disk, fs_wf, fs_sound, fs_files, meta_written, sb_with_count,
    sat_dec, lemma_meta_written, lemma_delete_keeps_wf, read_fits, file_contents,
    lemma_blocks_concat_len, write_slot, cleared, first_fit, new_entry, padded, data_written,
    no_zero_byte, sat_inc, file_written, space_searched, superblock_stored, lemma_format_wf, extent_in_data, lemma_disk_table_sized, lemma_first_fit_unique, lemma_write_keeps_wf,
};
use crate::table::{
    blocks_for, bytes_to_blocks, extents_in_range, find_contiguous_space, find_entry,
    find_free_entry, first_named, fit_exists, is_first_fit, run_free, lemma_first_free, lemma_first_named, name_valid,
    validate_name,
};
use vstd::string::StringSliceAdditionalSpecFns;
use vstd::prelude::*;

verus! {

/// The filesystem state held in memory: the superblock, and whether it is mounted.
pub struct Fms {
    pub superblock: FmsSuperblock,
    mounted: bool,
}

impl Fms {
    /// Whether the filesystem is mounted; an unmounted one refuses every disk access.
    pub closed spec fn is_mounted(&self) -> bool {
        self.mounted
    }

    /// The superblock held in memory.
    pub closed spec fn sb(&self) -> FmsSuperblock {
        self.superblock
    }

    /// A copy of the superblock held in memory.
    pub fn superblock_copy(&self) -> (sb: FmsSuperblock)
        ensures
            sb == self.sb(),
    {
        self.superblock
    }

    /// Writes the superblock to block 0.
    pub fn save_superblock<D: BlockDevice>(&self, device: &mut D) -> (r: Result<(), FmsError>)
        ensures
            !self.is_mounted() ==> r == Err::<(), FmsError>(FmsError::BadFs),
            self.is_mounted() ==> (r is Ok <==> old(device).blocks().len() > 0),
            self.is_mounted() && old(device).blocks().len() == 0 ==> r == Err::<(), FmsError>(
                old(device).fault(),
            ),
            final(device).fault() == old(device).fault(),
            r is Ok ==> same_outside(old(device).blocks(), final(device).blocks(), 0, 1)
                && final(device).blocks()[0]@ == encode_superblock(self.sb()),
            r is Err ==> final(device).blocks() == old(device).blocks(),
    {
        if !self.mounted {
            return Err(FmsError::BadFs);
        }
        let mut block = [0u8; FMS_BLOCK_SIZE];
        self.superblock.encode_into(&mut block);
        device.write_block(0, &block)
    }

    /// Reads the file table from the blocks the superblock names.
    pub fn load_table<D: BlockDevice>(&self, device: &mut D) -> (r: Result<
        [FmsFileEntry; FMS_MAX_FILES],
        FmsError,
    >)
        requires
            self.is_mounted() ==> block_numbers_fit(self.sb(), old(device).blocks()),
        ensures
            final(device).blocks() == old(device).blocks(),
            !self.is_mounted() ==> r == Err::<[FmsFileEntry; FMS_MAX_FILES], FmsError>(
                FmsError::BadFs,
            ),
            self.is_mounted() ==> (r is Ok <==> self.sb().file_table_start
                + FMS_FILE_TABLE_BLOCKS <= old(device).blocks().len()),
            self.is_mounted() && r is Err ==> r == Err::<[FmsFileEntry; FMS_MAX_FILES], FmsError>(
                old(device).fault(),
            ),
            final(device).fault() == old(device).fault(),
            r matches Ok(t) ==> table_view(t) == disk_table(self.sb(), old(device).blocks()),
    {
        if !self.mounted {
            return Err(FmsError::BadFs);
        }
        let ghost d = device.blocks();
        let start = self.superblock.file_table_start;
        let mut table_bytes = [0u8; TABLE_BYTES];
        let mut i: u32 = 0;
        while i < FMS_FILE_TABLE_BLOCKS as u32
            invariant
                device.blocks() == d,
                d == old(device).blocks(),
                device.fault() == old(device).fault(),
                self.mounted,
                block_numbers_fit(self.superblock, d),
                start == self.superblock.file_table_start,
                i <= 8,
                i > 0 ==> start + i - 1 < d.len(),
                table_bytes@.len() == 4096,
                table_bytes@.subrange(0, 512 * i) == blocks_concat(d, start as int, i as nat),
            decreases 8 - i,
        {
            let mut block = [0u8; FMS_BLOCK_SIZE];
            let res = device.read_block(start + i, &mut block);
            if res.is_err() {
                return Err(res.unwrap_err());
            }
            let off = (i as usize) * FMS_BLOCK_SIZE;
            let mut j: usize = 0;
            while j < FMS_BLOCK_SIZE
                invariant
                    off == 512 * i,
                    i < 8,
                    j <= 512,
                    table_bytes@.len() == 4096,
                    block@.len() == 512,
                    table_bytes@.subrange(0, 512 * i) == blocks_concat(d, start as int, i as nat),
                    forall|k: int| 0 <= k < j ==> table_bytes@[off + k] == block@[k],
                decreases 512 - j,
            {
                proof {
                    assert(table_bytes@.subrange(0, 512 * i) == table_bytes@.update(
                        off + j as int,
                        block[j as int],
                    ).subrange(0, 512 * i));
                }
                table_bytes[off + j] = block[j];
                j = j + 1;
            }
            assert(table_bytes@.subrange(0, 512 * (i + 1)) =~= blocks_concat(
                d,
                start as int,
                (i + 1) as nat,
            ));
            i = i + 1;
        }
        assert(table_bytes@ =~= table_bytes@.subrange(0, 4096));
        Ok(decode_table_bytes(&table_bytes))
    }

    /// Writes the table `entries` to the blocks the superblock names.
    pub fn save_table<D: BlockDevice>(
        &self,
        device: &mut D,
        entries: &[FmsFileEntry; FMS_MAX_FILES],
    ) -> (r: Result<(), FmsError>)
        requires
            self.is_mounted() ==> block_numbers_fit(self.sb(), old(device).blocks()),
        ensures
            !self.is_mounted() ==> r == Err::<(), FmsError>(FmsError::BadFs) && final(device).blocks()
                == old(device).blocks(),
            self.is_mounted() ==> (r is Ok <==> self.sb().file_table_start + FMS_FILE_TABLE_BLOCKS
                <= old(device).blocks().len()),
            self.is_mounted() && r is Err ==> r == Err::<(), FmsError>(old(device).fault()),
            final(device).fault() == old(device).fault(),
            same_outside(
                old(device).blocks(),
                final(device).blocks(),
                self.sb().file_table_start as int,
                self.sb().file_table_start + FMS_FILE_TABLE_BLOCKS,
            ),
            r is Ok ==> blocks_concat(
                final(device).blocks(),
                self.sb().file_table_start as int,
                FMS_FILE_TABLE_BLOCKS as nat,
            ) == encode_table(table_view(*entries)),
    {
        if !self.mounted {
            return Err(FmsError::BadFs);
        }
        let ghost d = device.blocks();
        let start = self.superblock.file_table_start;
        let table_bytes = encode_table_bytes(entries);
        proof {
            assert(names_sized(table_view(*entries)));
            lemma_table_roundtrip_len(table_view(*entries));
        }
        let mut i: u32 = 0;
        while i < FMS_FILE_TABLE_BLOCKS as u32
            invariant
                d == old(device).blocks(),
                device.fault() == old(device).fault(),
                self.mounted,
                block_numbers_fit(self.superblock, d),
                start == self.superblock.file_table_start,
                i <= 8,
                i > 0 ==> start + i - 1 < d.len(),
                table_bytes@.len() == 4096,
                table_bytes@ == encode_table(table_view(*entries)),
                same_outside(d, device.blocks(), start as int, start + 8),
                forall|b: int| 0 <= b < d.len() && start + i <= b ==> device.blocks()[b] == d[b],
                blocks_concat(device.blocks(), start as int, i as nat) == table_bytes@.subrange(
                    0,
                    512 * i,
                ),
            decreases 8 - i,
        {
            let mut block = [0u8; FMS_BLOCK_SIZE];
            let off = (i as usize) * FMS_BLOCK_SIZE;
            let mut j: usize = 0;
            while j < FMS_BLOCK_SIZE
                invariant
                    off == 512 * i,
                    i < 8,
                    j <= 512,
                    table_bytes@.len() == 4096,
                    block@.len() == 512,
                    forall|k: int| 0 <= k < j ==> block@[k] == table_bytes@[off + k],
                decreases 512 - j,
            {
                block[j] = table_bytes[off + j];
                j = j + 1;
            }
            assert(block@ =~= table_bytes@.subrange(off as int, off + 512));
            let ghost before = device.blocks();
            let res = device.write_block(start + i, &block);
            if res.is_err() {
                return res;
            }
            proof {
                lemma_blocks_concat_agree(before, device.blocks(), start as int, i as nat);
                assert(table_bytes@.subrange(0, 512 * (i + 1)) =~= table_bytes@.subrange(0, 512 * i)
                    + table_bytes@.subrange(off as int, off + 512));
            }
            i = i + 1;
        }
        assert(table_bytes@ =~= table_bytes@.subrange(0, 4096));
        Ok(())
    }

    /// Formats a disk of `total_blocks` blocks: zeroes every block, then writes a fresh superblock.
    pub fn format<D: BlockDevice>(device: &mut D, total_blocks: u32) -> (r: Result<Self, FmsError>)
        ensures
            total_blocks <= 1 + FMS_FILE_TABLE_BLOCKS ==> (r matches Err(FmsError::BadFs)) && final(device).blocks() == old(device).blocks(),
            total_blocks > 1 + FMS_FILE_TABLE_BLOCKS ==> (r is Ok <==> total_blocks <= old(device).blocks().len()),
            total_blocks > 1 + FMS_FILE_TABLE_BLOCKS && r is Err ==> r == Err::<Self, FmsError>(
                old(device).fault(),
            ),
            final(device).fault() == old(device).fault(),
            total_blocks > 1 + FMS_FILE_TABLE_BLOCKS ==> formatted_blocks(
                old(device).blocks(),
                final(device).blocks(),
                total_blocks as int,
            ),
            r matches Ok(fs) ==> {
                &&& fs.sb() == fresh_superblock(total_blocks)
                &&& fs.is_mounted()
                &&& final(device).blocks()[0]@ == encode_superblock(fresh_superblock(total_blocks))
                &&& superblock_stored(fs.sb(), final(device).blocks())
                &&& disk_table(fs.sb(), final(device).blocks()).len() == FMS_MAX_FILES
                &&& forall|i: int|
                    0 <= i < FMS_MAX_FILES ==> !(#[trigger] disk_table(
                        fs.sb(),
                        final(device).blocks(),
                    )[i]).used
                &&& fs_wf(fs.sb(), final(device).blocks())
                &&& fs_files(fs.sb(), final(device).blocks()) == Map::<Seq<u8>, Seq<u8>>::empty()
            },
    {
        if total_blocks <= (1 + FMS_FILE_TABLE_BLOCKS) as u32 {
            return Err(FmsError::BadFs);
        }
        let ghost d = device.blocks();
        let zero = [0u8; FMS_BLOCK_SIZE];
        assert(zero@ =~= zeros(512));
        let mut block: u32 = 0;
        while block < total_blocks
            invariant
                d == old(device).blocks(),
                device.fault() == old(device).fault(),
                zero@ == zeros(512),
                total_blocks > 1 + FMS_FILE_TABLE_BLOCKS,
                block <= total_blocks,
                block <= d.len(),
                device.blocks().len() == d.len(),
                forall|b: int| 0 <= b < block ==> (#[trigger] device.blocks()[b])@ == zeros(512),
                forall|b: int| block <= b < d.len() ==> device.blocks()[b] == d[b],
            decreases total_blocks - block,
        {
            let res = device.write_block(block, &zero);
            if res.is_err() {
                return Err(res.unwrap_err());
            }
            block = block + 1;
        }
        let fs = Fms { superblock: FmsSuperblock::new(total_blocks), mounted: true };
        let res = fs.save_superblock(device);
        if res.is_err() {
            return Err(res.unwrap_err());
        }
        proof {
            lemma_format_wf(d, device.blocks(), total_blocks);
        }
        Ok(fs)
    }

    /// Mounts the filesystem whose superblock is in block 0.
    pub fn mount<D: BlockDevice>(device: &mut D) -> (r: Result<Self, FmsError>)
        ensures
            final(device).blocks() == old(device).blocks(),
            r is Ok <==> old(device).blocks().len() > 0 && superblock_valid(
                decode_superblock(old(device).blocks()[0]@),
            ),
            r is Err && old(device).blocks().len() > 0 ==> r matches Err(FmsError::BadFs),
            old(device).blocks().len() == 0 ==> r == Err::<Self, FmsError>(old(device).fault()),
            final(device).fault() == old(device).fault(),
            r matches Ok(fs) ==> fs.is_mounted() && fs.sb() == decode_superblock(
                old(device).blocks()[0]@,
            ),
    {
        let mut block = [0u8; FMS_BLOCK_SIZE];
        let res = device.read_block(0, &mut block);
        if res.is_err() {
            return Err(res.unwrap_err());
        }
        let superblock = FmsSuperblock::decode_from(&block);
        if !superblock.is_valid() {
            return Err(FmsError::BadFs);
        }
        Ok(Fms { superblock, mounted: true })
    }

    /// Unmounts the filesystem; every later disk access is refused.
    pub fn unmount(&mut self)
        ensures
            !final(self).is_mounted(),
            final(self).sb() == old(self).sb(),
    {
        self.mounted = false;
    }

    /// Copies the used slots of the table, in order, to the front of `out_entries`.
    pub fn list<D: BlockDevice>(
        &mut self,
        device: &mut D,
        out_entries: &mut [FmsFileEntry; FMS_MAX_FILES],
        out_count: &mut usize,
    ) -> (r: Result<(), FmsError>)
        requires
            old(self).is_mounted() ==> block_numbers_fit(old(self).sb(), old(device).blocks()),
        ensures
            *final(self) == *old(self),
            final(device).blocks() == old(device).blocks(),
            !old(self).is_mounted() ==> r == Err::<(), FmsError>(FmsError::BadFs),
            old(self).is_mounted() ==> (r is Ok <==> old(self).sb().file_table_start
                + FMS_FILE_TABLE_BLOCKS <= old(device).blocks().len()),
            old(self).is_mounted() && r is Err ==> r == Err::<(), FmsError>(old(device).fault()),
            final(device).fault() == old(device).fault(),
            r is Ok ==> ({
                let listed = used_entries(disk_table(old(self).sb(), old(device).blocks()));
                &&& *final(out_count) == listed.len()
                &&& forall|i: int| 0 <= i < listed.len() ==> (#[trigger] final(out_entries)@[i])@ == listed[i]
                &&& forall|i: int| listed.len() <= i < FMS_MAX_FILES ==> #[trigger] final(out_entries)@[i] == old(out_entries)@[i]
            }),
            r is Err ==> *final(out_entries) == *old(out_entries) && *final(out_count) == *old(out_count),
    {
        let res = self.load_table(device);
        let table = match res {
            Ok(t) => t,
            Err(e) => return Err(e),
        };
        let ghost t = table_view(table);
        let mut count: usize = 0;
        let mut i: usize = 0;
        while i < FMS_MAX_FILES
            invariant
                t == table_view(table),
                t.len() == 64,
                i <= 64,
                count == used_upto(t, i as int).len(),
                count <= i,
                forall|k: int| 0 <= k < count ==> (#[trigger] out_entries@[k])@ == used_upto(t, i as int)[k],
                forall|k: int| count <= k < 64 ==> #[trigger] out_entries@[k] == old(out_entries)@[k],
            decreases 64 - i,
        {
            proof {
                lemma_used_upto_len(t, i as int);
            }
            if table[i].used {
                out_entries[count] = table[i];
                count = count + 1;
            }
            i = i + 1;
        }
        *out_count = count;
        Ok(())
    }

    /// The slot describing the file called `name`.
    pub fn stat<D: BlockDevice>(&mut self, device: &mut D, name: &str) -> (r: Result<
        FmsFileEntry,
        FmsError,
    >)
        requires
            name_valid(name.spec_bytes()) && old(self).is_mounted() ==> block_numbers_fit(
                old(self).sb(),
                old(device).blocks(),
            ),
        ensures
            final(device).fault() == old(device).fault(),
            name_valid(name.spec_bytes()) && old(self).is_mounted() && old(self).sb().file_table_start
                + FMS_FILE_TABLE_BLOCKS > old(device).blocks().len() ==> r == Err::<
                FmsFileEntry,
                FmsError,
            >(old(device).fault()),
            *final(self) == *old(self),
            final(device).blocks() == old(device).blocks(),
            ({
                let t = disk_table(old(self).sb(), old(device).blocks());
                let i = first_named(t, name.spec_bytes());
                let readable = old(self).sb().file_table_start + FMS_FILE_TABLE_BLOCKS <= old(device).blocks().len();
                &&& !name_valid(name.spec_bytes()) ==> r == Err::<FmsFileEntry, FmsError>(
                    FmsError::BadName,
                )
                &&& name_valid(name.spec_bytes()) && !old(self).is_mounted() ==> r == Err::<
                    FmsFileEntry,
                    FmsError,
                >(FmsError::BadFs)
                &&& name_valid(name.spec_bytes()) && old(self).is_mounted() ==> (r is Ok <==> readable
                    && i < t.len())
                &&& name_valid(name.spec_bytes()) && old(self).is_mounted() && readable && i >= t.len()
                    ==> r == Err::<FmsFileEntry, FmsError>(FmsError::NotFound)
                &&& r matches Ok(e) ==> e@ == t[i] && i < t.len()
            }),
    {
        match validate_name(name) {
            Ok(()) => {},
            Err(e) => return Err(e),
        }
        let res = self.load_table(device);
        let table = match res {
            Ok(t) => t,
            Err(e) => return Err(e),
        };
        match find_entry(&table, name) {
            Some(idx) => Ok(table[idx]),
            None => Err(FmsError::NotFound),
        }
    }

    /// Removes the file called `name`.
    pub fn delete<D: BlockDevice>(&mut self, device: &mut D, name: &str) -> (r: Result<(), FmsError>)
        requires
            name_valid(name.spec_bytes()) && old(self).is_mounted() ==> block_numbers_fit(
                old(self).sb(),
                old(device).blocks(),
            ),
        ensures
            final(device).fault() == old(device).fault(),
            name_valid(name.spec_bytes()) && old(self).is_mounted() && old(self).sb().file_table_start
                + FMS_FILE_TABLE_BLOCKS > old(device).blocks().len() ==> r == Err::<(), FmsError>(
                old(device).fault(),
            ),
            ({
                let sb = old(self).sb();
                let d = old(device).blocks();
                let d2 = final(device).blocks();
                let t = disk_table(sb, d);
                let i = first_named(t, name.spec_bytes());
                let readable = sb.file_table_start + FMS_FILE_TABLE_BLOCKS <= d.len();
                let unchanged = *final(self) == *old(self) && d2 == d;
                &&& !name_valid(name.spec_bytes()) ==> r == Err::<(), FmsError>(FmsError::BadName)
                    && unchanged
                &&& name_valid(name.spec_bytes()) && !old(self).is_mounted() ==> r == Err::<
                    (),
                    FmsError,
                >(FmsError::BadFs) && unchanged
                &&& name_valid(name.spec_bytes()) && old(self).is_mounted() ==> (r is Ok <==> readable
                    && i < t.len())
                &&& r is Err ==> unchanged
                &&& name_valid(name.spec_bytes()) && old(self).is_mounted() && readable && i
                    >= t.len() ==> r == Err::<(), FmsError>(FmsError::NotFound)
                &&& r is Ok ==> {
                    &&& final(self).is_mounted()
                    &&& superblock_stored(final(self).sb(), d2)
                    &&& final(self).sb() == sb_with_count(sb, sat_dec(sb.file_count))
                    &&& meta_written(
                        d,
                        d2,
                        final(self).sb(),
                        t.update(i, empty_entry()),
                    )
                }
                &&& r is Ok && fs_sound(sb, d) ==> fs_sound(final(self).sb(), d2)
                &&& r is Ok && fs_wf(sb, d) ==> fs_wf(final(self).sb(), d2) && fs_files(
                    final(self).sb(),
                    d2,
                ) == fs_files(sb, d).remove(name.spec_bytes())
            }),
    {
        let ghost sb0 = self.superblock;
        let ghost d0 = device.blocks();
        match validate_name(name) {
            Ok(()) => {},
            Err(e) => return Err(e),
        }
        let res = self.load_table(device);
        let mut table = match res {
            Ok(t) => t,
            Err(e) => return Err(e),
        };
        let ghost t0 = table_view(table);
        let idx = match find_entry(&table, name) {
            Some(i) => i,
            None => return Err(FmsError::NotFound),
        };
        table[idx] = FmsFileEntry::empty();
        let ghost t1 = table_view(table);
        assert(t1 =~= t0.update(idx as int, empty_entry()));
        self.superblock.file_count = self.superblock.file_count.saturating_sub(1);
        let ghost d1 = device.blocks();
        let res = self.save_table(device, &table);
        if res.is_err() {
            // The table's blocks were read above, so they can be written.
            assert(false);
            return res;
        }
        let ghost d2 = device.blocks();
        let res = self.save_superblock(device);
        if res.is_err() {
            // The disk holds the table's blocks, so it holds block 0.
            assert(false);
            return res;
        }
        proof {
            lemma_meta_written(d0, d2, device.blocks(), self.superblock, t1);
            if fs_sound(sb0, d0) {
                lemma_delete_keeps_wf(sb0, d0, device.blocks(), self.superblock, name.spec_bytes());
            }
        }
        Ok(())
    }

    /// Copies the contents of the file called `name` to the front of `out`.
    pub fn read_file<D: BlockDevice>(
        &mut self,
        device: &mut D,
        name: &str,
        out: &mut [u8],
        out_read: &mut usize,
    ) -> (r: Result<(), FmsError>)
        requires
            name_valid(name.spec_bytes()) && old(self).is_mounted() ==> block_numbers_fit(
                old(self).sb(),
                old(device).blocks(),
            ),
            name_valid(name.spec_bytes()) && old(self).is_mounted() ==> read_fits(
                old(self).sb(),
                old(device).blocks(),
                name.spec_bytes(),
            ),
        ensures
            final(device).fault() == old(device).fault(),
            ({
                let sb = old(self).sb();
                let d = old(device).blocks();
                let t = disk_table(sb, d);
                let e = t[first_named(t, name.spec_bytes())];
                let readable = sb.file_table_start + FMS_FILE_TABLE_BLOCKS <= d.len();
                let reached = name_valid(name.spec_bytes()) && old(self).is_mounted();
                &&& reached && !readable ==> r == Err::<(), FmsError>(old(device).fault())
                &&& reached && readable && first_named(t, name.spec_bytes()) < t.len() && e.size
                    <= old(out)@.len() && !(e.block_count == 0 || e.start_block + e.block_count
                    <= d.len()) ==> r == Err::<(), FmsError>(old(device).fault())
            }),
            *final(self) == *old(self),
            final(device).blocks() == old(device).blocks(),
            final(out)@.len() == old(out)@.len(),
            ({
                let sb = old(self).sb();
                let d = old(device).blocks();
                let t = disk_table(sb, d);
                let i = first_named(t, name.spec_bytes());
                let e = t[i];
                let readable = sb.file_table_start + FMS_FILE_TABLE_BLOCKS <= d.len();
                let valid = name_valid(name.spec_bytes());
                let kept = final(out)@ == old(out)@ && *final(out_read) == *old(out_read);
                let n = if e.size < 512 * e.block_count {
                    e.size as int
                } else {
                    512 * e.block_count
                };
                &&& !valid ==> r == Err::<(), FmsError>(FmsError::BadName) && kept
                &&& valid && !old(self).is_mounted() ==> r == Err::<(), FmsError>(FmsError::BadFs)
                    && kept
                &&& valid && old(self).is_mounted() ==> (r is Ok <==> readable && i < t.len()
                    && e.size <= old(out)@.len() && (e.block_count == 0 || e.start_block
                    + e.block_count <= d.len()))
                &&& valid && old(self).is_mounted() && !readable ==> kept
                &&& valid && old(self).is_mounted() && readable && i >= t.len() ==> r == Err::<
                    (),
                    FmsError,
                >(FmsError::NotFound) && kept
                &&& valid && old(self).is_mounted() && readable && i < t.len() && old(out)@.len()
                    < e.size ==> r == Err::<(), FmsError>(FmsError::TooLarge) && kept
                &&& r is Err ==> *final(out_read) == *old(out_read)
                &&& valid && old(self).is_mounted() && fs_sound(sb, d) ==> (r is Ok <==> fs_files(
                    sb,
                    d,
                ).dom().contains(name.spec_bytes()) && e.size <= old(out)@.len())
                &&& r is Ok ==> {
                    &&& *final(out_read) == n
                    &&& final(out)@.subrange(0, n) == file_contents(d, e)
                    &&& final(out)@.subrange(n, final(out)@.len() as int) == old(out)@.subrange(
                        n,
                        old(out)@.len() as int,
                    )
                    &&& fs_files(sb, d).dom().contains(name.spec_bytes())
                    &&& final(out)@.subrange(0, n) == fs_files(sb, d)[name.spec_bytes()]
                }
            }),
    {
        let ghost d = device.blocks();
        let entry = match self.stat(device, name) {
            Ok(e) => e,
            Err(e) => return Err(e),
        };
        if out.len() < entry.size as usize {
            return Err(FmsError::TooLarge);
        }
        let ghost t = disk_table(self.superblock, d);
        let ghost idx = first_named(t, name.spec_bytes());
        let out_len = out.len();
        let size = entry.size as usize;
        proof {
            lemma_first_named(t, name.spec_bytes(), 0);
            if fs_sound(self.superblock, d) {
                assert(extent_in_data(t[idx], self.superblock));
            }
        }
        let mut copied: usize = 0;
        let mut i: u32 = 0;
        while i < entry.block_count
            invariant
                device.blocks() == d,
                d == old(device).blocks(),
                device.fault() == old(device).fault(),
                *self == *old(self),
                self.mounted,
                name_valid(name.spec_bytes()),
                t == disk_table(self.superblock, d),
                idx == first_named(t, name.spec_bytes()),
                idx < t.len(),
                entry@ == t[idx],
                fs_sound(self.superblock, d) ==> (entry.block_count == 0 || entry.start_block
                    + entry.block_count <= d.len()),
                self.superblock.file_table_start + FMS_FILE_TABLE_BLOCKS <= d.len(),
                out_len == out@.len(),
                entry.start_block + entry.block_count <= u32::MAX + 1 || d.len() <= u32::MAX,
                size == entry.size,
                size <= out@.len(),
                out@.len() == old(out)@.len(),
                i <= entry.block_count,
                i > 0 ==> entry.start_block + i - 1 < d.len(),
                copied == (if size < 512 * i { size as int } else { 512 * i }),
                out@.subrange(0, copied as int) == blocks_concat(
                    d,
                    entry.start_block as int,
                    i as nat,
                ).take(copied as int),
                out@.subrange(copied as int, out@.len() as int) == old(out)@.subrange(
                    copied as int,
                    old(out)@.len() as int,
                ),
            decreases entry.block_count - i,
        {
            let mut block = [0u8; FMS_BLOCK_SIZE];
            let res = device.read_block(entry.start_block + i, &mut block);
            if res.is_err() {
                return Err(res.unwrap_err());
            }
            let remaining = size - copied;
            let to_copy = if remaining < FMS_BLOCK_SIZE {
                remaining
            } else {
                FMS_BLOCK_SIZE
            };
            let ghost before = out@;
            let mut j: usize = 0;
            while j < to_copy
                invariant
                    to_copy <= 512,
                    out_len == out@.len(),
                    copied + to_copy <= out@.len(),
                    block@.len() == 512,
                    j <= to_copy,
                    out@.len() == before.len(),
                    forall|k: int| 0 <= k < copied ==> out@[k] == before[k],
                    forall|k: int| 0 <= k < j ==> out@[copied + k] == block@[k],
                    forall|k: int| copied + j <= k < out@.len() ==> out@[k] == before[k],
                decreases to_copy - j,
            {
                out[copied + j] = block[j];
                j = j + 1;
            }
            proof {
                lemma_blocks_concat_len(d, entry.start_block as int, i as nat);
                let c0 = blocks_concat(d, entry.start_block as int, i as nat);
                let c1 = blocks_concat(d, entry.start_block as int, (i + 1) as nat);
                assert(c1 == c0 + block@);
                assert(out@.subrange(0, copied + to_copy) =~= c1.take(copied + to_copy)) by {
                    assert forall|k: int| 0 <= k < copied + to_copy implies out@[k] == c1[k] by {
                        if k < copied {
                            assert(out@[k] == before.subrange(0, copied as int)[k]);
                        } else {
                            assert(out@[k] == block@[k - copied]);
                        }
                    }
                }
                assert(out@.subrange(copied + to_copy, out@.len() as int) =~= old(out)@.subrange(
                    copied + to_copy,
                    old(out)@.len() as int,
                )) by {
                    assert forall|k: int| copied + to_copy <= k < out@.len() implies out@[k] == old(out)@[k] by {
                        assert(before[k] == before.subrange(copied as int, before.len() as int)[k
                            - copied]);
                    }
                }
            }
            copied = copied + to_copy;
            i = i + 1;
        }
        *out_read = copied;
        proof {
            lemma_first_named(t, name.spec_bytes(), 0);
        }
        Ok(())
    }

    /// Stores `data` as the file called `name`, replacing any file of that name.
    #[verifier::loop_isolation(false)]
    pub fn write_file<D: BlockDevice>(&mut self, device: &mut D, name: &str, data: &[u8]) -> (r:
        Result<(), FmsError>)
        requires
            name_valid(name.spec_bytes()) && old(self).is_mounted() ==> block_numbers_fit(
                old(self).sb(),
                old(device).blocks(),
            ),
            name_valid(name.spec_bytes()) && old(self).is_mounted() ==> data@.len() <= u32::MAX,
            name_valid(name.spec_bytes()) && old(self).is_mounted() ==> data@.len() + FMS_BLOCK_SIZE
                <= usize::MAX,
            old(self).is_mounted() && space_searched(
                old(self).sb(),
                old(device).blocks(),
                name.spec_bytes(),
                data@.len(),
            ) ==> old(self).sb().data_start <= old(self).sb().total_blocks,
            old(self).is_mounted() && space_searched(
                old(self).sb(),
                old(device).blocks(),
                name.spec_bytes(),
                data@.len(),
            ) ==> extents_in_range(
                cleared(disk_table(old(self).sb(), old(device).blocks()), name.spec_bytes()),
            ),
        ensures
            final(device).fault() == old(device).fault(),
            ({
                let sb = old(self).sb();
                let d = old(device).blocks();
                let d2 = final(device).blocks();
                let nb = name.spec_bytes();
                let t = disk_table(sb, d);
                let replacing = first_named(t, nb) < t.len();
                let slot = write_slot(t, nb);
                let tc = cleared(t, nb);
                let n = blocks_for(data@.len() as int);
                let lo = sb.data_start as int;
                let hi = sb.total_blocks as int;
                let has_slot = slot < t.len();
                let has_space = n == 0 || fit_exists(tc, lo, hi, n);
                let start = if n == 0 {
                    lo
                } else {
                    first_fit(tc, lo, hi, n)
                };
                let readable = sb.file_table_start + FMS_FILE_TABLE_BLOCKS <= d.len();
                let valid = name_valid(nb);
                let mounted = old(self).is_mounted();
                let unchanged = *final(self) == *old(self) && d2 == d;
                &&& !valid ==> r == Err::<(), FmsError>(FmsError::BadName) && unchanged
                &&& valid && !mounted ==> r == Err::<(), FmsError>(FmsError::BadFs) && unchanged
                &&& valid && mounted ==> (r is Ok <==> readable && has_slot && has_space && (n == 0
                    || start + n <= d.len()))
                &&& valid && mounted && !readable ==> unchanged
                &&& valid && mounted && readable && !(has_slot && has_space) ==> r == Err::<
                    (),
                    FmsError,
                >(FmsError::NoSpace) && unchanged
                &&& r is Err ==> *final(self) == *old(self) && same_outside(d, d2, start, start + n)
                &&& r is Ok && n > 0 ==> is_first_fit(tc, lo, hi, n, start)
                &&& valid && mounted && !readable ==> r == Err::<(), FmsError>(old(device).fault())
                &&& valid && mounted && readable && has_slot && has_space && !(n == 0 || start + n
                    <= d.len()) ==> r == Err::<(), FmsError>(old(device).fault())
                &&& r is Ok ==> final(self).is_mounted()
                &&& r is Ok ==> superblock_stored(final(self).sb(), d2)
                &&& r is Ok ==> final(self).sb() == sb_with_count(
                        sb,
                        if replacing {
                            sb.file_count
                        } else {
                            sat_inc(sb.file_count)
                        },
                    )
                &&& r is Ok ==> file_written(
                    d,
                    d2,
                    final(self).sb(),
                    tc.update(slot, new_entry(nb, start, n, data@.len() as int)),
                    start,
                    n as nat,
                    data@,
                )
                &&& r is Ok && fs_sound(sb, d) ==> fs_sound(final(self).sb(), d2)
                &&& r is Ok && fs_wf(sb, d) && no_zero_byte(nb) ==> fs_wf(final(self).sb(), d2)
                    && fs_files(final(self).sb(), d2) == fs_files(sb, d).insert(nb, data@)
                &&& valid && mounted && fs_sound(sb, d) ==> (r is Ok <==> has_slot && has_space)
            }),
    {
        let ghost sb0 = self.superblock;
        let ghost d0 = device.blocks();
        let ghost nb = name.spec_bytes();
        match validate_name(name) {
            Ok(()) => {},
            Err(e) => return Err(e),
        }
        let res = self.load_table(device);
        let mut table = match res {
            Ok(t) => t,
            Err(e) => return Err(e),
        };
        let ghost t0 = table_view(table);
        proof {
            lemma_disk_table_sized(sb0, d0);
            lemma_first_named(t0, nb, 0);
            lemma_first_free(t0, 0);
        }
        let needed_blocks = bytes_to_blocks(data.len());
        let ghost n = needed_blocks as int;
        proof {
            assert(n <= 8388608) by (nonlinear_arith)
                requires
                    n == (data@.len() + 511) / 512,
                    data@.len() <= u32::MAX,
            ;
        }
        let existing = find_entry(&table, name);
        let replacing = existing.is_some();
        let entry_index = match existing {
            Some(idx) => {
                table[idx] = FmsFileEntry::empty();
                idx
            },
            None => match find_free_entry(&table) {
                Some(idx) => idx,
                None => return Err(FmsError::NoSpace),
            },
        };
        let ghost tc = table_view(table);
        assert(tc =~= cleared(t0, nb));
        let start_block = if needed_blocks == 0 {
            self.superblock.data_start
        } else {
            match find_contiguous_space(&self.superblock, &table, needed_blocks as u32) {
                Some(s) => s,
                None => return Err(FmsError::NoSpace),
            }
        };
        proof {
            if n > 0 {
                lemma_first_fit_unique(
                    tc,
                    sb0.data_start as int,
                    sb0.total_blocks as int,
                    n,
                    start_block as int,
                );
            }
        }
        // the data blocks
        let ghost d_before = device.blocks();
        let mut i: usize = 0;
        while i < needed_blocks
            invariant
                device.fault() == old(device).fault(),
                d_before == d0,
                d0 == old(device).blocks(),
                *self == *old(self),
                needed_blocks == n,
                n <= 8388608,
                n == blocks_for(data@.len() as int),
                start_block + n <= u32::MAX,
                data@.len() <= u32::MAX,
                data@.len() + 512 <= usize::MAX,
                i <= needed_blocks,
                i > 0 ==> start_block + i - 1 < d0.len(),
                same_outside(d0, device.blocks(), start_block as int, start_block + n),
                forall|b: int|
                    0 <= b < d0.len() && start_block + i <= b ==> device.blocks()[b] == d0[b],
                blocks_concat(device.blocks(), start_block as int, i as nat) == padded(
                    data@,
                    i as nat,
                ),
            decreases needed_blocks - i,
        {
            let mut block = [0u8; FMS_BLOCK_SIZE];
            let offset = i * FMS_BLOCK_SIZE;
            let end = if offset + FMS_BLOCK_SIZE < data.len() {
                offset + FMS_BLOCK_SIZE
            } else {
                data.len()
            };
            let mut j: usize = 0;
            while offset + j < end
                invariant
                    offset == 512 * i,
                    end <= data@.len(),
                    end <= offset + 512,
                    offset + j <= end || j == 0,
                    j <= 512,
                    block@.len() == 512,
                    forall|k: int| 0 <= k < j ==> block@[k] == data@[offset + k],
                    forall|k: int| j <= k < 512 ==> block@[k] == 0,
                decreases end - offset - j,
            {
                block[j] = data[offset + j];
                j = j + 1;
            }
            assert(block@ =~= padded(data@, (i + 1) as nat).subrange(offset as int, offset + 512));
            let ghost before = device.blocks();
            let res = device.write_block(start_block + i as u32, &block);
            if res.is_err() {
                return Err(res.unwrap_err());
            }
            proof {
                lemma_blocks_concat_agree(before, device.blocks(), start_block as int, i as nat);
                lemma_blocks_concat_len(device.blocks(), start_block as int, i as nat);
                assert(padded(data@, (i + 1) as nat) =~= padded(data@, i as nat) + padded(
                    data@,
                    (i + 1) as nat,
                ).subrange(offset as int, offset + 512));
            }
            i = i + 1;
        }
        let ghost d1 = device.blocks();
        let mut entry = FmsFileEntry::empty();
        entry.used = true;
        entry.set_name(name);
        entry.start_block = start_block;
        entry.block_count = needed_blocks as u32;
        entry.size = data.len() as u32;
        table[entry_index] = entry;
        let ghost t2 = table_view(table);
        assert(t2 =~= tc.update(entry_index as int, new_entry(nb, start_block as int, n, data@.len() as int)));
        if !replacing {
            self.superblock.file_count = self.superblock.file_count.saturating_add(1);
        }
        let res = self.save_table(device, &table);
        if res.is_err() {
            // The table's blocks were read above, so they can be written.
            assert(false);
            return res;
        }
        let ghost d_t = device.blocks();
        let res = self.save_superblock(device);
        if res.is_err() {
            // The disk holds the table's blocks, so it holds block 0.
            assert(false);
            return res;
        }
        proof {
            lemma_meta_written(d1, d_t, device.blocks(), self.superblock, t2);
            assert(data_written(d0, d1, start_block as int, n as nat, data@));
            assert(meta_written(d1, device.blocks(), self.superblock, t2));
            if fs_sound(sb0, d0) {
                assert(start_block + n <= d0.len());
            }
            assert(write_slot(t0, nb) == entry_index);
            if n > 0 {
                assert(run_free(tc, start_block as int, n));
                assert(fit_exists(tc, sb0.data_start as int, sb0.total_blocks as int, n));
            }
            if fs_sound(sb0, d0) {
                lemma_write_keeps_wf(
                    sb0,
                    d0,
                    d1,
                    device.blocks(),
                    self.superblock,
                    nb,
                    data@,
                    start_block as int,
                    n as nat,
                );
            }
        }
        Ok(())
    }
}

/// The message describing `err`.
pub open spec fn error_text(err: FmsError) -> Seq<char> {
    match err {
        FmsError::Io => "io error"@,
        FmsError::BadFs => "invalid filesystem"@,
        FmsError::NotFound => "file not found"@,
        FmsError::Exists => "file already exists"@,
        FmsError::NoSpace => "no space left"@,
        FmsError::BadName => "invalid filename"@,
        FmsError::TooLarge => "buffer too small"@,
    }
}

/// A message describing `err`.
pub fn fms_strerror(err: FmsError) -> (s: &'static str)
    ensures
        s@ == error_text(err),
{
    match err {
        FmsError::Io => "io error",
        FmsError::BadFs => "invalid filesystem",
        FmsError::NotFound => "file not found",
        FmsError::Exists => "file already exists",
        FmsError::NoSpace => "no space left",
        FmsError::BadName => "invalid filename",
        FmsError::TooLarge => "buffer too small",
    }
}

/// What formatting does to the disk: every block below `total` is zeroed, but block 0 once
/// it holds the superblock, and every block from `total` on is kept.
pub open spec fn formatted_blocks(d: Disk, d2: Disk, total: int) -> bool {
    &&& d2.len() == d.len()
    &&& forall|b: int| 1 <= b < d.len() && b < total ==> (#[trigger] d2[b])@ == zeros(512)
    &&& forall|b: int| total <= b < d.len() ==> #[trigger] d2[b] == d[b]
    &&& (total > d.len() && d.len() > 0) ==> d2[0]@ == zeros(512)
}

/// The encoded table is a whole table's worth of bytes.
pub proof fn lemma_table_roundtrip_len(t: Seq<EntryView>)
    requires
        names_sized(t),
        t.len() == FMS_MAX_FILES,
    ensures
        encode_table(t).len() == TABLE_BYTES,
{
    reveal(encode_table);
    crate::layout::lemma_encode_table_len(t, FMS_MAX_FILES as nat);
}

} // verus!
