//! The host tool's commands on a disk image: each mounts the image and runs one filesystem
//! operation. An image whose layout or file table names block numbers beyond 32 bits cannot
//! be worked on; each command says so by returning `None`.
use crate::device::BlockDevice;
use crate::fs::Fms;
use crate::layout::{
    decode_superblock, superblock_valid, table_view, FmsError, FmsFileEntry, FmsSuperblock,
    FMS_BLOCK_SIZE, FMS_FILE_TABLE_BLOCKS, FMS_MAX_FILES,
};
use crate::laws::{law_remount, law_wf_operable};
use crate::model::{
    cleared, disk_table, fs_files, fs_sound, fs_wf, no_zero_byte, used_entries,
    write_slot, Disk,
};
use crate::table::{blocks_for, extents_in_range, first_named, fit_exists, name_valid, validate_name};
use vstd::prelude::*;
use vstd::string::StringSliceAdditionalSpecFns;

verus! {

/// Whether block 0 of `d` holds a valid superblock.
pub open spec fn mountable(d: Disk) -> bool {
    d.len() > 0 && superblock_valid(decode_superblock(d[0]@))
}

/// The superblock stored in block 0 of `d`.
pub open spec fn disk_sb(d: Disk) -> FmsSuperblock {
    decode_superblock(d[0]@)
}

/// Whether the file table that `sb` places has 32-bit block numbers.
pub open spec fn layout_addressable(sb: FmsSuperblock) -> bool {
    sb.file_table_start + FMS_FILE_TABLE_BLOCKS <= u32::MAX
}

/// Whether the file table that `sb` places lies on `d`.
pub open spec fn table_readable(sb: FmsSuperblock, d: Disk) -> bool {
    sb.file_table_start + FMS_FILE_TABLE_BLOCKS <= d.len()
}

/// The number of blocks of a disk image file of `size` bytes: an empty file, or one that does
/// not hold whole blocks, is no filesystem image. The count is taken modulo 2^32, as a
/// `u32` block count holds it.
pub fn image_block_count(size: u64) -> (r: Result<u32, FmsError>)
    ensures
        size == 0 || size % 512 != 0 ==> r == Err::<u32, FmsError>(FmsError::BadFs),
        size != 0 && size % 512 == 0 ==> r == Ok::<u32, FmsError>(((size / 512) % 0x1_0000_0000) as u32),
{
    if size == 0 || size % (FMS_BLOCK_SIZE as u64) != 0 {
        return Err(FmsError::BadFs);
    }
    let blocks = size / (FMS_BLOCK_SIZE as u64);
    let count = (blocks % 0x1_0000_0000u64) as u32;
    Ok(count)
}

/// Whether the file table lies at 32-bit block numbers.
fn layout_fits(fs: &Fms) -> (b: bool)
    ensures
        b == layout_addressable(fs.sb()),
{
    fs.superblock_copy().file_table_start <= 0xFFFF_FFFFu32 - 8
}

/// Whether every used, non-empty slot of `table` ends at a 32-bit block number.
pub fn extents_fit(table: &[FmsFileEntry; FMS_MAX_FILES]) -> (b: bool)
    ensures
        b == extents_in_range(table_view(*table)),
{
    let ghost t = table_view(*table);
    let mut i: usize = 0;
    while i < FMS_MAX_FILES
        invariant
            i <= FMS_MAX_FILES,
            t == table_view(*table),
            t.len() == FMS_MAX_FILES,
            forall|k: int|
                0 <= k < i && (#[trigger] t[k]).used && t[k].block_count != 0 ==> t[k].start_block
                    + t[k].block_count <= u32::MAX,
        decreases FMS_MAX_FILES - i,
    {
        let e = table[i];
        assert(t[i as int] == e@);
        if e.used && e.block_count != 0 && e.start_block as u64 + e.block_count as u64
            > 0xFFFF_FFFFu64 {
            return false;
        }
        i = i + 1;
    }
    true
}

/// `files`: the used slots of the image's file table, in order.
pub fn host_files<D: BlockDevice>(device: &mut D) -> (r: Option<
    Result<Vec<FmsFileEntry>, FmsError>,
>)
    ensures
        final(device).blocks() == old(device).blocks(),
        final(device).fault() == old(device).fault(),
        old(device).blocks().len() == 0 ==> r == Some(
            Err::<Vec<FmsFileEntry>, FmsError>(old(device).fault()),
        ),
        mountable(old(device).blocks()) && layout_addressable(disk_sb(old(device).blocks()))
            && !table_readable(disk_sb(old(device).blocks()), old(device).blocks()) ==> r == Some(
            Err::<Vec<FmsFileEntry>, FmsError>(old(device).fault()),
        ),
        ({
            let d = old(device).blocks();
            let sb = disk_sb(d);
            let listed = used_entries(disk_table(sb, d));
            &&& !mountable(d) ==> (r matches Some(Err(_)))
            &&& d.len() > 0 && !mountable(d) ==> r == Some(
                Err::<Vec<FmsFileEntry>, FmsError>(FmsError::BadFs),
            )
            &&& mountable(d) ==> (r is None <==> !layout_addressable(sb))
            &&& mountable(d) && layout_addressable(sb) ==> ((r matches Some(Ok(_)))
                <==> table_readable(sb, d))
            &&& r matches Some(Ok(v)) ==> v@.len() == listed.len() && forall|i: int|
                0 <= i < listed.len() ==> (#[trigger] v@[i])@ == listed[i]
        }),
{
    let mut fs = match Fms::mount(device) {
        Ok(f) => f,
        Err(e) => return Some(Err(e)),
    };
    if !layout_fits(&fs) {
        return None;
    }
    let ghost t = disk_table(fs.sb(), device.blocks());
    proof {
        crate::model::lemma_used_upto_len(t, 64);
        crate::model::lemma_disk_table_sized(fs.sb(), device.blocks());
    }
    let mut entries = [FmsFileEntry::empty();FMS_MAX_FILES];
    let mut count: usize = 0;
    match fs.list(device, &mut entries, &mut count) {
        Ok(()) => {},
        Err(e) => return Some(Err(e)),
    }
    let ghost listed = used_entries(t);
    let mut v: Vec<FmsFileEntry> = Vec::new();
    let mut i: usize = 0;
    while i < count
        invariant
            count == listed.len(),
            count <= FMS_MAX_FILES,
            i <= count,
            entries@.len() == FMS_MAX_FILES,
            forall|k: int| 0 <= k < count ==> (#[trigger] entries@[k])@ == listed[k],
            v@.len() == i,
            forall|k: int| 0 <= k < i ==> (#[trigger] v@[k])@ == listed[k],
        decreases count - i,
    {
        v.push(entries[i]);
        i = i + 1;
    }
    Some(Ok(v))
}

/// `info`: the slot that holds `name`.
pub fn host_info<D: BlockDevice>(device: &mut D, name: &str) -> (r: Option<
    Result<FmsFileEntry, FmsError>,
>)
    ensures
        final(device).blocks() == old(device).blocks(),
        final(device).fault() == old(device).fault(),
        old(device).blocks().len() == 0 ==> r == Some(
            Err::<FmsFileEntry, FmsError>(old(device).fault()),
        ),
        mountable(old(device).blocks()) && name_valid(name.spec_bytes()) && layout_addressable(
            disk_sb(old(device).blocks()),
        ) && !table_readable(disk_sb(old(device).blocks()), old(device).blocks()) ==> r == Some(
            Err::<FmsFileEntry, FmsError>(old(device).fault()),
        ),
        ({
            let d = old(device).blocks();
            let sb = disk_sb(d);
            let nb = name.spec_bytes();
            let t = disk_table(sb, d);
            &&& !mountable(d) ==> (r matches Some(Err(_)))
            &&& d.len() > 0 && !mountable(d) ==> r == Some(
                Err::<FmsFileEntry, FmsError>(FmsError::BadFs),
            )
            &&& mountable(d) && !name_valid(nb) ==> r == Some(
                Err::<FmsFileEntry, FmsError>(FmsError::BadName),
            )
            &&& mountable(d) && name_valid(nb) ==> (r is None <==> !layout_addressable(sb))
            &&& mountable(d) && name_valid(nb) && layout_addressable(sb) ==> ((r matches Some(
                Ok(_),
            )) <==> table_readable(sb, d) && fs_files(sb, d).dom().contains(nb))
            &&& mountable(d) && name_valid(nb) && layout_addressable(sb) && table_readable(sb, d)
                && !fs_files(sb, d).dom().contains(nb) ==> r == Some(
                Err::<FmsFileEntry, FmsError>(FmsError::NotFound),
            )
            &&& r matches Some(Ok(e)) ==> e@ == t[first_named(t, nb)]
        }),
{
    let mut fs = match Fms::mount(device) {
        Ok(f) => f,
        Err(e) => return Some(Err(e)),
    };
    if validate_name(name).is_err() {
        return Some(Err(FmsError::BadName));
    }
    if !layout_fits(&fs) {
        return None;
    }
    Some(fs.stat(device, name))
}

/// `delete`: removes the file called `name` from the image.
pub fn host_delete<D: BlockDevice>(device: &mut D, name: &str) -> (r: Option<
    Result<(), FmsError>,
>)
    ensures
        final(device).fault() == old(device).fault(),
        old(device).blocks().len() == 0 ==> r == Some(Err::<(), FmsError>(old(device).fault())),
        mountable(old(device).blocks()) && name_valid(name.spec_bytes()) && layout_addressable(
            disk_sb(old(device).blocks()),
        ) && !table_readable(disk_sb(old(device).blocks()), old(device).blocks()) ==> r == Some(
            Err::<(), FmsError>(old(device).fault()),
        ),
        ({
            let d = old(device).blocks();
            let d2 = final(device).blocks();
            let sb = disk_sb(d);
            let nb = name.spec_bytes();
            &&& !mountable(d) ==> (r matches Some(Err(_))) && d2 == d
            &&& d.len() > 0 && !mountable(d) ==> r == Some(Err::<(), FmsError>(FmsError::BadFs))
            &&& mountable(d) && !name_valid(nb) ==> r == Some(
                Err::<(), FmsError>(FmsError::BadName),
            ) && d2 == d
            &&& mountable(d) && name_valid(nb) ==> (r is None <==> !layout_addressable(sb))
            &&& r is None ==> d2 == d
            &&& (r matches Some(Err(_))) ==> d2 == d
            &&& mountable(d) && name_valid(nb) && layout_addressable(sb) ==> ((r matches Some(
                Ok(_),
            )) <==> table_readable(sb, d) && fs_files(sb, d).dom().contains(nb))
            &&& mountable(d) && name_valid(nb) && layout_addressable(sb) && table_readable(sb, d)
                && !fs_files(sb, d).dom().contains(nb) ==> r == Some(
                Err::<(), FmsError>(FmsError::NotFound),
            )
            &&& (r matches Some(Ok(_))) && fs_wf(sb, d) ==> mountable(d2) && fs_wf(disk_sb(d2), d2)
                && fs_files(disk_sb(d2), d2) == fs_files(sb, d).remove(nb)
        }),
{
    let mut fs = match Fms::mount(device) {
        Ok(f) => f,
        Err(e) => return Some(Err(e)),
    };
    if validate_name(name).is_err() {
        return Some(Err(FmsError::BadName));
    }
    if !layout_fits(&fs) {
        return None;
    }
    let ghost sb = fs.sb();
    let r = fs.delete(device, name);
    proof {
        if r is Ok && fs_wf(sb, old(device).blocks()) {
            law_remount(fs.sb(), device.blocks());
        }
    }
    Some(r)
}

/// `open`: the contents of the file called `name`.
pub fn host_open<D: BlockDevice>(device: &mut D, name: &str) -> (r: Option<
    Result<Vec<u8>, FmsError>,
>)
    ensures
        final(device).blocks() == old(device).blocks(),
        final(device).fault() == old(device).fault(),
        old(device).blocks().len() == 0 ==> r == Some(Err::<Vec<u8>, FmsError>(old(device).fault())),
        mountable(old(device).blocks()) && name_valid(name.spec_bytes()) && layout_addressable(
            disk_sb(old(device).blocks()),
        ) && !table_readable(disk_sb(old(device).blocks()), old(device).blocks()) ==> r == Some(
            Err::<Vec<u8>, FmsError>(old(device).fault()),
        ),
        ({
            let d = old(device).blocks();
            let sb = disk_sb(d);
            let nb = name.spec_bytes();
            let t = disk_table(sb, d);
            let e = t[first_named(t, nb)];
            let found = table_readable(sb, d) && first_named(t, nb) < t.len();
            &&& !mountable(d) ==> (r matches Some(Err(_)))
            &&& d.len() > 0 && !mountable(d) ==> r == Some(
                Err::<Vec<u8>, FmsError>(FmsError::BadFs),
            )
            &&& mountable(d) && !name_valid(nb) ==> r == Some(
                Err::<Vec<u8>, FmsError>(FmsError::BadName),
            )
            &&& mountable(d) && name_valid(nb) ==> (r is None <==> !layout_addressable(sb) || (found
                && e.start_block + e.block_count > u32::MAX + 1))
            &&& mountable(d) && name_valid(nb) && layout_addressable(sb) && table_readable(sb, d)
                && !fs_files(sb, d).dom().contains(nb) ==> r == Some(
                Err::<Vec<u8>, FmsError>(FmsError::NotFound),
            )
            &&& r matches Some(Ok(v)) ==> fs_files(sb, d).dom().contains(nb) && v@ == fs_files(
                sb,
                d,
            )[nb]
            &&& mountable(d) && fs_sound(sb, d) && name_valid(nb) ==> r is Some && ((r matches Some(
                Ok(_),
            )) <==> fs_files(sb, d).dom().contains(nb))
        }),
{
    let mut fs = match Fms::mount(device) {
        Ok(f) => f,
        Err(e) => return Some(Err(e)),
    };
    if validate_name(name).is_err() {
        return Some(Err(FmsError::BadName));
    }
    if !layout_fits(&fs) {
        return None;
    }
    let ghost d = device.blocks();
    let ghost sb = fs.sb();
    proof {
        crate::model::lemma_disk_table_sized(sb, d);
        if fs_sound(sb, d) {
            law_wf_operable(sb, d, name.spec_bytes());
        }
    }
    let entry = match fs.stat(device, name) {
        Ok(e) => e,
        Err(err) => return Some(Err(err)),
    };
    if entry.start_block as u64 + entry.block_count as u64 > 0x1_0000_0000u64 {
        proof {
            if fs_sound(sb, d) {
                let t = disk_table(sb, d);
                crate::table::lemma_first_named(t, name.spec_bytes(), 0);
                assert(t[first_named(t, name.spec_bytes())].used);
            }
        }
        return None;
    }
    proof {
        if fs_sound(sb, d) {
            crate::laws::law_file_size(sb, d, name.spec_bytes());
        }
    }
    let mut buf: Vec<u8> = vec![0u8; entry.size as usize];
    let mut read: usize = 0;
    match fs.read_file(device, name, buf.as_mut_slice(), &mut read) {
        Ok(()) => {},
        Err(err) => return Some(Err(err)),
    }
    buf.truncate(read);
    Some(Ok(buf))
}

/// `save`: stores `data` in the image as the file called `name`, replacing a file of that
/// name. Contents longer than a 32-bit size can record cannot be stored, and non-empty
/// contents cannot be placed beside slots that run past the last 32-bit block number.
pub fn host_save<D: BlockDevice>(device: &mut D, name: &str, data: &[u8]) -> (r: Option<
    Result<(), FmsError>,
>)
    ensures
        final(device).fault() == old(device).fault(),
        old(device).blocks().len() == 0 ==> r == Some(Err::<(), FmsError>(old(device).fault())),
        mountable(old(device).blocks()) && name_valid(name.spec_bytes()) && layout_addressable(
            disk_sb(old(device).blocks()),
        ) && !table_readable(disk_sb(old(device).blocks()), old(device).blocks()) && data@.len()
            <= u32::MAX && data@.len() + 512 <= usize::MAX ==> r == Some(
            Err::<(), FmsError>(old(device).fault()),
        ),
        ({
            let d = old(device).blocks();
            let d2 = final(device).blocks();
            let sb = disk_sb(d);
            let nb = name.spec_bytes();
            let t = disk_table(sb, d);
            let n = blocks_for(data@.len() as int);
            let sized = data@.len() <= u32::MAX && data@.len() + 512 <= usize::MAX;
            &&& !mountable(d) ==> (r matches Some(Err(_))) && d2 == d
            &&& d.len() > 0 && !mountable(d) ==> r == Some(Err::<(), FmsError>(FmsError::BadFs))
            &&& mountable(d) && !name_valid(nb) ==> r == Some(
                Err::<(), FmsError>(FmsError::BadName),
            ) && d2 == d
            &&& mountable(d) && name_valid(nb) ==> (r is None <==> !layout_addressable(sb)
                || !sized || (data@.len() > 0 && table_readable(sb, d) && !extents_in_range(t)))
            &&& r is None ==> d2 == d
            &&& mountable(d) && fs_sound(sb, d) && name_valid(nb) && sized ==> r is Some && ((
            r matches Some(Ok(_))) <==> write_slot(t, nb) < t.len() && (n == 0 || fit_exists(
                cleared(t, nb),
                sb.data_start as int,
                sb.total_blocks as int,
                n,
            )))
            &&& (r matches Some(Ok(_))) && fs_wf(sb, d) && no_zero_byte(nb) ==> mountable(d2)
                && fs_wf(disk_sb(d2), d2) && fs_files(disk_sb(d2), d2) == fs_files(sb, d).insert(
                nb,
                data@,
            )
        }),
{
    let mut fs = match Fms::mount(device) {
        Ok(f) => f,
        Err(e) => return Some(Err(e)),
    };
    if validate_name(name).is_err() {
        return Some(Err(FmsError::BadName));
    }
    if !layout_fits(&fs) {
        return None;
    }
    if data.len() > 0xFFFF_FFFFusize || data.len() > usize::MAX - 512 {
        return None;
    }
    let ghost d = device.blocks();
    let ghost sb = fs.sb();
    proof {
        if fs_sound(sb, d) {
            law_wf_operable(sb, d, name.spec_bytes());
        }
    }
    if data.len() > 0 {
        let table = match fs.load_table(device) {
            Ok(t) => t,
            Err(e) => return Some(Err(e)),
        };
        if !extents_fit(&table) {
            return None;
        }
        proof {
            crate::model::lemma_cleared_in_range(table_view(table), name.spec_bytes());
        }
    }
    let r = fs.write_file(device, name, data);
    proof {
        if r is Ok && fs_wf(sb, d) && no_zero_byte(name.spec_bytes()) {
            law_remount(fs.sb(), device.blocks());
        }
    }
    Some(r)
}

} // verus!
