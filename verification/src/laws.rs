//! Properties of the filesystem that span its operations.
use crate::layout::{
    decode_superblock, empty_entry, lemma_superblock_roundtrip, superblock_valid, EntryView,
    FmsSuperblock, FMS_FILE_TABLE_BLOCKS,
};
use crate::model::{
    block_numbers_fit, cleared, disk_table, extent_in_data, file_written, first_fit, fs_files,
    fs_sound, fs_wf, lemma_files_named, lemma_names_upto, lemma_write_read_back, new_entry,
    no_zero_byte, read_fits,
    sb_with_count, superblock_stored, write_slot, Disk,
};
use crate::table::{
    blocks_for, extents_in_range, first_free, first_named, fit_exists, is_first_fit,
    lemma_first_free, lemma_first_named, name_valid, overlaps, run_free,
};
use vstd::prelude::*;

verus! {

/// A sound filesystem meets what every operation asks of the disk: its block numbers
/// fit, every file's blocks are addressable, and the data area is ordered.
pub proof fn law_wf_operable(sb: FmsSuperblock, d: Disk, name: Seq<u8>)
    requires
        fs_sound(sb, d),
    ensures
        block_numbers_fit(sb, d),
        read_fits(sb, d, name),
        sb.data_start <= sb.total_blocks,
        extents_in_range(disk_table(sb, d)),
        extents_in_range(cleared(disk_table(sb, d), name)),
{
    let t = disk_table(sb, d);
    crate::model::lemma_disk_table_sized(sb, d);
    lemma_first_named(t, name, 0);
    let i = first_named(t, name);
    if i < t.len() {
        assert(extent_in_data(t[i], sb));
    }
    assert forall|j: int|
        0 <= j < t.len() && (#[trigger] t[j]).used && t[j].block_count != 0 implies t[j].start_block
        + t[j].block_count <= u32::MAX by {
        assert(extent_in_data(t[j], sb));
    }
    crate::model::lemma_cleared_in_range(t, name);
}

/// Mounting a sound disk gives back the superblock it was written with.
pub proof fn law_remount(sb: FmsSuperblock, d: Disk)
    requires
        fs_sound(sb, d),
    ensures
        superblock_valid(decode_superblock(d[0]@)),
        decode_superblock(d[0]@) == sb,
{
    lemma_superblock_roundtrip(sb);
}

/// One successful filesystem operation as the disk and the in-memory superblock see it: a
/// read (`list`, `stat`, `read_file`) changes neither, and a write or a delete leaves a
/// superblock that differs only in its file count, stored in block 0.
pub open spec fn superblock_step(sb: FmsSuperblock, d: Disk, sb2: FmsSuperblock, d2: Disk) -> bool {
    ||| sb2 == sb && d2 == d
    ||| superblock_stored(sb2, d2) && sb2 == sb_with_count(sb, sb2.file_count)
}

/// Remount after any sequence of operations: starting from a disk whose block 0 holds the valid
/// superblock in memory (as `format` leaves it), after any sequence of successful operations,
/// mounting the disk succeeds and gives back the superblock held in memory.
pub proof fn law_remount_after_operations(sbs: Seq<FmsSuperblock>, ds: Seq<Disk>)
    requires
        sbs.len() == ds.len(),
        sbs.len() > 0,
        superblock_stored(sbs[0], ds[0]),
        superblock_valid(sbs[0]),
        forall|i: int|
            0 <= i < sbs.len() - 1 ==> #[trigger] superblock_step(sbs[i], ds[i], sbs[i + 1], ds[i + 1]),
    ensures
        ds.last().len() > 0,
        superblock_valid(decode_superblock(ds.last()[0]@)),
        decode_superblock(ds.last()[0]@) == sbs.last(),
    decreases sbs.len(),
{
    if sbs.len() == 1 {
        lemma_superblock_roundtrip(sbs[0]);
    } else {
        let k = sbs.len() - 1;
        let sbs0 = sbs.drop_last();
        let ds0 = ds.drop_last();
        assert forall|i: int| 0 <= i < sbs0.len() - 1 implies #[trigger] superblock_step(
            sbs0[i],
            ds0[i],
            sbs0[i + 1],
            ds0[i + 1],
        ) by {
            assert(superblock_step(sbs[i], ds[i], sbs[i + 1], ds[i + 1]));
        }
        law_remount_after_operations(sbs0, ds0);
        let j = k - 1;
        assert(superblock_step(sbs[j], ds[j], sbs[j + 1], ds[j + 1]));
        assert(j + 1 == k);
        assert(sbs0.last() == sbs[j] && ds0.last() == ds[j]);
        lemma_superblock_roundtrip(sbs[k - 1]);
        lemma_superblock_roundtrip(sbs[k]);
    }
}

/// On a well-formed disk the file count in the superblock is the number of files: the names
/// the table carries, each once.
pub proof fn law_file_count(sb: FmsSuperblock, d: Disk)
    requires
        fs_wf(sb, d),
    ensures
        fs_files(sb, d).dom().finite(),
        fs_files(sb, d).dom().len() == sb.file_count,
{
    let t = disk_table(sb, d);
    lemma_files_named(sb, d);
    lemma_names_upto(t, t.len() as int);
}

/// A file reads back as it was written, and every other file is kept.
pub proof fn law_read_after_write(
    sb: FmsSuperblock,
    d: Disk,
    sb2: FmsSuperblock,
    d2: Disk,
    name: Seq<u8>,
    data: Seq<u8>,
)
    requires
        fs_files(sb2, d2) == fs_files(sb, d).insert(name, data),
    ensures
        fs_files(sb2, d2).dom().contains(name),
        fs_files(sb2, d2)[name] == data,
        forall|other: Seq<u8>|
            other != name ==> (fs_files(sb2, d2).dom().contains(other) == fs_files(
                sb,
                d,
            ).dom().contains(other)),
        forall|other: Seq<u8>|
            other != name && #[trigger] fs_files(sb, d).dom().contains(other) ==> fs_files(sb2, d2)[other]
                == fs_files(sb, d)[other],
{
}

/// On any disk whose file table lies between block 0 and the data area, a file that a write
/// stored reads back: after a successful `write_file` of `data` under `name` (a valid name with
/// no zero byte), the disk holds a file of that name whose contents are `data`, whose slot
/// records its size, and whose blocks lie on the disk, so `read_file` into a buffer of at
/// least that size succeeds and returns `data`. No other condition on the table is needed.
pub proof fn law_read_after_write_any(
    sb: FmsSuperblock,
    d: Disk,
    sb2: FmsSuperblock,
    d2: Disk,
    name: Seq<u8>,
    data: Seq<u8>,
)
    requires
        1 <= sb.file_table_start,
        sb.file_table_start + FMS_FILE_TABLE_BLOCKS <= sb.data_start,
        sb.file_table_start + FMS_FILE_TABLE_BLOCKS <= d.len(),
        name_valid(name),
        no_zero_byte(name),
        data.len() <= u32::MAX,
        ({
            let t = disk_table(sb, d);
            let n = blocks_for(data.len() as int);
            let start = if n == 0 {
                sb.data_start as int
            } else {
                first_fit(cleared(t, name), sb.data_start as int, sb.total_blocks as int, n)
            };
            &&& write_slot(t, name) < t.len()
            &&& n > 0 ==> start + n <= d.len()
            &&& n > 0 ==> is_first_fit(
                cleared(t, name),
                sb.data_start as int,
                sb.total_blocks as int,
                n,
                start,
            )
            &&& sb2 == sb_with_count(sb, sb2.file_count)
            &&& file_written(
                d,
                d2,
                sb2,
                cleared(t, name).update(
                    write_slot(t, name),
                    new_entry(name, start, n, data.len() as int),
                ),
                start,
                n as nat,
                data,
            )
        }),
    ensures
        fs_files(sb2, d2).dom().contains(name),
        fs_files(sb2, d2)[name] == data,
        ({
            let t2 = disk_table(sb2, d2);
            let e = t2[first_named(t2, name)];
            &&& first_named(t2, name) < t2.len()
            &&& sb2.file_table_start + FMS_FILE_TABLE_BLOCKS <= d2.len()
            &&& e.size == data.len()
            &&& e.block_count == 0 || e.start_block + e.block_count <= d2.len()
        }),
{
    let t = disk_table(sb, d);
    let n = blocks_for(data.len() as int);
    lemma_write_read_back(sb, d, sb2, d2, name, data);
    let t2 = disk_table(sb2, d2);
    lemma_first_named(t2, name, 0);
    assert(512 * n >= data.len()) by (nonlinear_arith)
        requires
            n == (data.len() + 511) / 512,
    ;
    assert(n <= u32::MAX) by (nonlinear_arith)
        requires
            n == (data.len() + 511) / 512,
            data.len() <= u32::MAX,
    ;
}

/// On a table with no used slot, a file of `n` blocks that fits goes at the start of the data
/// area, whatever slot its name would clear.
pub proof fn law_first_file_placement(t: Seq<EntryView>, name: Seq<u8>, lo: int, hi: int, n: int)
    requires
        forall|i: int| 0 <= i < t.len() ==> !(#[trigger] t[i]).used,
        0 < n,
        lo + n <= hi,
    ensures
        first_fit(cleared(t, name), lo, hi, n) == lo,
{
    let c = cleared(t, name);
    lemma_first_named(t, name, 0);
    let k = first_named(t, name);
    if k < t.len() {
        assert(c == t.update(k, empty_entry()));
    } else {
        assert(c == t);
    }
    assert forall|i: int| 0 <= i < c.len() implies !overlaps(#[trigger] c[i], lo, n) by {
        if !(k < t.len() && i == k) {
            assert(c[i] == t[i]);
        }
    }
    assert(is_first_fit(c, lo, hi, n, lo));
    crate::model::lemma_first_fit_unique(c, lo, hi, n, lo);
}

/// On a sound filesystem with no file yet, every name of 1 to 31 bytes with no `/` byte is
/// accepted, a slot is found for it, and data whose blocks fit in the data area goes at its
/// start: each part of what a write needs to succeed holds.
pub proof fn law_any_name_stored_on_empty(sb: FmsSuperblock, d: Disk, name: Seq<u8>, size: nat)
    requires
        fs_sound(sb, d),
        forall|i: int| 0 <= i < disk_table(sb, d).len() ==> !(#[trigger] disk_table(sb, d)[i]).used,
        1 <= name.len() <= 31,
        forall|j: int| 0 <= j < name.len() ==> name[j] != 47u8,
        sb.data_start + blocks_for(size as int) <= sb.total_blocks,
    ensures
        name_valid(name),
        sb.file_table_start + FMS_FILE_TABLE_BLOCKS <= d.len(),
        write_slot(disk_table(sb, d), name) < disk_table(sb, d).len(),
        blocks_for(size as int) > 0 ==> fit_exists(
            cleared(disk_table(sb, d), name),
            sb.data_start as int,
            sb.total_blocks as int,
            blocks_for(size as int),
        ),
        blocks_for(size as int) > 0 ==> first_fit(
            cleared(disk_table(sb, d), name),
            sb.data_start as int,
            sb.total_blocks as int,
            blocks_for(size as int),
        ) == sb.data_start,
        sb.data_start + blocks_for(size as int) <= d.len(),
{
    crate::table::law_name_rule(name);
    let t = disk_table(sb, d);
    crate::model::lemma_disk_table_sized(sb, d);
    lemma_first_named(t, name, 0);
    lemma_first_free(t, 0);
    assert(first_named(t, name) == t.len()) by {
        if first_named(t, name) < t.len() {
            assert(t[first_named(t, name)].used);
        }
    }
    assert(first_free(t) == 0) by {
        if first_free(t) > 0 {
            assert(t[0].used);
        }
    }
    let n = blocks_for(size as int);
    if n > 0 {
        law_first_file_placement(t, name, sb.data_start as int, sb.total_blocks as int, n);
        let c = cleared(t, name);
        assert(c == t);
        assert(run_free(c, sb.data_start as int, n));
    }
}

/// A deleted file is gone, and every other file is kept.
pub proof fn law_delete_removes(
    sb: FmsSuperblock,
    d: Disk,
    sb2: FmsSuperblock,
    d2: Disk,
    name: Seq<u8>,
)
    requires
        fs_files(sb2, d2) == fs_files(sb, d).remove(name),
    ensures
        !fs_files(sb2, d2).dom().contains(name),
        forall|other: Seq<u8>|
            other != name ==> (fs_files(sb2, d2).dom().contains(other) == fs_files(
                sb,
                d,
            ).dom().contains(other)),
        forall|other: Seq<u8>|
            other != name && #[trigger] fs_files(sb, d).dom().contains(other) ==> fs_files(sb2, d2)[other]
                == fs_files(sb, d)[other],
{
}

/// Writing a new file and then deleting it leaves the files as they were.
pub proof fn law_write_then_delete(
    sb0: FmsSuperblock,
    d0: Disk,
    sb1: FmsSuperblock,
    d1: Disk,
    sb2: FmsSuperblock,
    d2: Disk,
    name: Seq<u8>,
    data: Seq<u8>,
)
    requires
        !fs_files(sb0, d0).dom().contains(name),
        fs_files(sb1, d1) == fs_files(sb0, d0).insert(name, data),
        fs_files(sb2, d2) == fs_files(sb1, d1).remove(name),
    ensures
        fs_files(sb2, d2) == fs_files(sb0, d0),
{
    assert(fs_files(sb2, d2) =~= fs_files(sb0, d0));
}

/// Writing a file twice keeps only the second contents.
pub proof fn law_overwrite(
    sb0: FmsSuperblock,
    d0: Disk,
    sb1: FmsSuperblock,
    d1: Disk,
    sb2: FmsSuperblock,
    d2: Disk,
    name: Seq<u8>,
    first: Seq<u8>,
    second: Seq<u8>,
)
    requires
        fs_files(sb1, d1) == fs_files(sb0, d0).insert(name, first),
        fs_files(sb2, d2) == fs_files(sb1, d1).insert(name, second),
    ensures
        fs_files(sb2, d2) == fs_files(sb0, d0).insert(name, second),
{
    assert(fs_files(sb2, d2) =~= fs_files(sb0, d0).insert(name, second));
}

/// On a sound disk a file's contents are exactly as long as the size its slot records.
pub proof fn law_file_size(sb: FmsSuperblock, d: Disk, name: Seq<u8>)
    requires
        fs_sound(sb, d),
        fs_files(sb, d).dom().contains(name),
    ensures
        fs_files(sb, d)[name].len() == disk_table(sb, d)[first_named(disk_table(sb, d), name)].size,
{
    let t = disk_table(sb, d);
    crate::model::lemma_disk_table_sized(sb, d);
    lemma_first_named(t, name, 0);
    let e = t[first_named(t, name)];
    assert(crate::model::entry_sized(e));
    crate::model::lemma_blocks_concat_len(d, e.start_block as int, e.block_count as nat);
    assert(512 * e.block_count >= e.size) by (nonlinear_arith)
        requires
            e.block_count == (e.size + 511) / 512,
    ;
}

} // verus!
