//! The mathematical model of a disk holding a filesystem: where the table and the
//! files are, what makes a disk well formed, and which files it holds.
use crate::layout::{
    decode_table, empty_entry, encode_superblock, encode_table, entry_name, lemma_stored_name_reads_back,
    lemma_table_roundtrip, names_sized, stored_name, zeros, fresh_superblock, superblock_valid, EntryView, FmsSuperblock, FMS_BLOCK_SIZE,
    FMS_FILE_TABLE_BLOCKS, FMS_MAX_FILES,
};
use crate::table::{
    blocks_for, first_free, first_named, first_named_from, holds_name, is_first_fit, lemma_first_free,
    extents_in_range, lemma_first_named, lemma_first_named_at, name_valid, overlaps, run_free,
};
use vstd::prelude::*;

verus! {

/// The blocks of a device.
pub type Disk = Seq<[u8; FMS_BLOCK_SIZE]>;

/// The bytes of the `n` blocks from `start` on, one after the other.
pub open spec fn blocks_concat(d: Disk, start: int, n: nat) -> Seq<u8>
    decreases n,
{
    if n == 0 {
        Seq::empty()
    } else {
        blocks_concat(d, start, (n - 1) as nat) + d[start + n - 1]@
    }
}

/// Whether `d2` is `d` but for the blocks in `[lo, hi)`.
pub open spec fn same_outside(d: Disk, d2: Disk, lo: int, hi: int) -> bool {
    &&& d2.len() == d.len()
    &&& forall|b: int| 0 <= b < d.len() && !(lo <= b < hi) ==> d2[b] == d[b]
}

/// The file table a disk holds where `sb` says it is.
pub open spec fn disk_table(sb: FmsSuperblock, d: Disk) -> Seq<EntryView> {
    decode_table(blocks_concat(d, sb.file_table_start as int, FMS_FILE_TABLE_BLOCKS as nat))
}

/// Whether block numbers computed from `sb` and the table fit in `u32` wherever a device
/// could hold the blocks they name.
pub open spec fn block_numbers_fit(sb: FmsSuperblock, d: Disk) -> bool {
    d.len() <= u32::MAX || sb.file_table_start + FMS_FILE_TABLE_BLOCKS <= u32::MAX
}

/// The byte length of `n` concatenated blocks.
pub proof fn lemma_blocks_concat_len(d: Disk, start: int, n: nat)
    ensures
        blocks_concat(d, start, n).len() == 512 * n,
    decreases n,
{
    if n > 0 {
        lemma_blocks_concat_len(d, start, (n - 1) as nat);
        assert(d[start + n - 1]@.len() == 512);
    }
}

/// Concatenated blocks only depend on those blocks.
pub proof fn lemma_blocks_concat_agree(d: Disk, d2: Disk, start: int, n: nat)
    requires
        forall|b: int| start <= b < start + n ==> d2[b] == d[b],
    ensures
        blocks_concat(d2, start, n) == blocks_concat(d, start, n),
    decreases n,
{
    if n > 0 {
        lemma_blocks_concat_agree(d, d2, start, (n - 1) as nat);
        assert(d2[start + n - 1] == d[start + n - 1]);
    }
}


/// Whether the block numbers of the file called `name` fit in `u32` wherever a device could
/// hold those blocks.
pub open spec fn read_fits(sb: FmsSuperblock, d: Disk, name: Seq<u8>) -> bool {
    let t = disk_table(sb, d);
    let i = first_named(t, name);
    i < t.len() ==> t[i].start_block + t[i].block_count <= u32::MAX + 1 || d.len() <= u32::MAX
}

/// The used slots among the first `n` of `t`, in order.
pub open spec fn used_upto(t: Seq<EntryView>, n: int) -> Seq<EntryView>
    decreases n,
{
    if n <= 0 {
        Seq::empty()
    } else if t[n - 1].used {
        used_upto(t, n - 1).push(t[n - 1])
    } else {
        used_upto(t, n - 1)
    }
}

/// The used slots of `t`, in order.
pub open spec fn used_entries(t: Seq<EntryView>) -> Seq<EntryView> {
    used_upto(t, t.len() as int)
}

/// How many slots of `t` are used.
pub open spec fn count_used(t: Seq<EntryView>) -> int {
    used_entries(t).len() as int
}

/// Whether a used, non-empty slot's blocks lie in the data area.
pub open spec fn extent_in_data(e: EntryView, sb: FmsSuperblock) -> bool {
    e.used && e.block_count != 0 ==> sb.data_start <= e.start_block && e.start_block
        + e.block_count <= sb.total_blocks
}

/// Whether two slots share no block.
pub open spec fn extents_apart(a: EntryView, b: EntryView) -> bool {
    ||| !(a.used && a.block_count != 0)
    ||| !(b.used && b.block_count != 0)
    ||| a.start_block + a.block_count <= b.start_block
    ||| b.start_block + b.block_count <= a.start_block
}

/// Whether two used slots carry different names.
pub open spec fn names_apart(a: EntryView, b: EntryView) -> bool {
    a.used && b.used ==> entry_name_of(a) != entry_name_of(b)
}

/// The name a slot carries.
pub open spec fn entry_name_of(e: EntryView) -> Seq<u8> {
    crate::layout::entry_name(e)
}

/// What every operation keeps true of a filesystem's disk: a valid superblock that block 0
/// holds, the table between block 0 and the data area, the data area on the disk, every file
/// inside it, no block shared by two files, each file with just the blocks its size needs,
/// and a file count that counts the files.
pub open spec fn fs_sound(sb: FmsSuperblock, d: Disk) -> bool {
    let t = disk_table(sb, d);
    &&& superblock_valid(sb)
    &&& d.len() > 0
    &&& d[0]@ == encode_superblock(sb)
    &&& 1 <= sb.file_table_start
    &&& sb.file_table_start + FMS_FILE_TABLE_BLOCKS <= sb.data_start
    &&& sb.total_blocks <= d.len()
    &&& forall|i: int| 0 <= i < t.len() ==> extent_in_data(#[trigger] t[i], sb)
    &&& forall|i: int, j: int|
        0 <= i < t.len() && 0 <= j < t.len() && i != j ==> extents_apart(
            #[trigger] t[i],
            #[trigger] t[j],
        )
    &&& forall|i: int| 0 <= i < t.len() ==> entry_sized(#[trigger] t[i])
    &&& sb.file_count == count_used(t)
}

/// Whether a used slot has just the blocks its size needs.
pub open spec fn entry_sized(e: EntryView) -> bool {
    e.used ==> e.block_count == blocks_for(e.size as int)
}

/// Whether no name is carried by two used slots.
pub open spec fn names_distinct(t: Seq<EntryView>) -> bool {
    forall|i: int, j: int|
        0 <= i < t.len() && 0 <= j < t.len() && i != j ==> names_apart(
            #[trigger] t[i],
            #[trigger] t[j],
        )
}

/// A sound disk on which no name is carried twice: what writing names without zero bytes
/// keeps true.
pub open spec fn fs_wf(sb: FmsSuperblock, d: Disk) -> bool {
    fs_sound(sb, d) && names_distinct(disk_table(sb, d))
}

/// The bytes of the file that slot `e` describes: its blocks, cut to its size.
pub open spec fn file_contents(d: Disk, e: EntryView) -> Seq<u8> {
    let all = blocks_concat(d, e.start_block as int, e.block_count as nat);
    let n = if e.size < 512 * e.block_count {
        e.size as int
    } else {
        512 * e.block_count
    };
    all.take(n)
}

/// The files on the disk: each name any slot holds, with the contents of the first slot
/// holding it.
pub open spec fn fs_files(sb: FmsSuperblock, d: Disk) -> Map<Seq<u8>, Seq<u8>> {
    let t = disk_table(sb, d);
    Map::new(
        |k: Seq<u8>| first_named(t, k) < t.len(),
        |k: Seq<u8>| file_contents(d, t[first_named(t, k)]),
    )
}

/// The number of used slots among the first `n` is at most `n`.
pub proof fn lemma_used_upto_len(t: Seq<EntryView>, n: int)
    requires
        0 <= n <= t.len(),
    ensures
        used_upto(t, n).len() <= n,
        forall|k: int| 0 <= k < used_upto(t, n).len() ==> (#[trigger] used_upto(t, n)[k]).used,
    decreases n,
{
    if n > 0 {
        lemma_used_upto_len(t, n - 1);
    }
}

/// Replacing slot `i` changes the count by what the slot held and what replaces it.
pub proof fn lemma_count_update(t: Seq<EntryView>, i: int, e: EntryView, n: int)
    requires
        0 <= i < t.len(),
        0 <= n <= t.len(),
    ensures
        used_upto(t.update(i, e), n).len() == used_upto(t, n).len() + (if n > i {
            (if e.used { 1int } else { 0int }) - (if t[i].used { 1int } else { 0int })
        } else {
            0int
        }),
    decreases n,
{
    if n > 0 {
        lemma_count_update(t, i, e, n - 1);
    }
}

/// `sb` with its file count set to `n`.
pub open spec fn sb_with_count(sb: FmsSuperblock, n: u32) -> FmsSuperblock {
    FmsSuperblock { file_count: n, ..sb }
}

/// `n - 1`, but zero stays zero.
pub open spec fn sat_dec(n: u32) -> u32 {
    if n == 0 {
        0
    } else {
        (n - 1) as u32
    }
}

/// `n + 1`, but the largest value stays.
pub open spec fn sat_inc(n: u32) -> u32 {
    if n == u32::MAX {
        n
    } else {
        (n + 1) as u32
    }
}

/// What writing the table `t` and then the superblock `sb` does to a disk: only the table
/// blocks and block 0 change, block 0 holds `sb`, and the table blocks hold `t` unless
/// the table starts at block 0.
pub open spec fn meta_written(d: Disk, d2: Disk, sb: FmsSuperblock, t: Seq<EntryView>) -> bool {
    let lo = sb.file_table_start as int;
    &&& d2.len() == d.len()
    &&& forall|b: int|
        0 <= b < d.len() && b != 0 && !(lo <= b < lo + FMS_FILE_TABLE_BLOCKS) ==> #[trigger] d2[b]
            == d[b]
    &&& d2[0]@ == encode_superblock(sb)
    &&& lo >= 1 ==> blocks_concat(d2, lo, FMS_FILE_TABLE_BLOCKS as nat) == encode_table(t)
}

/// The table write followed by the superblock write is a metadata write.
pub proof fn lemma_meta_written(d: Disk, d1: Disk, d2: Disk, sb: FmsSuperblock, t: Seq<EntryView>)
    requires
        sb.file_table_start + FMS_FILE_TABLE_BLOCKS <= d.len(),
        same_outside(d, d1, sb.file_table_start as int, sb.file_table_start + FMS_FILE_TABLE_BLOCKS),
        blocks_concat(d1, sb.file_table_start as int, FMS_FILE_TABLE_BLOCKS as nat) == encode_table(
            t,
        ),
        same_outside(d1, d2, 0, 1),
        d2[0]@ == encode_superblock(sb),
    ensures
        meta_written(d, d2, sb, t),
{
    let lo = sb.file_table_start as int;
    assert forall|b: int|
        0 <= b < d.len() && b != 0 && !(lo <= b < lo + FMS_FILE_TABLE_BLOCKS) implies #[trigger] d2[b]
            == d[b] by {
        assert(d2[b] == d1[b]);
    }
    if lo >= 1 {
        assert forall|b: int| lo <= b < lo + 8 implies d2[b] == d1[b] by {}
        lemma_blocks_concat_agree(d1, d2, lo, 8);
    }
}

/// Whether `k` names the same slots in `t1` and `t2` from `i` on gives the same first one.
pub proof fn lemma_first_named_agree(t1: Seq<EntryView>, t2: Seq<EntryView>, k: Seq<u8>, i: int)
    requires
        t1.len() == t2.len(),
        0 <= i <= t1.len(),
        forall|j: int| i <= j < t1.len() ==> holds_name(t1[j], k) == holds_name(t2[j], k),
    ensures
        first_named_from(t1, k, i) == first_named_from(t2, k, i),
    decreases t1.len() - i,
{
    if i < t1.len() {
        lemma_first_named_agree(t1, t2, k, i + 1);
    }
}

/// A file whose blocks are all kept keeps its contents.
pub proof fn lemma_contents_kept(d: Disk, d2: Disk, e: EntryView, sb: FmsSuperblock)
    requires
        extent_in_data(e, sb),
        e.used,
        forall|b: int| sb.data_start <= b < sb.total_blocks ==> d2[b] == d[b],
    ensures
        file_contents(d2, e) == file_contents(d, e),
{
    if e.block_count != 0 {
        lemma_blocks_concat_agree(d, d2, e.start_block as int, e.block_count as nat);
    }
}

/// The slots of a table read from a disk have 32-byte names.
pub proof fn lemma_disk_table_sized(sb: FmsSuperblock, d: Disk)
    ensures
        disk_table(sb, d).len() == FMS_MAX_FILES,
        names_sized(disk_table(sb, d)),
{
    lemma_blocks_concat_len(d, sb.file_table_start as int, 8);
}

/// After a metadata write, the table read back is the one written, and every block from the
/// data area on is kept, when the table lies between block 0 and the data area.
pub proof fn lemma_meta_readback(sb: FmsSuperblock, d: Disk, d2: Disk, sb2: FmsSuperblock, t2: Seq<EntryView>)
    requires
        1 <= sb.file_table_start,
        sb.file_table_start + FMS_FILE_TABLE_BLOCKS <= sb.data_start,
        sb2 == sb_with_count(sb, sb2.file_count),
        meta_written(d, d2, sb2, t2),
        t2.len() == FMS_MAX_FILES,
        names_sized(t2),
    ensures
        disk_table(sb2, d2) == t2,
        forall|b: int| sb.data_start <= b < d.len() ==> d2[b] == d[b],
{
    lemma_table_roundtrip(t2);
}

/// Deleting the file called `k` from a sound disk keeps it sound; from a well-formed one it
/// keeps it well formed and removes exactly that file.
pub proof fn lemma_delete_keeps_wf(sb: FmsSuperblock, d: Disk, d2: Disk, sb2: FmsSuperblock, k: Seq<u8>)
    requires
        fs_sound(sb, d),
        first_named(disk_table(sb, d), k) < FMS_MAX_FILES,
        sb2 == sb_with_count(sb, sat_dec(sb.file_count)),
        meta_written(
            d,
            d2,
            sb2,
            disk_table(sb, d).update(first_named(disk_table(sb, d), k), empty_entry()),
        ),
    ensures
        fs_sound(sb2, d2),
        fs_wf(sb, d) ==> fs_wf(sb2, d2) && fs_files(sb2, d2) == fs_files(sb, d).remove(k),
{
    let t = disk_table(sb, d);
    let i = first_named(t, k);
    let t2 = t.update(i, empty_entry());
    lemma_disk_table_sized(sb, d);
    lemma_first_named(t, k, 0);
    assert(names_sized(t2));
    lemma_meta_readback(sb, d, d2, sb2, t2);
    lemma_count_update(t, i, empty_entry(), 64);
    assert(disk_table(sb2, d2) == t2);
    assert forall|a: int, b: int| 0 <= a < 64 && 0 <= b < 64 && a != b implies extents_apart(
        #[trigger] t2[a],
        #[trigger] t2[b],
    ) by {
        assert(extents_apart(t[a], t[b]));
    }
    assert forall|a: int| 0 <= a < 64 implies extent_in_data(#[trigger] t2[a], sb2) by {
        assert(extent_in_data(t[a], sb));
    }
    assert forall|a: int| 0 <= a < 64 implies entry_sized(#[trigger] t2[a]) by {
        assert(entry_sized(t[a]));
    }
    if fs_wf(sb, d) {
        assert forall|a: int, b: int| 0 <= a < 64 && 0 <= b < 64 && a != b implies names_apart(
            #[trigger] t2[a],
            #[trigger] t2[b],
        ) by {
            assert(names_apart(t[a], t[b]));
        }
        // the deleted name is held nowhere any more
        assert forall|j: int| 0 <= j < 64 implies !holds_name(#[trigger] t2[j], k) by {
            if j != i && holds_name(t2[j], k) {
                assert(names_apart(t[i], t[j]));
            }
        }
        lemma_first_named_at(t2, k, 0, 64);
        assert forall|key: Seq<u8>| key != k implies first_named(t2, key) == first_named(t, key) by {
            assert forall|j: int| 0 <= j < 64 implies holds_name(t[j], key) == holds_name(t2[j], key) by {}
            lemma_first_named_agree(t, t2, key, 0);
        }
        let m2 = fs_files(sb2, d2);
        let m = fs_files(sb, d).remove(k);
        assert forall|key: Seq<u8>| m.dom().contains(key) implies m2[key] == m[key] by {
            let j = first_named(t, key);
            lemma_first_named(t, key, 0);
            assert(extent_in_data(t[j], sb));
            lemma_contents_kept(d, d2, t[j], sb);
        }
        assert(m2 =~= m);
    }
}

/// The slot a write of `name` goes to: the slot holding the name, or else the first free one.
pub open spec fn write_slot(t: Seq<EntryView>, name: Seq<u8>) -> int {
    if first_named(t, name) < t.len() {
        first_named(t, name)
    } else {
        first_free(t)
    }
}

/// The table a write of `name` allocates space in: the slot holding the name is emptied.
pub open spec fn cleared(t: Seq<EntryView>, name: Seq<u8>) -> Seq<EntryView> {
    if first_named(t, name) < t.len() {
        t.update(first_named(t, name), empty_entry())
    } else {
        t
    }
}

/// Whether a write of `size` bytes under `name` gets as far as searching for free blocks: the
/// name is valid, the table lies on the disk, a slot is found, and there is data to place.
pub open spec fn space_searched(sb: FmsSuperblock, d: Disk, name: Seq<u8>, size: nat) -> bool {
    let t = disk_table(sb, d);
    &&& size > 0
    &&& name_valid(name)
    &&& sb.file_table_start + FMS_FILE_TABLE_BLOCKS <= d.len()
    &&& write_slot(t, name) < t.len()
}

/// Emptying the slot that holds a name keeps every extent in range.
pub proof fn lemma_cleared_in_range(t: Seq<EntryView>, name: Seq<u8>)
    requires
        extents_in_range(t),
    ensures
        extents_in_range(cleared(t, name)),
{
    let k = first_named(t, name);
    lemma_first_named(t, name, 0);
    if k < t.len() {
        let c = t.update(k, empty_entry());
        assert(cleared(t, name) == c);
        assert forall|i: int|
            0 <= i < c.len() && (#[trigger] c[i]).used && c[i].block_count != 0 implies c[i].start_block
            + c[i].block_count <= u32::MAX by {
            if i != k {
                assert(c[i] == t[i]);
            }
        }
    }
}

/// The lowest start of a free run of `n` blocks in `[lo, hi)`.
pub open spec fn first_fit(t: Seq<EntryView>, lo: int, hi: int, n: int) -> int {
    choose|c: int| is_first_fit(t, lo, hi, n, c)
}

/// The slot written for a file called `name` of `size` bytes in `count` blocks from `start`.
pub open spec fn new_entry(name: Seq<u8>, start: int, count: int, size: int) -> EntryView {
    EntryView {
        used: true,
        name: stored_name(name),
        start_block: start as u32,
        block_count: count as u32,
        size: size as u32,
    }
}

/// `data` padded with zeros to `n` whole blocks.
pub open spec fn padded(data: Seq<u8>, n: nat) -> Seq<u8> {
    Seq::new(512 * n, |k: int| if k < data.len() { data[k] } else { 0u8 })
}

/// Whether `d2` is `d` with `data`, zero-padded, written over the `n` blocks from `start`.
pub open spec fn data_written(d: Disk, d2: Disk, start: int, n: nat, data: Seq<u8>) -> bool {
    &&& same_outside(d, d2, start, start + n)
    &&& blocks_concat(d2, start, n) == padded(data, n)
}

/// What writing a file does to a disk: its data over the `n` blocks from `start`, then the
/// table `t` and the superblock `sb` over the metadata blocks.
pub open spec fn file_written(
    d: Disk,
    d2: Disk,
    sb: FmsSuperblock,
    t: Seq<EntryView>,
    start: int,
    n: nat,
    data: Seq<u8>,
) -> bool {
    exists|d1: Disk| data_written(d, d1, start, n, data) && #[trigger] meta_written(d1, d2, sb, t)
}

/// After a file write on a disk whose table lies before the data area, the table read back
/// is the one written, and the file's blocks hold its data padded with zeros.
pub proof fn lemma_write_placement(
    sb: FmsSuperblock,
    d: Disk,
    d2: Disk,
    sb2: FmsSuperblock,
    t2: Seq<EntryView>,
    start: int,
    n: nat,
    data: Seq<u8>,
)
    requires
        1 <= sb.file_table_start,
        sb.file_table_start + FMS_FILE_TABLE_BLOCKS <= sb.data_start,
        sb2 == sb_with_count(sb, sb2.file_count),
        n > 0 ==> sb.data_start <= start,
        n > 0 ==> start + n <= d.len(),
        t2.len() == FMS_MAX_FILES,
        names_sized(t2),
        file_written(d, d2, sb2, t2, start, n, data),
    ensures
        disk_table(sb2, d2) == t2,
        blocks_concat(d2, start, n) == padded(data, n),
{
    let d1 = choose|d1: Disk| data_written(d, d1, start, n, data) && #[trigger] meta_written(
        d1,
        d2,
        sb2,
        t2,
    );
    lemma_meta_readback(sb, d1, d2, sb2, t2);
    if n > 0 {
        lemma_blocks_concat_agree(d1, d2, start, n);
    } else {
        assert(padded(data, 0) =~= Seq::<u8>::empty());
    }
}

/// After a successful write of `data` under `name` to a disk whose table lies between block 0
/// and the data area, the table read back holds the new slot, and the file's blocks hold its
/// data padded with zeros.
pub proof fn lemma_write_read_back(
    sb: FmsSuperblock,
    d: Disk,
    sb2: FmsSuperblock,
    d2: Disk,
    nb: Seq<u8>,
    data: Seq<u8>,
)
    requires
        1 <= sb.file_table_start,
        sb.file_table_start + FMS_FILE_TABLE_BLOCKS <= sb.data_start,
        name_valid(nb),
        ({
            let t = disk_table(sb, d);
            let n = blocks_for(data.len() as int);
            let start = if n == 0 {
                sb.data_start as int
            } else {
                first_fit(cleared(t, nb), sb.data_start as int, sb.total_blocks as int, n)
            };
            &&& write_slot(t, nb) < t.len()
            &&& n > 0 ==> start + n <= d.len()
            &&& n > 0 ==> is_first_fit(
                cleared(t, nb),
                sb.data_start as int,
                sb.total_blocks as int,
                n,
                start,
            )
            &&& sb2 == sb_with_count(sb, sb2.file_count)
            &&& file_written(
                d,
                d2,
                sb2,
                cleared(t, nb).update(write_slot(t, nb), new_entry(nb, start, n, data.len() as int)),
                start,
                n as nat,
                data,
            )
        }),
    ensures
        ({
            let t = disk_table(sb, d);
            let n = blocks_for(data.len() as int);
            let start = if n == 0 {
                sb.data_start as int
            } else {
                first_fit(cleared(t, nb), sb.data_start as int, sb.total_blocks as int, n)
            };
            &&& disk_table(sb2, d2) == cleared(t, nb).update(
                write_slot(t, nb),
                new_entry(nb, start, n, data.len() as int),
            )
            &&& blocks_concat(d2, start, n as nat) == padded(data, n as nat)
            &&& no_zero_byte(nb) && data.len() <= u32::MAX ==> fs_files(sb2, d2).dom().contains(nb)
                && fs_files(sb2, d2)[nb] == data && first_named(disk_table(sb2, d2), nb)
                == write_slot(t, nb) && 0 <= start <= u32::MAX && 0 <= n <= u32::MAX
        }),
{
    let t = disk_table(sb, d);
    let n = blocks_for(data.len() as int);
    lemma_disk_table_sized(sb, d);
    lemma_first_named(t, nb, 0);
    lemma_first_free(t, 0);
    let k = first_named(t, nb);
    let c = cleared(t, nb);
    if k < t.len() {
        assert(c == t.update(k, empty_entry()));
    } else {
        assert(c == t);
    }
    assert(c.len() == t.len());
    let start = if n == 0 {
        sb.data_start as int
    } else {
        first_fit(c, sb.data_start as int, sb.total_blocks as int, n)
    };
    let t2 = c.update(write_slot(t, nb), new_entry(nb, start, n, data.len() as int));
    assert(names_sized(t2)) by {
        assert forall|i: int| 0 <= i < t2.len() implies (#[trigger] t2[i]).name.len() == 32 by {
            if i != write_slot(t, nb) {
                assert(t2[i] == c[i]);
                if !(k < t.len() && i == k) {
                    assert(c[i] == t[i]);
                }
            }
        }
    }
    lemma_write_placement(sb, d, d2, sb2, t2, start, n as nat, data);
    if no_zero_byte(nb) && data.len() <= u32::MAX {
        let slot = write_slot(t, nb);
        let e = new_entry(nb, start, n, data.len() as int);
        lemma_stored_name_reads_back(nb);
        assert(holds_name(t2[slot], nb));
        assert forall|j: int| 0 <= j < slot implies !holds_name(#[trigger] t2[j], nb) by {
            assert(t2[j] == c[j]);
            if !(k < t.len() && j == k) {
                assert(c[j] == t[j]);
            }
        }
        lemma_first_named_at(t2, nb, 0, slot);
        assert(first_named(t2, nb) == slot);
        assert(0 <= start <= u32::MAX);
        assert(512 * n >= data.len()) by (nonlinear_arith)
            requires
                n == (data.len() + 511) / 512,
        ;
        assert(n <= u32::MAX) by (nonlinear_arith)
            requires
                n == (data.len() + 511) / 512,
                data.len() <= u32::MAX,
        ;
        assert(file_contents(d2, e) =~= data);
    }
}

/// Whether block 0 of `d` holds the encoding of `sb`.
pub open spec fn superblock_stored(sb: FmsSuperblock, d: Disk) -> bool {
    d.len() > 0 && d[0]@ == encode_superblock(sb)
}

/// The names carried by the used slots among the first `n` of `t`.
pub open spec fn names_upto(t: Seq<EntryView>, n: int) -> Set<Seq<u8>>
    decreases n,
{
    if n <= 0 {
        Set::empty()
    } else if t[n - 1].used {
        names_upto(t, n - 1).insert(entry_name_of(t[n - 1]))
    } else {
        names_upto(t, n - 1)
    }
}

/// The names of the used slots among the first `n` are those some such slot carries; when no
/// name is carried twice there are as many as there are used slots.
pub proof fn lemma_names_upto(t: Seq<EntryView>, n: int)
    requires
        0 <= n <= t.len(),
    ensures
        names_upto(t, n).finite(),
        forall|k: Seq<u8>|
            #[trigger] names_upto(t, n).contains(k) <==> exists|j: int|
                0 <= j < n && t[j].used && entry_name_of(t[j]) == k,
        names_distinct(t) ==> names_upto(t, n).len() == used_upto(t, n).len(),
    decreases n,
{
    if n > 0 {
        lemma_names_upto(t, n - 1);
        let prev = names_upto(t, n - 1);
        assert forall|k: Seq<u8>|
            #[trigger] names_upto(t, n).contains(k) <==> exists|j: int|
                0 <= j < n && t[j].used && entry_name_of(t[j]) == k by {
            if names_upto(t, n).contains(k) && !prev.contains(k) {
                assert(t[n - 1].used && entry_name_of(t[n - 1]) == k);
            }
            if exists|j: int| 0 <= j < n && t[j].used && entry_name_of(t[j]) == k {
                let j = choose|j: int| 0 <= j < n && t[j].used && entry_name_of(t[j]) == k;
                if j < n - 1 {
                    assert(prev.contains(k));
                }
            }
        }
        if names_distinct(t) && t[n - 1].used {
            if prev.contains(entry_name_of(t[n - 1])) {
                let j = choose|j: int|
                    0 <= j < n - 1 && t[j].used && entry_name_of(t[j]) == entry_name_of(t[n - 1]);
                assert(names_apart(t[j], t[n - 1]));
            }
        }
    }
}

/// The files of a disk are named by the used slots of its table.
pub proof fn lemma_files_named(sb: FmsSuperblock, d: Disk)
    ensures
        fs_files(sb, d).dom() == names_upto(disk_table(sb, d), disk_table(sb, d).len() as int),
{
    let t = disk_table(sb, d);
    lemma_names_upto(t, t.len() as int);
    assert forall|k: Seq<u8>|
        #[trigger] fs_files(sb, d).dom().contains(k) <==> names_upto(t, t.len() as int).contains(k) by {
        lemma_first_named(t, k, 0);
        if names_upto(t, t.len() as int).contains(k) {
            let j = choose|j: int| 0 <= j < t.len() && t[j].used && entry_name_of(t[j]) == k;
            assert(holds_name(t[j], k));
        }
        if first_named(t, k) < t.len() {
            assert(holds_name(t[first_named(t, k)], k));
        }
    }
    assert(fs_files(sb, d).dom() =~= names_upto(t, t.len() as int));
}

/// Whether no byte of `s` is zero.
pub open spec fn no_zero_byte(s: Seq<u8>) -> bool {
    forall|j: int| 0 <= j < s.len() ==> s[j] != 0
}

/// There is one lowest free run.
pub proof fn lemma_first_fit_unique(t: Seq<EntryView>, lo: int, hi: int, n: int, c: int)
    requires
        is_first_fit(t, lo, hi, n, c),
    ensures
        first_fit(t, lo, hi, n) == c,
{
    let c2 = first_fit(t, lo, hi, n);
    assert(is_first_fit(t, lo, hi, n, c2));
    if c2 < c {
        assert(!run_free(t, c2, n));
    }
    if c < c2 {
        assert(!run_free(t, c, n));
    }
}

/// Writing a file called `k` with contents `data` to a well-formed disk keeps it well formed
/// and maps `k` to `data`, leaving every other file alone.
pub proof fn lemma_write_keeps_wf(
    sb: FmsSuperblock,
    d: Disk,
    d1: Disk,
    d2: Disk,
    sb2: FmsSuperblock,
    k: Seq<u8>,
    data: Seq<u8>,
    start: int,
    n: nat,
)
    requires
        fs_sound(sb, d),
        name_valid(k),
        data.len() <= u32::MAX,
        n == blocks_for(data.len() as int),
        write_slot(disk_table(sb, d), k) < FMS_MAX_FILES,
        n == 0 ==> start == sb.data_start,
        n > 0 ==> is_first_fit(
            cleared(disk_table(sb, d), k),
            sb.data_start as int,
            sb.total_blocks as int,
            n as int,
            start,
        ),
        data_written(d, d1, start, n, data),
        sb2 == sb_with_count(
            sb,
            if first_named(disk_table(sb, d), k) < FMS_MAX_FILES {
                sb.file_count
            } else {
                sat_inc(sb.file_count)
            },
        ),
        meta_written(
            d1,
            d2,
            sb2,
            cleared(disk_table(sb, d), k).update(
                write_slot(disk_table(sb, d), k),
                new_entry(k, start, n as int, data.len() as int),
            ),
        ),
    ensures
        fs_sound(sb2, d2),
        fs_wf(sb, d) && no_zero_byte(k) ==> fs_wf(sb2, d2) && fs_files(sb2, d2) == fs_files(
            sb,
            d,
        ).insert(k, data),
{
    let t = disk_table(sb, d);
    let fk = first_named(t, k);
    let replacing = fk < 64;
    let slot = write_slot(t, k);
    let tc = cleared(t, k);
    let ne = new_entry(k, start, n as int, data.len() as int);
    let t2 = tc.update(slot, ne);
    lemma_disk_table_sized(sb, d);
    lemma_first_named(t, k, 0);
    lemma_first_free(t, 0);
    assert(names_sized(t2));
    lemma_meta_readback(sb, d1, d2, sb2, t2);
    assert(disk_table(sb2, d2) == t2);
    // blocks of the data area outside the new run are those of `d`
    assert(forall|b: int|
        sb.data_start <= b < d.len() && !(start <= b < start + n) ==> d2[b] == d[b]);
    // the new run: located in the data area and free
    if n > 0 {
        assert(sb.data_start <= start && start + n <= sb.total_blocks);
    }
    // the slots other than `slot` are those of `t`, or emptied
    assert forall|j: int| 0 <= j < 64 && j != slot implies #[trigger] t2[j] == t[j] || (
    t2[j] == empty_entry() && j == fk) by {}
    // well-formedness: extents inside the data area
    assert forall|a: int| 0 <= a < 64 implies extent_in_data(#[trigger] t2[a], sb2) by {
        if a != slot {
            assert(extent_in_data(t[a], sb));
        }
    }
    assert forall|a: int| 0 <= a < 64 implies entry_sized(#[trigger] t2[a]) by {
        if a != slot {
            assert(entry_sized(t[a]));
        }
    }
    // no block shared
    assert forall|a: int, b: int| 0 <= a < 64 && 0 <= b < 64 && a != b implies extents_apart(
        #[trigger] t2[a],
        #[trigger] t2[b],
    ) by {
        if a == slot {
            if n > 0 {
                assert(!overlaps(tc[b], start, n as int));
            }
        } else if b == slot {
            if n > 0 {
                assert(!overlaps(tc[a], start, n as int));
            }
        } else {
            assert(extents_apart(t[a], t[b]));
        }
    }
    // the file count
    lemma_used_upto_len(t, 64);
    if replacing {
        lemma_count_update(t, fk, empty_entry(), 64);
        lemma_count_update(tc, slot, ne, 64);
    } else {
        lemma_count_update(t, slot, ne, 64);
    }
    assert(sb2.file_count == count_used(t2));
    assert(fs_sound(sb2, d2));
    if fs_wf(sb, d) && no_zero_byte(k) {
        lemma_stored_name_reads_back(k);
        assert(entry_name(ne) == k);
        // no name carried twice
        assert forall|a: int, b: int| 0 <= a < 64 && 0 <= b < 64 && a != b implies names_apart(
            #[trigger] t2[a],
            #[trigger] t2[b],
        ) by {
            if a == slot {
                if t2[b].used && entry_name(t2[b]) == k {
                    if replacing {
                        assert(names_apart(t[fk], t[b]));
                    } else {
                        assert(!holds_name(t[b], k));
                    }
                }
            } else if b == slot {
                if t2[a].used && entry_name(t2[a]) == k {
                    if replacing {
                        assert(names_apart(t[fk], t[a]));
                    } else {
                        assert(!holds_name(t[a], k));
                    }
                }
            } else {
                assert(names_apart(t[a], t[b]));
            }
        }
        assert(fs_wf(sb2, d2));
        // the files: `k` now holds `data`
        assert forall|j: int| 0 <= j < slot implies !holds_name(#[trigger] t2[j], k) by {
            if replacing {
                assert(t2[j] == t[j]);
            } else {
                assert(!holds_name(t[j], k));
            }
        }
        lemma_first_named_at(t2, k, 0, slot);
        assert(512 * n >= data.len()) by (nonlinear_arith)
            requires
                n == (data.len() + 511) / 512,
        ;
        if n > 0 {
            assert forall|b: int| start <= b < start + n implies d2[b] == d1[b] by {}
            lemma_blocks_concat_agree(d1, d2, start, n);
        }
        assert(file_contents(d2, ne) =~= data);
        // every other name keeps its file
        assert forall|key: Seq<u8>| key != k implies first_named(t2, key) == first_named(t, key) by {
            assert forall|j: int| 0 <= j < 64 implies holds_name(t[j], key) == holds_name(t2[j], key) by {
                if j == slot && replacing {
                    assert(entry_name(t[j]) == k);
                }
            }
            lemma_first_named_agree(t, t2, key, 0);
        }
        let m2 = fs_files(sb2, d2);
        let m = fs_files(sb, d).insert(k, data);
        assert forall|key: Seq<u8>| m.dom().contains(key) implies m2.dom().contains(key) && m2[key]
            == m[key] by {
            if key != k {
                let j = first_named(t, key);
                lemma_first_named(t, key, 0);
                let e = t[j];
                assert(extent_in_data(e, sb));
                assert(j != slot);
                if e.block_count != 0 {
                    if n > 0 {
                        assert(!overlaps(tc[j], start, n as int));
                    }
                    assert forall|b: int| e.start_block <= b < e.start_block + e.block_count implies d2[b]
                        == d[b] by {}
                    lemma_blocks_concat_agree(d, d2, e.start_block as int, e.block_count as nat);
                }
            }
        }
        assert forall|key: Seq<u8>| m2.dom().contains(key) implies m.dom().contains(key) by {}
        assert(m2 =~= m);
    }
}

/// A freshly formatted disk is well formed and holds no file.
pub proof fn lemma_format_wf(d: Disk, d2: Disk, total: u32)
    requires
        total > 1 + FMS_FILE_TABLE_BLOCKS,
        total <= d.len(),
        d2.len() == d.len(),
        forall|b: int| 1 <= b < d.len() && b < total ==> (#[trigger] d2[b])@ == zeros(512),
        d2[0]@ == encode_superblock(fresh_superblock(total)),
    ensures
        fs_wf(fresh_superblock(total), d2),
        fs_files(fresh_superblock(total), d2) == Map::<Seq<u8>, Seq<u8>>::empty(),
        disk_table(fresh_superblock(total), d2).len() == FMS_MAX_FILES,
        forall|i: int|
            0 <= i < FMS_MAX_FILES ==> !(#[trigger] disk_table(fresh_superblock(total), d2)[i]).used,
{
    let sb = fresh_superblock(total);
    lemma_disk_table_sized(sb, d2);
    let t = disk_table(sb, d2);
    lemma_blocks_concat_zero(d2, 1, 8);
    lemma_blocks_concat_len(d2, 1, 8);
    assert forall|i: int| 0 <= i < 64 implies !(#[trigger] t[i]).used by {
        assert(blocks_concat(d2, 1, 8)[45 * i] == 0);
    }
    assert(used_upto(t, 64).len() == 0) by {
        lemma_none_used(t, 64);
    }
    assert forall|k: Seq<u8>| first_named(t, k) == 64 by {
        lemma_first_named_at(t, k, 0, 64);
    }
    assert(fs_files(sb, d2) =~= Map::<Seq<u8>, Seq<u8>>::empty());
}

/// Zeroed blocks concatenate to zeros.
pub proof fn lemma_blocks_concat_zero(d: Disk, start: int, n: nat)
    requires
        forall|b: int| start <= b < start + n ==> (#[trigger] d[b])@ == zeros(512),
    ensures
        forall|k: int| 0 <= k < 512 * n ==> blocks_concat(d, start, n)[k] == 0,
    decreases n,
{
    if n > 0 {
        lemma_blocks_concat_zero(d, start, (n - 1) as nat);
        lemma_blocks_concat_len(d, start, (n - 1) as nat);
    }
}

/// A table with no used slot lists nothing.
pub proof fn lemma_none_used(t: Seq<EntryView>, n: int)
    requires
        0 <= n <= t.len(),
        forall|i: int| 0 <= i < n ==> !(#[trigger] t[i]).used,
    ensures
        used_upto(t, n).len() == 0,
    decreases n,
{
    if n > 0 {
        lemma_none_used(t, n - 1);
    }
}

} // verus!
