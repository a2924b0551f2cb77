//! Searches over the file table: names, free slots and free space.
use crate::layout::{
    entry_name, lemma_stored_len_bounds, stored_len, table_view, EntryView, FmsError,
    FmsFileEntry, FmsSuperblock, FMS_BLOCK_SIZE, FMS_FILENAME_MAX, FMS_MAX_FILES,
};
use vstd::prelude::*;
use vstd::string::StringSliceAdditionalSpecFns;

verus! {

/// A name the filesystem accepts: 1 to 31 bytes, none of them `/`.
pub open spec fn name_valid(name: Seq<u8>) -> bool {
    &&& name.len() > 0
    &&& name.len() < FMS_FILENAME_MAX
    &&& !name.contains(47u8)
}

/// The name rule: a name is accepted exactly when it has 1 to 31 bytes and no byte is `/`;
/// every other byte value, a space or a dot among them, may appear.
pub proof fn law_name_rule(name: Seq<u8>)
    ensures
        name_valid(name) <==> 1 <= name.len() <= 31 && forall|j: int|
            0 <= j < name.len() ==> name[j] != 47u8,
{
    if !name.contains(47u8) {
        assert forall|j: int| 0 <= j < name.len() implies name[j] != 47u8 by {
            if name[j] == 47u8 {
                assert(name.contains(47u8));
            }
        }
    }
}

/// Blocks needed for `size` bytes.
pub open spec fn blocks_for(size: int) -> int {
    (size + 511) / 512
}

/// Whether slot `e` holds a file called `name`.
pub open spec fn holds_name(e: EntryView, name: Seq<u8>) -> bool {
    e.used && entry_name(e) == name
}

/// Index of the first slot at or after `i` holding `name`, or the table length.
pub open spec fn first_named_from(t: Seq<EntryView>, name: Seq<u8>, i: int) -> int
    decreases t.len() - i,
{
    if i >= t.len() {
        t.len() as int
    } else if holds_name(t[i], name) {
        i
    } else {
        first_named_from(t, name, i + 1)
    }
}

/// Index of the first slot holding `name`, or the table length.
pub open spec fn first_named(t: Seq<EntryView>, name: Seq<u8>) -> int {
    first_named_from(t, name, 0)
}

/// Index of the first unused slot at or after `i`, or the table length.
pub open spec fn first_free_from(t: Seq<EntryView>, i: int) -> int
    decreases t.len() - i,
{
    if i >= t.len() {
        t.len() as int
    } else if !t[i].used {
        i
    } else {
        first_free_from(t, i + 1)
    }
}

/// Index of the first unused slot, or the table length.
pub open spec fn first_free(t: Seq<EntryView>) -> int {
    first_free_from(t, 0)
}

/// What the first named slot is: no earlier slot holds the name, and it does unless it is the end.
pub proof fn lemma_first_named(t: Seq<EntryView>, name: Seq<u8>, i: int)
    requires
        0 <= i <= t.len(),
    ensures
        i <= first_named_from(t, name, i) <= t.len(),
        forall|j: int| i <= j < first_named_from(t, name, i) ==> !holds_name(#[trigger] t[j], name),
        first_named_from(t, name, i) < t.len() ==> holds_name(t[first_named_from(t, name, i)], name),
    decreases t.len() - i,
{
    if i < t.len() && !holds_name(t[i], name) {
        lemma_first_named(t, name, i + 1);
    }
}

/// The first named slot is `n` when `n` is the first that holds the name.
pub proof fn lemma_first_named_at(t: Seq<EntryView>, name: Seq<u8>, i: int, n: int)
    requires
        0 <= i <= n <= t.len(),
        forall|j: int| i <= j < n ==> !holds_name(#[trigger] t[j], name),
        n < t.len() ==> holds_name(t[n], name),
    ensures
        first_named_from(t, name, i) == n,
    decreases n - i,
{
    if i < n {
        lemma_first_named_at(t, name, i + 1, n);
    }
}

/// What the first free slot is: every earlier slot is used, and it is free unless it is the end.
pub proof fn lemma_first_free(t: Seq<EntryView>, i: int)
    requires
        0 <= i <= t.len(),
    ensures
        i <= first_free_from(t, i) <= t.len(),
        forall|j: int| i <= j < first_free_from(t, i) ==> (#[trigger] t[j]).used,
        first_free_from(t, i) < t.len() ==> !t[first_free_from(t, i)].used,
    decreases t.len() - i,
{
    if i < t.len() && t[i].used {
        lemma_first_free(t, i + 1);
    }
}

/// Whether slot `e` holds blocks in `[c, c + n)`.
pub open spec fn overlaps(e: EntryView, c: int, n: int) -> bool {
    &&& e.used
    &&& e.block_count != 0
    &&& c < e.start_block + e.block_count
    &&& c + n > e.start_block
}

/// Whether `[c, c + n)` is free of every file's blocks.
pub open spec fn run_free(t: Seq<EntryView>, c: int, n: int) -> bool {
    forall|i: int| 0 <= i < t.len() ==> !overlaps(#[trigger] t[i], c, n)
}

/// Whether `c` is the lowest start at or above `lo` of a free run of `n` blocks ending by `hi`.
pub open spec fn is_first_fit(t: Seq<EntryView>, lo: int, hi: int, n: int, c: int) -> bool {
    &&& lo <= c
    &&& c + n <= hi
    &&& run_free(t, c, n)
    &&& forall|s: int| lo <= s < c ==> !run_free(t, s, n)
}

/// Whether some free run of `n` blocks lies in `[lo, hi)`.
pub open spec fn fit_exists(t: Seq<EntryView>, lo: int, hi: int, n: int) -> bool {
    exists|c: int| lo <= c && c + n <= hi && run_free(t, c, n)
}

/// Whether every used, non-empty slot's block range ends within `u32`.
pub open spec fn extents_in_range(t: Seq<EntryView>) -> bool {
    forall|i: int|
        0 <= i < t.len() && (#[trigger] t[i]).used && t[i].block_count != 0 ==> t[i].start_block
            + t[i].block_count <= u32::MAX
}

/// Accepts `name` when the filesystem can store a file under it.
pub fn validate_name(name: &str) -> (r: Result<(), FmsError>)
    ensures
        r is Ok <==> name_valid(name.spec_bytes()),
        r is Err ==> r == Err::<(), FmsError>(FmsError::BadName),
{
    let bytes = name.as_bytes();
    if bytes.len() == 0 || bytes.len() >= FMS_FILENAME_MAX {
        return Err(FmsError::BadName);
    }
    let mut i: usize = 0;
    while i < bytes.len()
        invariant
            i <= bytes@.len(),
            bytes@ == name.spec_bytes(),
            forall|j: int| 0 <= j < i ==> bytes@[j] != 47u8,
        decreases bytes@.len() - i,
    {
        if bytes[i] == 47u8 {
            assert(bytes@.contains(47u8)) by {
                assert(bytes@[i as int] == 47u8);
            }
            return Err(FmsError::BadName);
        }
        i = i + 1;
    }
    Ok(())
}

/// Blocks needed for `size` bytes.
pub fn bytes_to_blocks(size: usize) -> (n: usize)
    requires
        size + FMS_BLOCK_SIZE <= usize::MAX,
    ensures
        n == blocks_for(size as int),
{
    if size == 0 {
        0
    } else {
        (size + FMS_BLOCK_SIZE - 1) / FMS_BLOCK_SIZE
    }
}

/// Whether two byte strings are equal.
pub fn bytes_equal(a: &[u8], b: &[u8]) -> (r: bool)
    ensures
        r == (a@ == b@),
{
    if a.len() != b.len() {
        return false;
    }
    let mut i: usize = 0;
    while i < a.len()
        invariant
            a@.len() == b@.len(),
            i <= a@.len(),
            forall|j: int| 0 <= j < i ==> a@[j] == b@[j],
        decreases a@.len() - i,
    {
        if a[i] != b[i] {
            return false;
        }
        i = i + 1;
    }
    assert(a@ =~= b@);
    true
}

/// Index of the first slot holding a file called `name`.
pub fn find_entry(entries: &[FmsFileEntry; FMS_MAX_FILES], name: &str) -> (r: Option<usize>)
    ensures
        match r {
            Some(i) => i == first_named(table_view(*entries), name.spec_bytes()) && i < 64,
            None => first_named(table_view(*entries), name.spec_bytes()) == 64,
        },
{
    let target = name.as_bytes();
    let ghost t = table_view(*entries);
    let mut i: usize = 0;
    while i < FMS_MAX_FILES
        invariant
            i <= 64,
            t == table_view(*entries),
            t.len() == 64,
            target@ == name.spec_bytes(),
            forall|j: int| 0 <= j < i ==> !holds_name(#[trigger] t[j], target@),
        decreases 64 - i,
    {
        let entry = &entries[i];
        if entry.used && bytes_equal(entry.name_bytes(), target) {
            proof {
                lemma_first_named_at(t, target@, 0, i as int);
            }
            return Some(i);
        }
        i = i + 1;
    }
    proof {
        lemma_first_named_at(t, target@, 0, 64);
    }
    None
}

/// Index of the first unused slot.
pub fn find_free_entry(entries: &[FmsFileEntry; FMS_MAX_FILES]) -> (r: Option<usize>)
    ensures
        match r {
            Some(i) => i == first_free(table_view(*entries)) && i < 64,
            None => first_free(table_view(*entries)) == 64,
        },
{
    let ghost t = table_view(*entries);
    let mut i: usize = 0;
    while i < FMS_MAX_FILES
        invariant
            i <= 64,
            t == table_view(*entries),
            t.len() == 64,
            forall|j: int| 0 <= j < i ==> (#[trigger] t[j]).used,
            first_free(t) == first_free_from(t, i as int),
        decreases 64 - i,
    {
        if !entries[i].used {
            return Some(i);
        }
        i = i + 1;
    }
    None
}

/// The lowest block at which `needed_blocks` free blocks start in the data area.
pub fn find_contiguous_space(
    sb: &FmsSuperblock,
    entries: &[FmsFileEntry; FMS_MAX_FILES],
    needed_blocks: u32,
) -> (r: Option<u32>)
    requires
        sb.data_start <= sb.total_blocks,
        extents_in_range(table_view(*entries)),
    ensures
        needed_blocks == 0 ==> r == Some(sb.data_start),
        needed_blocks > 0 ==> match r {
            Some(c) => is_first_fit(
                table_view(*entries),
                sb.data_start as int,
                sb.total_blocks as int,
                needed_blocks as int,
                c as int,
            ),
            None => !fit_exists(
                table_view(*entries),
                sb.data_start as int,
                sb.total_blocks as int,
                needed_blocks as int,
            ),
        },
{
    let ghost t = table_view(*entries);
    let ghost lo = sb.data_start as int;
    let ghost hi = sb.total_blocks as int;
    let ghost n = needed_blocks as int;
    if needed_blocks == 0 {
        return Some(sb.data_start);
    }
    if needed_blocks > (sb.total_blocks - sb.data_start) {
        return None;
    }
    let last_start = sb.total_blocks - needed_blocks;
    let mut candidate = sb.data_start;
    while candidate <= last_start
        invariant
            t == table_view(*entries),
            t.len() == 64,
            extents_in_range(t),
            lo == sb.data_start,
            hi == sb.total_blocks,
            n == needed_blocks,
            n > 0,
            last_start == hi - n,
            lo <= candidate,
            forall|s: int| lo <= s < candidate ==> !run_free(t, s, n),
        decreases u32::MAX - candidate,
    {
        let candidate_end = candidate + needed_blocks;
        let ghost c0 = candidate as int;
        let mut overlap = false;
        let mut k: usize = 0;
        while k < FMS_MAX_FILES
            invariant_except_break
                !overlap,
                candidate == c0,
                candidate_end == candidate + n,
                forall|j: int| 0 <= j < k ==> !overlaps(#[trigger] t[j], candidate as int, n),
            invariant
                t == table_view(*entries),
                t.len() == 64,
                extents_in_range(t),
                n == needed_blocks,
                n > 0,
                lo <= candidate,
                k <= 64,
                forall|s: int| lo <= s < candidate ==> !run_free(t, s, n),
            ensures
                overlap ==> candidate > c0,
                !overlap ==> candidate == c0 && forall|j: int|
                    0 <= j < 64 ==> !overlaps(#[trigger] t[j], candidate as int, n),
            decreases 64 - k,
        {
            let entry = &entries[k];
            if entry.used && entry.block_count != 0 {
                assert(t[k as int] == entry@);
                let entry_start = entry.start_block;
                let entry_end = entry_start + entry.block_count;
                if candidate < entry_end && candidate_end > entry_start {
                    proof {
                        assert forall|s: int| lo <= s < entry_end implies !run_free(t, s, n) by {
                            if s >= candidate {
                                assert(overlaps(t[k as int], s, n));
                            }
                        }
                    }
                    overlap = true;
                    candidate = entry_end;
                    break;
                }
            }
            k = k + 1;
        }
        if !overlap {
            assert(run_free(t, candidate as int, n));
            return Some(candidate);
        }
    }
    proof {
        assert forall|c: int| lo <= c && c + n <= hi implies !run_free(t, c, n) by {}
    }
    None
}

} // verus!
