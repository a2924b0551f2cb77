//! On-disk layout of the filesystem: constants, the error type, the
//! little-endian `u32` codec, the superblock and the file-table entries.
use vstd::prelude::*;
use vstd::string::StringSliceAdditionalSpecFns;

verus! {

pub const FMS_MAGIC: u32 = 0x3146_5346;
pub const FMS_VERSION: u32 = 1;
pub const FMS_BLOCK_SIZE: usize = 512;
pub const FMS_MAX_FILES: usize = 64;
pub const FMS_FILENAME_MAX: usize = 32;
pub const FMS_FILE_TABLE_BLOCKS: usize = 8;
pub const FMS_DEFAULT_TOTAL_BLOCKS: u32 = 4096;

/// Bytes taken by one encoded file-table entry: flag, name, three `u32`s.
pub const FILE_ENTRY_BYTES: usize = 45;
/// Bytes of the whole file table (all table blocks).
pub const TABLE_BYTES: usize = 4096;

/// The little-endian encoding of `v`.
pub open spec fn le_bytes(v: u32) -> Seq<u8> {
    seq![
        (v % 256) as u8,
        ((v / 256) % 256) as u8,
        ((v / 65536) % 256) as u8,
        (v / 16777216) as u8,
    ]
}

/// The `u32` stored little-endian at `off` in `b`.
pub open spec fn le_value(b: Seq<u8>, off: int) -> u32 {
    (b[off] + 256 * b[off + 1] + 65536 * b[off + 2] + 16777216 * b[off + 3]) as u32
}

/// Decoding an encoded `u32` gives it back.
pub proof fn lemma_le_roundtrip(v: u32)
    ensures
        le_bytes(v).len() == 4,
        le_value(le_bytes(v), 0) == v,
{
    let b = le_bytes(v);
    assert(b[0] + 256 * b[1] + 65536 * b[2] + 16777216 * b[3] == v) by (nonlinear_arith)
        requires
            b[0] == v % 256,
            b[1] == (v / 256) % 256,
            b[2] == (v / 65536) % 256,
            b[3] == v / 16777216,
            v <= 0xffff_ffff,
    ;
}


/// Error conditions reported by the filesystem and its block devices.
#[derive(Clone, Copy, Debug, PartialEq, Eq, Structural)]
pub enum FmsError {
    Io,
    BadFs,
    NotFound,
    Exists,
    NoSpace,
    BadName,
    TooLarge,
}

/// `dst` with the four bytes at `off` replaced by the encoding of `v`.
pub open spec fn with_le(dst: Seq<u8>, off: int, v: u32) -> Seq<u8> {
    dst.subrange(0, off) + le_bytes(v) + dst.subrange(off + 4, dst.len() as int)
}

/// Stores `value` little-endian at `offset`.
pub fn write_u32(dst: &mut [u8], offset: usize, value: u32)
    requires
        offset + 4 <= old(dst)@.len(),
    ensures
        final(dst)@ == with_le(old(dst)@, offset as int, value),
{
    dst[offset] = (value % 256) as u8;
    dst[offset + 1] = ((value / 256) % 256) as u8;
    dst[offset + 2] = ((value / 65536) % 256) as u8;
    dst[offset + 3] = (value / 16777216) as u8;
    assert(dst@ =~= with_le(old(dst)@, offset as int, value));
}

/// Reads the little-endian `u32` at `offset`.
pub fn read_u32(src: &[u8], offset: usize) -> (r: u32)
    requires
        offset + 4 <= src@.len(),
    ensures
        r == le_value(src@, offset as int),
{
    let b0 = src[offset] as u32;
    let b1 = src[offset + 1] as u32;
    let b2 = src[offset + 2] as u32;
    let b3 = src[offset + 3] as u32;
    b0 + b1 * 256 + b2 * 65536 + b3 * 16777216
}


/// Block 0 of a filesystem: where everything else lives.
#[derive(Clone, Copy, Debug)]
pub struct FmsSuperblock {
    pub magic: u32,
    pub version: u32,
    pub block_size: u32,
    pub total_blocks: u32,
    pub file_table_start: u32,
    pub file_table_blocks: u32,
    pub data_start: u32,
    pub max_files: u32,
    pub file_count: u32,
}

/// `n` zero bytes.
pub open spec fn zeros(n: nat) -> Seq<u8> {
    Seq::new(n, |i: int| 0u8)
}

/// The bytes of block 0 that hold `sb`: nine little-endian fields, then zeros.
#[verifier::opaque]
pub open spec fn encode_superblock(sb: FmsSuperblock) -> Seq<u8> {
    with_le(
        with_le(
            with_le(
                with_le(
                    with_le(
                        with_le(
                            with_le(
                                with_le(with_le(zeros(512), 0, sb.magic), 4, sb.version),
                                8,
                                sb.block_size,
                            ),
                            12,
                            sb.total_blocks,
                        ),
                        16,
                        sb.file_table_start,
                    ),
                    20,
                    sb.file_table_blocks,
                ),
                24,
                sb.data_start,
            ),
            28,
            sb.max_files,
        ),
        32,
        sb.file_count,
    )
}

/// Storing a `u32` keeps the length.
pub broadcast proof fn lemma_with_le_len(d: Seq<u8>, off: int, v: u32)
    requires
        0 <= off,
        off + 4 <= d.len(),
    ensures
        #[trigger] with_le(d, off, v).len() == d.len(),
{
}

/// A stored `u32` reads back.
pub broadcast proof fn lemma_with_le_same(d: Seq<u8>, off: int, v: u32)
    requires
        0 <= off,
        off + 4 <= d.len(),
    ensures
        #[trigger] le_value(with_le(d, off, v), off) == v,
{
    lemma_le_roundtrip(v);
    let e = with_le(d, off, v);
    assert(e[off] == le_bytes(v)[0]);
    assert(e[off + 1] == le_bytes(v)[1]);
    assert(e[off + 2] == le_bytes(v)[2]);
    assert(e[off + 3] == le_bytes(v)[3]);
}

/// Storing a `u32` leaves the bytes elsewhere alone.
pub broadcast proof fn lemma_with_le_other(d: Seq<u8>, off: int, v: u32, off2: int)
    requires
        0 <= off,
        off + 4 <= d.len(),
        0 <= off2,
        off2 + 4 <= d.len(),
        off2 + 4 <= off || off + 4 <= off2,
    ensures
        #[trigger] le_value(with_le(d, off, v), off2) == le_value(d, off2),
{
    let e = with_le(d, off, v);
    assert(e[off2] == d[off2]);
    assert(e[off2 + 1] == d[off2 + 1]);
    assert(e[off2 + 2] == d[off2 + 2]);
    assert(e[off2 + 3] == d[off2 + 3]);
}

/// The superblock that block 0 holds, whatever its bytes are.
pub open spec fn decode_superblock(b: Seq<u8>) -> FmsSuperblock {
    FmsSuperblock {
        magic: le_value(b, 0),
        version: le_value(b, 4),
        block_size: le_value(b, 8),
        total_blocks: le_value(b, 12),
        file_table_start: le_value(b, 16),
        file_table_blocks: le_value(b, 20),
        data_start: le_value(b, 24),
        max_files: le_value(b, 28),
        file_count: le_value(b, 32),
    }
}

/// What makes block 0 the superblock of this filesystem format.
pub open spec fn superblock_valid(sb: FmsSuperblock) -> bool {
    &&& sb.magic == FMS_MAGIC
    &&& sb.version == FMS_VERSION
    &&& sb.block_size == FMS_BLOCK_SIZE
    &&& sb.file_table_blocks == FMS_FILE_TABLE_BLOCKS
    &&& sb.max_files == FMS_MAX_FILES
    &&& sb.total_blocks > sb.data_start
}

/// The superblock of a freshly formatted disk of `total_blocks` blocks.
pub open spec fn fresh_superblock(total_blocks: u32) -> FmsSuperblock {
    FmsSuperblock {
        magic: FMS_MAGIC,
        version: FMS_VERSION,
        block_size: FMS_BLOCK_SIZE as u32,
        total_blocks,
        file_table_start: 1,
        file_table_blocks: FMS_FILE_TABLE_BLOCKS as u32,
        data_start: (1 + FMS_FILE_TABLE_BLOCKS) as u32,
        max_files: FMS_MAX_FILES as u32,
        file_count: 0,
    }
}

/// Decoding the encoding of a superblock gives it back.
pub proof fn lemma_superblock_roundtrip(sb: FmsSuperblock)
    ensures
        encode_superblock(sb).len() == FMS_BLOCK_SIZE,
        decode_superblock(encode_superblock(sb)) == sb,
{
    broadcast use lemma_with_le_len, lemma_with_le_same, lemma_with_le_other;

    reveal(encode_superblock);

    assert(zeros(512).len() == 512);
}

impl FmsSuperblock {
    /// The superblock of a freshly formatted disk.
    pub fn new(total_blocks: u32) -> (sb: Self)
        ensures
            sb == fresh_superblock(total_blocks),
    {
        FmsSuperblock {
            magic: FMS_MAGIC,
            version: FMS_VERSION,
            block_size: FMS_BLOCK_SIZE as u32,
            total_blocks,
            file_table_start: 1,
            file_table_blocks: FMS_FILE_TABLE_BLOCKS as u32,
            data_start: (1 + FMS_FILE_TABLE_BLOCKS) as u32,
            max_files: FMS_MAX_FILES as u32,
            file_count: 0,
        }
    }

    /// Writes the encoding of `self` over the whole of `block`.
    pub fn encode_into(&self, block: &mut [u8; FMS_BLOCK_SIZE])
        ensures
            final(block)@ == encode_superblock(*self),
    {
        *block = [0u8; FMS_BLOCK_SIZE];
        write_u32(block, 0, self.magic);
        write_u32(block, 4, self.version);
        write_u32(block, 8, self.block_size);
        write_u32(block, 12, self.total_blocks);
        write_u32(block, 16, self.file_table_start);
        write_u32(block, 20, self.file_table_blocks);
        write_u32(block, 24, self.data_start);
        write_u32(block, 28, self.max_files);
        write_u32(block, 32, self.file_count);
        proof {
            reveal(encode_superblock);
        }
        assert(block@ =~= encode_superblock(*self));
    }

    /// Reads the superblock fields out of `block`.
    pub fn decode_from(block: &[u8; FMS_BLOCK_SIZE]) -> (sb: Self)
        ensures
            sb == decode_superblock(block@),
    {
        FmsSuperblock {
            magic: read_u32(block, 0),
            version: read_u32(block, 4),
            block_size: read_u32(block, 8),
            total_blocks: read_u32(block, 12),
            file_table_start: read_u32(block, 16),
            file_table_blocks: read_u32(block, 20),
            data_start: read_u32(block, 24),
            max_files: read_u32(block, 28),
            file_count: read_u32(block, 32),
        }
    }

    /// Whether `self` describes a filesystem of this format.
    pub fn is_valid(&self) -> (b: bool)
        ensures
            b == superblock_valid(*self),
    {
        self.magic == FMS_MAGIC && self.version == FMS_VERSION && self.block_size
            == FMS_BLOCK_SIZE as u32 && self.file_table_blocks == FMS_FILE_TABLE_BLOCKS as u32
            && self.max_files == FMS_MAX_FILES as u32 && self.total_blocks > self.data_start
    }
}


/// The mathematical content of a file-table entry.
pub struct EntryView {
    pub used: bool,
    pub name: Seq<u8>,
    pub start_block: u32,
    pub block_count: u32,
    pub size: u32,
}

/// One slot of the file table.
#[derive(Clone, Copy, Debug)]
pub struct FmsFileEntry {
    pub used: bool,
    pub name: [u8; FMS_FILENAME_MAX],
    pub start_block: u32,
    pub block_count: u32,
    pub size: u32,
}

impl View for FmsFileEntry {
    type V = EntryView;

    open spec fn view(&self) -> EntryView {
        EntryView {
            used: self.used,
            name: self.name@,
            start_block: self.start_block,
            block_count: self.block_count,
            size: self.size,
        }
    }
}

/// The view of an unused slot.
pub open spec fn empty_entry() -> EntryView {
    EntryView { used: false, name: zeros(32), start_block: 0, block_count: 0, size: 0 }
}

/// Position of the first zero byte of `s` at or after `i`, or `s.len()` if none.
pub open spec fn stored_len_from(s: Seq<u8>, i: int) -> int
    decreases s.len() - i,
{
    if i >= s.len() {
        s.len() as int
    } else if s[i] == 0 {
        i
    } else {
        stored_len_from(s, i + 1)
    }
}

/// Length of a stored name: the bytes before its first zero byte.
pub open spec fn stored_len(s: Seq<u8>) -> int {
    stored_len_from(s, 0)
}

/// The name an entry carries: its name bytes up to the first zero byte.
pub open spec fn entry_name(e: EntryView) -> Seq<u8> {
    e.name.take(stored_len(e.name))
}

/// The name field that storing `input` produces: at most 31 bytes of it, zero-padded.
pub open spec fn stored_name(input: Seq<u8>) -> Seq<u8> {
    let n = if input.len() < 31 { input.len() as int } else { 31 };
    input.take(n) + zeros((32 - n) as nat)
}

/// The first zero byte at or after `i` is at `n`, when nothing before `n` is zero.
pub proof fn lemma_stored_len_at(s: Seq<u8>, i: int, n: int)
    requires
        0 <= i <= n <= s.len(),
        forall|j: int| i <= j < n ==> s[j] != 0,
        n < s.len() ==> s[n] == 0,
    ensures
        stored_len_from(s, i) == n,
    decreases n - i,
{
    if i < n {
        lemma_stored_len_at(s, i + 1, n);
    }
}

/// What the stored length is: no zero before it, a zero at it unless it is the end.
pub proof fn lemma_stored_len_bounds(s: Seq<u8>, i: int)
    requires
        0 <= i <= s.len(),
    ensures
        i <= stored_len_from(s, i) <= s.len(),
        forall|j: int| i <= j < stored_len_from(s, i) ==> s[j] != 0,
        stored_len_from(s, i) < s.len() ==> s[stored_len_from(s, i)] == 0,
    decreases s.len() - i,
{
    if i < s.len() && s[i] != 0 {
        lemma_stored_len_bounds(s, i + 1);
    }
}

/// A name of fewer than 32 bytes with no zero byte reads back unchanged.
pub proof fn lemma_stored_name_reads_back(input: Seq<u8>)
    requires
        input.len() < 32,
        forall|j: int| 0 <= j < input.len() ==> input[j] != 0,
    ensures
        stored_name(input).len() == 32,
        stored_len(stored_name(input)) == input.len(),
        stored_name(input).take(input.len() as int) == input,
{
    let s = stored_name(input);
    let n = input.len() as int;
    assert(s.len() == 32);
    assert forall|j: int| 0 <= j < n implies s[j] != 0 by {
        assert(s[j] == input[j]);
    }
    lemma_stored_len_at(s, 0, n);
    assert(s.take(n) =~= input);
}

impl FmsFileEntry {
    /// An unused slot.
    pub fn empty() -> (e: Self)
        ensures
            e@ == empty_entry(),
    {
        let e = FmsFileEntry {
            used: false,
            name: [0u8; FMS_FILENAME_MAX],
            start_block: 0,
            block_count: 0,
            size: 0,
        };
        assert(e.name@ =~= zeros(32));
        e
    }

    /// Stores `input` as the name: its first 31 bytes at most, zero-padded.
    pub fn set_name(&mut self, input: &str)
        ensures
            final(self).name@ == stored_name(input.spec_bytes()),
            final(self).used == old(self).used,
            final(self).start_block == old(self).start_block,
            final(self).block_count == old(self).block_count,
            final(self).size == old(self).size,
    {
        let bytes = input.as_bytes();
        let len = if bytes.len() < FMS_FILENAME_MAX - 1 {
            bytes.len()
        } else {
            FMS_FILENAME_MAX - 1
        };
        let mut name = [0u8; FMS_FILENAME_MAX];
        let mut i: usize = 0;
        while i < len
            invariant
                len <= bytes@.len(),
                len < 32,
                i <= len,
                name@.len() == 32,
                forall|j: int| 0 <= j < i ==> name@[j] == bytes@[j],
                forall|j: int| i <= j < 32 ==> name@[j] == 0,
            decreases len - i,
        {
            name[i] = bytes[i];
            i = i + 1;
        }
        self.name = name;
        assert(self.name@ =~= stored_name(input.spec_bytes()));
    }

    /// Length of the stored name: the bytes before the first zero byte.
    pub fn name_len(&self) -> (n: usize)
        ensures
            n == stored_len(self.name@),
    {
        let mut i: usize = 0;
        while i < FMS_FILENAME_MAX && self.name[i] != 0
            invariant
                i <= 32,
                self.name@.len() == 32,
                stored_len_from(self.name@, i as int) == stored_len(self.name@),
            decreases 32 - i,
        {
            i = i + 1;
        }
        i
    }

    /// The stored name, without its zero padding.
    pub fn name_bytes(&self) -> (b: &[u8])
        ensures
            b@ == entry_name(self@),
    {
        let n = self.name_len();
        proof {
            lemma_stored_len_bounds(self.name@, 0);
        }
        vstd::slice::slice_subrange(self.name.as_slice(), 0, n)
    }
}


/// The 45 bytes that hold entry `e` in the file table.
pub open spec fn encode_entry(e: EntryView) -> Seq<u8> {
    seq![if e.used { 1u8 } else { 0u8 }] + e.name + le_bytes(e.start_block) + le_bytes(
        e.block_count,
    ) + le_bytes(e.size)
}

/// `d` with entry `e` stored at `off`.
pub open spec fn put_entry(d: Seq<u8>, off: int, e: EntryView) -> Seq<u8> {
    d.subrange(0, off) + encode_entry(e) + d.subrange(off + 45, d.len() as int)
}

/// The entry stored at `off` in `b`, whatever its bytes are.
pub open spec fn decode_entry(b: Seq<u8>, off: int) -> EntryView {
    EntryView {
        used: b[off] != 0,
        name: b.subrange(off + 1, off + 33),
        start_block: le_value(b, off + 33),
        block_count: le_value(b, off + 37),
        size: le_value(b, off + 41),
    }
}

/// The table bytes after storing the first `n` entries of `t` over zeros.
pub open spec fn encode_table_prefix(t: Seq<EntryView>, n: nat) -> Seq<u8>
    decreases n,
{
    if n == 0 {
        zeros(TABLE_BYTES as nat)
    } else {
        put_entry(encode_table_prefix(t, (n - 1) as nat), 45 * (n - 1), t[n - 1])
    }
}

/// The bytes of the file table that holds `t`: its entries in order, then zeros.
#[verifier::opaque]
pub open spec fn encode_table(t: Seq<EntryView>) -> Seq<u8> {
    encode_table_prefix(t, FMS_MAX_FILES as nat)
}

/// The file table that `b` holds, whatever its bytes are.
pub open spec fn decode_table(b: Seq<u8>) -> Seq<EntryView> {
    Seq::new(FMS_MAX_FILES as nat, |i: int| decode_entry(b, 45 * i))
}

/// The views of the slots of an in-memory table.
pub open spec fn table_view(t: [FmsFileEntry; FMS_MAX_FILES]) -> Seq<EntryView> {
    t@.map_values(|e: FmsFileEntry| e@)
}

/// Whether every entry of `t` has a name field of 32 bytes, as every slot has.
pub open spec fn names_sized(t: Seq<EntryView>) -> bool {
    forall|i: int| 0 <= i < t.len() ==> (#[trigger] t[i]).name.len() == 32
}

/// An entry stored at `off` reads back.
pub proof fn lemma_put_entry_same(d: Seq<u8>, off: int, e: EntryView)
    requires
        0 <= off,
        off + 45 <= d.len(),
        e.name.len() == 32,
    ensures
        put_entry(d, off, e).len() == d.len(),
        decode_entry(put_entry(d, off, e), off) == e,
{
    let p = put_entry(d, off, e);
    let enc = encode_entry(e);
    assert(enc.len() == 45);
    assert(p.subrange(off, off + 45) =~= enc);
    assert(p.subrange(off + 1, off + 33) =~= e.name);
    lemma_le_roundtrip(e.start_block);
    lemma_le_roundtrip(e.block_count);
    lemma_le_roundtrip(e.size);
    assert(enc.subrange(33, 37) =~= le_bytes(e.start_block));
    assert(enc.subrange(37, 41) =~= le_bytes(e.block_count));
    assert(enc.subrange(41, 45) =~= le_bytes(e.size));
    assert(le_value(p, off + 33) == le_value(enc.subrange(33, 37), 0));
    assert(le_value(p, off + 37) == le_value(enc.subrange(37, 41), 0));
    assert(le_value(p, off + 41) == le_value(enc.subrange(41, 45), 0));
    assert(p[off] == enc[0]);
}

/// Storing an entry leaves the entries stored elsewhere alone.
pub proof fn lemma_put_entry_other(d: Seq<u8>, off: int, e: EntryView, off2: int)
    requires
        0 <= off,
        off + 45 <= d.len(),
        0 <= off2,
        off2 + 45 <= d.len(),
        off2 + 45 <= off || off + 45 <= off2,
        e.name.len() == 32,
    ensures
        decode_entry(put_entry(d, off, e), off2) == decode_entry(d, off2),
{
    let p = put_entry(d, off, e);
    assert(encode_entry(e).len() == 45);
    assert forall|k: int| off2 <= k < off2 + 45 implies p[k] == d[k] by {}
    assert(p.subrange(off2 + 1, off2 + 33) =~= d.subrange(off2 + 1, off2 + 33));
}

/// Every prefix encoding is a whole table.
pub proof fn lemma_encode_table_len(t: Seq<EntryView>, n: nat)
    requires
        n <= 64,
        n <= t.len(),
        names_sized(t),
    ensures
        encode_table_prefix(t, n).len() == TABLE_BYTES,
    decreases n,
{
    if n > 0 {
        lemma_encode_table_len(t, (n - 1) as nat);
        assert(t[n - 1].name.len() == 32);
        assert(encode_entry(t[n - 1]).len() == 45);
    }
}

/// Every prefix encoding is a whole table, and its entries read back.
pub proof fn lemma_encode_table_prefix(t: Seq<EntryView>, n: nat)
    requires
        n <= 64,
        n <= t.len(),
        names_sized(t),
    ensures
        encode_table_prefix(t, n).len() == TABLE_BYTES,
        forall|i: int| 0 <= i < n ==> decode_entry(encode_table_prefix(t, n), 45 * i) == t[i],
    decreases n,
{
    if n > 0 {
        let m = (n - 1) as nat;
        lemma_encode_table_prefix(t, m);
        let d = encode_table_prefix(t, m);
        assert(t[m as int].name.len() == 32);
        lemma_put_entry_same(d, 45 * (m as int), t[m as int]);
        assert forall|i: int| 0 <= i < n implies decode_entry(encode_table_prefix(t, n), 45 * i)
            == t[i] by {
            if i < m {
                lemma_put_entry_other(d, 45 * (m as int), t[m as int], 45 * i);
            }
        }
    }
}

/// Decoding an encoded table gives it back.
pub proof fn lemma_table_roundtrip(t: Seq<EntryView>)
    requires
        t.len() == FMS_MAX_FILES,
        names_sized(t),
    ensures
        encode_table(t).len() == TABLE_BYTES,
        decode_table(encode_table(t)) == t,
{
    reveal(encode_table);
    lemma_encode_table_prefix(t, 64);
    assert(decode_table(encode_table(t)) =~= t);
}

/// Reads entry number `idx` out of the table bytes.
pub fn decode_entry_at(bytes: &[u8; TABLE_BYTES], idx: usize) -> (e: FmsFileEntry)
    requires
        idx < FMS_MAX_FILES,
    ensures
        e@ == decode_entry(bytes@, 45 * idx),
{
    let off = idx * FILE_ENTRY_BYTES;
    let mut name = [0u8; FMS_FILENAME_MAX];
    let mut j: usize = 0;
    while j < FMS_FILENAME_MAX
        invariant
            off == 45 * idx,
            idx < 64,
            j <= 32,
            bytes@.len() == 4096,
            name@.len() == 32,
            forall|k: int| 0 <= k < j ==> name@[k] == bytes@[off + 1 + k],
        decreases 32 - j,
    {
        name[j] = bytes[off + 1 + j];
        j = j + 1;
    }
    let e = FmsFileEntry {
        used: bytes[off] != 0,
        name,
        start_block: read_u32(bytes, off + 1 + FMS_FILENAME_MAX),
        block_count: read_u32(bytes, off + 1 + FMS_FILENAME_MAX + 4),
        size: read_u32(bytes, off + 1 + FMS_FILENAME_MAX + 8),
    };
    assert(e.name@ =~= bytes@.subrange(off + 1, off + 33));
    e
}

/// Reads the whole file table out of its bytes.
pub fn decode_table_bytes(bytes: &[u8; TABLE_BYTES]) -> (t: [FmsFileEntry; FMS_MAX_FILES])
    ensures
        table_view(t) == decode_table(bytes@),
{
    let mut out = [FmsFileEntry::empty();FMS_MAX_FILES];
    let mut i: usize = 0;
    while i < FMS_MAX_FILES
        invariant
            i <= 64,
            out@.len() == 64,
            forall|k: int| 0 <= k < i ==> out@[k]@ == decode_entry(bytes@, 45 * k),
        decreases 64 - i,
    {
        let e = decode_entry_at(bytes, i);
        out[i] = e;
        i = i + 1;
    }
    assert(table_view(out) =~= decode_table(bytes@));
    out
}

/// Stores entry `e` as entry number `idx` of the table bytes.
pub fn encode_entry_at(out: &mut [u8; TABLE_BYTES], idx: usize, e: &FmsFileEntry)
    requires
        idx < FMS_MAX_FILES,
    ensures
        final(out)@ == put_entry(old(out)@, 45 * idx, e@),
{
    let off = idx * FILE_ENTRY_BYTES;
    out[off] = if e.used { 1 } else { 0 };
    let mut j: usize = 0;
    while j < FMS_FILENAME_MAX
        invariant
            off == 45 * idx,
            idx < 64,
            j <= 32,
            out@.len() == 4096,
            e.name@.len() == 32,
            out@[off as int] == (if e.used { 1u8 } else { 0u8 }),
            forall|k: int| 0 <= k < j ==> out@[off + 1 + k] == e.name@[k],
            forall|k: int| 0 <= k < off ==> out@[k] == old(out)@[k],
            forall|k: int| off + 1 + j <= k < 4096 ==> out@[k] == old(out)@[k],
        decreases 32 - j,
    {
        out[off + 1 + j] = e.name[j];
        j = j + 1;
    }
    write_u32(out, off + 1 + FMS_FILENAME_MAX, e.start_block);
    write_u32(out, off + 1 + FMS_FILENAME_MAX + 4, e.block_count);
    write_u32(out, off + 1 + FMS_FILENAME_MAX + 8, e.size);
    assert(out@ =~= put_entry(old(out)@, 45 * idx, e@));
}

/// The bytes of the file table that holds `entries`.
pub fn encode_table_bytes(entries: &[FmsFileEntry; FMS_MAX_FILES]) -> (b: [u8; TABLE_BYTES])
    ensures
        b@ == encode_table(table_view(*entries)),
{
    let mut out = [0u8; TABLE_BYTES];
    assert(out@ =~= encode_table_prefix(table_view(*entries), 0));
    let mut i: usize = 0;
    while i < FMS_MAX_FILES
        invariant
            i <= 64,
            out@ == encode_table_prefix(table_view(*entries), i as nat),
        decreases 64 - i,
    {
        encode_entry_at(&mut out, i, &entries[i]);
        i = i + 1;
    }
    proof {
        reveal(encode_table);
    }
    out
}

} // verus!
