//! The kernel's filesystem shell: reading a command line, and running it against a
//! filesystem on a RAM disk.
use crate::text::{
    find_char, find_char_from, first_non_ws_from, last_non_ws_before, lemma_encode_subrange_len,
    lemma_first_non_ws, lemma_last_non_ws, str_eq, str_from_utf8, strip_prefix_str, trim_str,
    trimmed,
};
use crate::console::{
    cleared_screen, color_of, line_written, newline, out, printed, sent, Console, ConsoleView, COLOR_BLACK,
    COLOR_LIGHT_BLUE, COLOR_LIGHT_CYAN, COLOR_LIGHT_GREEN, COLOR_LIGHT_RED, COLOR_RED, COLOR_YELLOW,
};
use crate::device::{BlockDevice, RamDisk};
use crate::fs::{error_text, fms_strerror, Fms};
use crate::layout::{
    entry_name, fresh_superblock, EntryView, FmsError, FmsFileEntry, FmsSuperblock, FMS_BLOCK_SIZE,
    FMS_MAX_FILES,
};
use crate::laws::law_wf_operable;
use crate::memory::{PagePool, PhysicalMemory, PAGE_SIZE};
use crate::table::{blocks_for, first_free, first_named, fit_exists, name_valid};
use crate::terminal::{
    line_text, parse_terminal_command, split3, terminal_command_of, TerminalCommand, TerminalView,
    UsageOf,
};
use crate::model::{
    blocks_concat, cleared, disk_table, first_fit, fs_files, fs_sound, fs_wf, names_distinct,
    new_entry, no_zero_byte, padded, used_entries, write_slot,
};
use crate::text::decimal;
use vstd::prelude::*;
use vstd::string::{StrSliceExecFns, StringSliceAdditionalSpecFns};

verus! {

/// A command line of the kernel shell.
pub enum ShellCommand {
    /// The line is not UTF-8.
    BadEncoding,
    /// The line is blank.
    Empty,
    Help,
    Mkfs,
    Files,
    Pmm,
    Halt,
    Open(String),
    Delete(String),
    Info(String),
    /// `save` with what follows it: a name, a space, and the text to store.
    Save(String),
    Unknown,
}

/// The characters of a line of bytes read as UTF-8.
pub open spec fn line_chars(line: Seq<u8>) -> Seq<char> {
    vstd::utf8::decode_utf8(line)
}

/// Whether `s` starts with `p`.
pub open spec fn has_prefix(s: Seq<char>, p: Seq<char>) -> bool {
    p.len() <= s.len() && s.subrange(0, p.len() as int) == p
}

/// `s` after its first `n` characters.
pub open spec fn after(s: Seq<char>, n: int) -> Seq<char> {
    s.subrange(n, s.len() as int)
}

/// The mathematical content of a shell command.
pub enum CommandView {
    BadEncoding,
    Empty,
    Help,
    Mkfs,
    Files,
    Pmm,
    Halt,
    Open(Seq<char>),
    Delete(Seq<char>),
    Info(Seq<char>),
    Save(Seq<char>),
    Unknown,
}

impl View for ShellCommand {
    type V = CommandView;

    open spec fn view(&self) -> CommandView {
        match self {
            ShellCommand::BadEncoding => CommandView::BadEncoding,
            ShellCommand::Empty => CommandView::Empty,
            ShellCommand::Help => CommandView::Help,
            ShellCommand::Mkfs => CommandView::Mkfs,
            ShellCommand::Files => CommandView::Files,
            ShellCommand::Pmm => CommandView::Pmm,
            ShellCommand::Halt => CommandView::Halt,
            ShellCommand::Open(n) => CommandView::Open(n@),
            ShellCommand::Delete(n) => CommandView::Delete(n@),
            ShellCommand::Info(n) => CommandView::Info(n@),
            ShellCommand::Save(r) => CommandView::Save(r@),
            ShellCommand::Unknown => CommandView::Unknown,
        }
    }
}

/// The command a shell line asks for. The line is trimmed; whole words come first, then
/// `open `, `delete `, `info ` and `save ` with an argument.
pub open spec fn command_of(line: Seq<u8>) -> CommandView {
    let cmd = trimmed(line_chars(line));
    if !vstd::utf8::valid_utf8(line) {
        CommandView::BadEncoding
    } else if cmd.len() == 0 {
        CommandView::Empty
    } else if cmd == "help"@ {
        CommandView::Help
    } else if cmd == "mkfs"@ {
        CommandView::Mkfs
    } else if cmd == "files"@ {
        CommandView::Files
    } else if cmd == "pmm"@ {
        CommandView::Pmm
    } else if cmd == "halt"@ {
        CommandView::Halt
    } else if has_prefix(cmd, "open "@) {
        CommandView::Open(trimmed(after(cmd, 5)))
    } else if has_prefix(cmd, "delete "@) {
        CommandView::Delete(trimmed(after(cmd, 7)))
    } else if has_prefix(cmd, "info "@) {
        CommandView::Info(trimmed(after(cmd, 5)))
    } else if has_prefix(cmd, "save "@) {
        CommandView::Save(after(cmd, 5))
    } else {
        CommandView::Unknown
    }
}

/// What follows `save ` on a valid line takes no more bytes than the line.
pub proof fn lemma_save_rest_len(line: Seq<u8>)
    requires
        command_of(line) is Save,
    ensures
        vstd::utf8::encode_utf8(command_of(line)->Save_0).len() <= line.len(),
{
    let text = line_chars(line);
    vstd::utf8::decode_utf8_encode_utf8(line);
    let a = first_non_ws_from(text, 0);
    lemma_first_non_ws(text, 0);
    lemma_last_non_ws(text, a, text.len() as int);
    let b = last_non_ws_before(text, a, text.len() as int);
    lemma_encode_subrange_len(text, a, b);
    let cmd = trimmed(text);
    reveal_strlit("save ");
    lemma_encode_subrange_len(cmd, 5, cmd.len() as int);
}

/// The command a shell line asks for.
pub fn parse_shell_command(line: &[u8]) -> (c: ShellCommand)
    ensures
        c@ == command_of(line@),
{
    proof {
        reveal_strlit("open ");
        reveal_strlit("delete ");
        reveal_strlit("info ");
        reveal_strlit("save ");
        assert("open "@.len() == 5 && "delete "@.len() == 7 && "info "@.len() == 5 && "save "@.len()
            == 5);
    }
    let text = match str_from_utf8(line) {
        Some(t) => t,
        None => return ShellCommand::BadEncoding,
    };
    proof {
        vstd::utf8::encode_utf8_decode_utf8(text@);
        assert(text@ == line_chars(line@));
    }
    let command = trim_str(text);
    if command.unicode_len() == 0 {
        return ShellCommand::Empty;
    }
    if str_eq(command, "help") {
        return ShellCommand::Help;
    }
    if str_eq(command, "mkfs") {
        return ShellCommand::Mkfs;
    }
    if str_eq(command, "files") {
        return ShellCommand::Files;
    }
    if str_eq(command, "pmm") {
        return ShellCommand::Pmm;
    }
    if str_eq(command, "halt") {
        return ShellCommand::Halt;
    }
    if let Some(name) = strip_prefix_str(command, "open ") {
        return ShellCommand::Open(String::from_str(trim_str(name)));
    }
    if let Some(name) = strip_prefix_str(command, "delete ") {
        return ShellCommand::Delete(String::from_str(trim_str(name)));
    }
    if let Some(name) = strip_prefix_str(command, "info ") {
        return ShellCommand::Info(String::from_str(trim_str(name)));
    }
    if let Some(rest) = strip_prefix_str(command, "save ") {
        return ShellCommand::Save(String::from_str(rest));
    }
    ShellCommand::Unknown
}

pub const RAM_DISK_BLOCKS: u32 = 1024;
pub const RAM_DISK_PAGES: usize = 128;
pub const INPUT_BUFFER_SIZE: usize = 256;

/// The short message the shell shows for `err`.
pub open spec fn shell_error_text(err: FmsError) -> Seq<u8> {
    match err {
        FmsError::Io => "io error".spec_bytes(),
        FmsError::BadFs => "invalid filesystem".spec_bytes(),
        FmsError::NotFound => "not found".spec_bytes(),
        FmsError::Exists => "exists".spec_bytes(),
        FmsError::NoSpace => "no space".spec_bytes(),
        FmsError::BadName => "bad name".spec_bytes(),
        FmsError::TooLarge => "too large".spec_bytes(),
    }
}

/// The short message the shell shows for `err`.
pub fn fms_err(err: FmsError) -> (s: &'static str)
    ensures
        s.spec_bytes() == shell_error_text(err),
{
    match err {
        FmsError::Io => "io error",
        FmsError::BadFs => "invalid filesystem",
        FmsError::NotFound => "not found",
        FmsError::Exists => "exists",
        FmsError::NoSpace => "no space",
        FmsError::BadName => "bad name",
        FmsError::TooLarge => "too large",
    }
}

/// A line sent and printed, then a new row.
pub open spec fn out_line(v: crate::console::ConsoleView, s: Seq<u8>) -> crate::console::ConsoleView {
    line_written(v, s)
}

/// A failure report: `what`, then the error's message on the same line.
pub open spec fn failure(v: crate::console::ConsoleView, what: Seq<u8>, err: FmsError) -> crate::console::ConsoleView {
    out_line(sent(v, what), shell_error_text(err))
}

/// The listing line of one file: name, size, first block and block count.
pub open spec fn entry_line(v: crate::console::ConsoleView, e: EntryView) -> crate::console::ConsoleView {
    let v1 = sent(sent(sent(v, entry_name(e)), "  size=".spec_bytes()), decimal(e.size as nat));
    let v2 = sent(sent(v1, "  start=".spec_bytes()), decimal(e.start_block as nat));
    out_line(sent(sent(v2, "  blocks=".spec_bytes()), decimal(e.block_count as nat)), Seq::empty())
}

/// The listing lines of `es`, in order.
pub open spec fn listing(v: crate::console::ConsoleView, es: Seq<EntryView>) -> crate::console::ConsoleView
    decreases es.len(),
{
    if es.len() == 0 {
        v
    } else {
        entry_line(listing(v, es.drop_last()), es.last())
    }
}

/// The report of `info`: one line each for name, size, first block and block count.
pub open spec fn info_report(v: crate::console::ConsoleView, e: EntryView) -> crate::console::ConsoleView {
    let v1 = out_line(sent(sent(v, "name: ".spec_bytes()), entry_name(e)), Seq::empty());
    let v2 = out_line(sent(sent(v1, "size: ".spec_bytes()), decimal(e.size as nat)), Seq::empty());
    let v3 = out_line(
        sent(sent(v2, "start_block: ".spec_bytes()), decimal(e.start_block as nat)),
        Seq::empty(),
    );
    out_line(sent(sent(v3, "blocks: ".spec_bytes()), decimal(e.block_count as nat)), Seq::empty())
}

/// The list of the shell's commands, a line each.
pub open spec fn help_text(v: crate::console::ConsoleView) -> crate::console::ConsoleView {
    let v1 = out_line(out_line(out_line(v, "commands:".spec_bytes()), "  help".spec_bytes()), "  mkfs".spec_bytes());
    let v2 = out_line(out_line(v1, "  files".spec_bytes()), "  save <name> <text>".spec_bytes());
    let v3 = out_line(out_line(v2, "  open <name>".spec_bytes()), "  info <name>".spec_bytes());
    out_line(out_line(out_line(v3, "  delete <name>".spec_bytes()), "  pmm".spec_bytes()), "  halt".spec_bytes())
}

/// The page allocator's report: page size, pages used, RAM disk pages and RAM disk address
/// (its low 32 bits), a line each.
pub open spec fn pmm_report(v: crate::console::ConsoleView, pages_used: nat, disk_addr: usize) -> crate::console::ConsoleView {
    let v1 = out_line(sent(sent(v, "page_size: ".spec_bytes()), decimal(PAGE_SIZE as nat)), Seq::empty());
    let v2 = out_line(sent(sent(v1, "pages_used: ".spec_bytes()), decimal(pages_used)), Seq::empty());
    let v3 = out_line(
        sent(sent(v2, "ram_disk_pages: ".spec_bytes()), decimal(RAM_DISK_PAGES as nat)),
        Seq::empty(),
    );
    out_line(sent(sent(v3, "ram_disk_ptr: ".spec_bytes()), decimal((disk_addr as u32) as nat)), Seq::empty())
}

/// What `files` shows: the listing of the used slots, a note that there is none, or that
/// there is no filesystem.
pub open spec fn files_report(
    files: Option<Map<Seq<u8>, Seq<u8>>>,
    table: Seq<EntryView>,
    v0: ConsoleView,
    v1: ConsoleView,
) -> bool {
    let listed = used_entries(table);
    if files is None {
        v1 == out_line(v0, "filesystem not initialized".spec_bytes())
    } else if listed.len() == 0 {
        v1 == out_line(v0, "(no files)".spec_bytes())
    } else {
        v1 == listing(v0, listed)
    }
}

/// What `open` shows for the file called `name`.
pub open spec fn open_report(
    files: Option<Map<Seq<u8>, Seq<u8>>>,
    name: Seq<char>,
    v0: ConsoleView,
    v1: ConsoleView,
) -> bool {
    let nb = vstd::utf8::encode_utf8(name);
    if name.len() == 0 {
        v1 == out_line(v0, "usage: open <name>".spec_bytes())
    } else if files is None {
        v1 == out_line(v0, "filesystem not initialized".spec_bytes())
    } else if !name_valid(nb) {
        v1 == failure(v0, "open failed: ".spec_bytes(), FmsError::BadName)
    } else if !files->0.dom().contains(nb) {
        v1 == failure(v0, "open failed: ".spec_bytes(), FmsError::NotFound)
    } else if files->0[nb].len() > INPUT_BUFFER_SIZE {
        v1 == out_line(v0, "file too large for shell output buffer".spec_bytes())
    } else {
        v1 == out_line(sent(v0, files->0[nb]), Seq::empty())
    }
}

/// What `info` shows for the file called `name`.
pub open spec fn info_shown(
    files: Option<Map<Seq<u8>, Seq<u8>>>,
    table: Seq<EntryView>,
    name: Seq<char>,
    v0: ConsoleView,
    v1: ConsoleView,
) -> bool {
    let nb = vstd::utf8::encode_utf8(name);
    if name.len() == 0 {
        v1 == out_line(v0, "usage: info <name>".spec_bytes())
    } else if files is None {
        v1 == out_line(v0, "filesystem not initialized".spec_bytes())
    } else if !name_valid(nb) {
        v1 == failure(v0, "info failed: ".spec_bytes(), FmsError::BadName)
    } else if !files->0.dom().contains(nb) {
        v1 == failure(v0, "info failed: ".spec_bytes(), FmsError::NotFound)
    } else {
        v1 == info_report(v0, table[first_named(table, nb)])
    }
}

/// What `delete` shows for the file called `name`.
pub open spec fn delete_report(
    files: Option<Map<Seq<u8>, Seq<u8>>>,
    name: Seq<char>,
    v0: ConsoleView,
    v1: ConsoleView,
) -> bool {
    let nb = vstd::utf8::encode_utf8(name);
    if name.len() == 0 {
        v1 == out_line(v0, "usage: delete <name>".spec_bytes())
    } else if files is None {
        v1 == out_line(v0, "filesystem not initialized".spec_bytes())
    } else if !name_valid(nb) {
        v1 == failure(v0, "delete failed: ".spec_bytes(), FmsError::BadName)
    } else if !files->0.dom().contains(nb) {
        v1 == failure(v0, "delete failed: ".spec_bytes(), FmsError::NotFound)
    } else {
        v1 == out_line(v0, "deleted".spec_bytes())
    }
}

/// The name a `save` argument gives: what precedes its first space, trimmed.
pub open spec fn save_name(rest: Seq<char>) -> Seq<u8> {
    vstd::utf8::encode_utf8(trimmed(rest.subrange(0, find_char_from(rest, ' ', 0))))
}

/// The text a `save` argument gives: what follows its first space.
pub open spec fn save_text(rest: Seq<char>) -> Seq<u8> {
    let sp = find_char_from(rest, ' ', 0);
    vstd::utf8::encode_utf8(rest.subrange(sp + 1, rest.len() as int))
}

/// Whether a `save` argument lacks a space, a name or a text.
pub open spec fn save_usage(rest: Seq<char>) -> bool {
    find_char_from(rest, ' ', 0) >= rest.len() || save_name(rest).len() == 0 || save_text(
        rest,
    ).len() == 0
}

/// What `save` shows for the argument `rest`, on shell `s`.
pub open spec fn save_report(s: KernelShell, rest: Seq<char>, v0: ConsoleView, v1: ConsoleView) -> bool {
    let name = save_name(rest);
    let data = save_text(rest);
    if save_usage(rest) {
        v1 == out_line(v0, "usage: save <name> <text>".spec_bytes())
    } else if s.files() is None {
        v1 == out_line(v0, "filesystem not initialized".spec_bytes())
    } else if !name_valid(name) {
        v1 == failure(v0, "save failed: ".spec_bytes(), FmsError::BadName)
    } else if !s.has_room(name, data.len()) {
        v1 == failure(v0, "save failed: ".spec_bytes(), FmsError::NoSpace)
    } else {
        v1 == out_line(v0, "saved".spec_bytes())
    }
}

/// On a freshly formatted shell, a file of `size` bytes that fits the data area has room, and
/// is placed at block 9, the first block after the file table.
pub proof fn law_fresh_shell_placement(s: KernelShell, name: Seq<u8>, size: nat)
    requires
        s.layout() == Some(fresh_superblock(RAM_DISK_BLOCKS)),
        s.table_empty(),
        0 < size,
        blocks_for(size as int) <= RAM_DISK_BLOCKS - 9,
    ensures
        s.has_room(name, size),
        s.placement(name, size) == 9,
{
    let t = s.table();
    let n = blocks_for(size as int);
    assert(n > 0);
    crate::laws::law_first_file_placement(t, name, 9, RAM_DISK_BLOCKS as int, n);
    crate::table::lemma_first_named(t, name, 0);
    crate::table::lemma_first_free(t, 0);
    assert(!t[0].used);
    assert(first_free(t) == 0);
    let c = cleared(t, name);
    assert(crate::table::is_first_fit(c, 9, RAM_DISK_BLOCKS as int, n, 9));
}

/// The filesystem shell of the kernel: a RAM disk and, once formatted, the filesystem on it.
pub struct KernelShell {
    fs: Option<Fms>,
    disk: RamDisk,
    ram_disk_addr: usize,
}

/// What the filesystem shell does with `line`, taking shell `s0` and screen `v0` to `s1` and
/// `v1`, given the page pool `pool`.
pub open spec fn command_effect(
    s0: KernelShell,
    s1: KernelShell,
    pool: PagePool,
    line: Seq<u8>,
    v0: ConsoleView,
    v1: ConsoleView,
) -> bool {
    match command_of(line) {
        CommandView::BadEncoding => s1.same_as(s0) && v1 == out_line(
            v0,
            "invalid input encoding".spec_bytes(),
        ),
        CommandView::Empty => s1.same_as(s0) && v1 == v0,
        CommandView::Help => s1.same_as(s0) && v1 == help_text(v0),
        CommandView::Halt => s1.same_as(s0) && v1 == out_line(v0, "halting".spec_bytes()),
        CommandView::Unknown => s1.same_as(s0) && v1 == out_line(v0, "unknown command".spec_bytes()),
        CommandView::Pmm => s1.same_as(s0) && v1 == pmm_report(
            v0,
            pool.used() / (PAGE_SIZE as nat),
            s0.disk_addr(),
        ),
        CommandView::Files => s1.same_as(s0) && files_report(s0.files(), s0.table(), v0, v1),
        CommandView::Open(name) => s1.same_as(s0) && open_report(s0.files(), name, v0, v1),
        CommandView::Info(name) => s1.same_as(s0) && info_shown(s0.files(), s0.table(), name, v0, v1),
        CommandView::Mkfs => (s0.disk_ready() ==> s1.files() == Some(Map::<Seq<u8>, Seq<u8>>::empty())
            && s1.layout() == Some(fresh_superblock(RAM_DISK_BLOCKS)) && s1.table_empty()
            && s1.names_unique() && v1 == out_line(v0, "filesystem formatted".spec_bytes())) && (
        !s0.disk_ready() ==> s1.same_as(s0) && v1 == failure(
            v0,
            "mkfs failed: ".spec_bytes(),
            FmsError::Io,
        )),
        CommandView::Delete(name) => delete_report(s0.files(), name, v0, v1) && ({
            let nb = vstd::utf8::encode_utf8(name);
            let done = name.len() > 0 && s0.files() is Some && name_valid(nb)
                && s0.files()->0.dom().contains(nb);
            &&& !done ==> s1.same_as(s0)
            &&& done && s0.names_unique() ==> s1.names_unique()
                && s1.files() == Some(s0.files()->0.remove(nb))
        }),
        CommandView::Save(rest) => save_report(s0, rest, v0, v1) && ({
            let name = save_name(rest);
            let data = save_text(rest);
            let done = !save_usage(rest) && s0.files() is Some && name_valid(name)
                && s0.has_room(name, data.len());
            &&& !done ==> s1.same_as(s0)
            &&& done && no_zero_byte(name) && s0.names_unique()
                ==> s1.names_unique() && s1.files() == Some(
                s0.files()->0.insert(name, data),
            )
        }),
    }
}

impl KernelShell {
    /// What the shell keeps true: the RAM disk is absent or whole, and a filesystem, when
    /// there is one, is mounted and well formed on it.
    pub closed spec fn wf(&self) -> bool {
        let d = self.disk.blocks();
        &&& (d.len() == 0 || d.len() == RAM_DISK_BLOCKS)
        &&& (self.fs matches Some(f) ==> f.is_mounted() && fs_sound(f.sb(), d))
    }

    /// The files of the filesystem, if there is one.
    pub closed spec fn files(&self) -> Option<Map<Seq<u8>, Seq<u8>>> {
        match self.fs {
            Some(f) => Some(fs_files(f.sb(), self.disk.blocks())),
            None => None,
        }
    }

    /// The files slot by slot, if there is a filesystem.
    pub closed spec fn table(&self) -> Seq<EntryView> {
        match self.fs {
            Some(f) => disk_table(f.sb(), self.disk.blocks()),
            None => Seq::empty(),
        }
    }

    /// Whether `self` holds the same disk and filesystem as `other`.
    pub closed spec fn same_as(&self, other: Self) -> bool {
        &&& self.fs == other.fs
        &&& self.disk.blocks() == other.disk.blocks()
        &&& self.ram_disk_addr == other.ram_disk_addr
    }

    /// Whether no name is carried twice in the file table.
    pub closed spec fn names_unique(&self) -> bool {
        names_distinct(self.table())
    }

    /// Whether a file called `name` of `size` bytes can be stored: a slot for the name and,
    /// once the slot the name holds is cleared, enough contiguous free data blocks.
    pub open spec fn has_room(&self, name: Seq<u8>, size: nat) -> bool {
        match self.layout() {
            Some(sb) => {
                let t = self.table();
                let n = blocks_for(size as int);
                write_slot(t, name) < t.len() && (n == 0 || fit_exists(
                    cleared(t, name),
                    sb.data_start as int,
                    sb.total_blocks as int,
                    n,
                ))
            },
            None => false,
        }
    }

    /// Whether the filesystem's table has all its slots and none of them used.
    pub open spec fn table_empty(&self) -> bool {
        &&& self.table().len() == FMS_MAX_FILES
        &&& forall|i: int| 0 <= i < FMS_MAX_FILES ==> !(#[trigger] self.table()[i]).used
    }

    /// The superblock of the filesystem, if there is one.
    pub closed spec fn layout(&self) -> Option<FmsSuperblock> {
        match self.fs {
            Some(f) => Some(f.sb()),
            None => None,
        }
    }

    /// The blocks of the RAM disk.
    pub closed spec fn disk_blocks(&self) -> Seq<[u8; FMS_BLOCK_SIZE]> {
        self.disk.blocks()
    }

    /// The first block a file called `name` of `size` bytes is placed at: the data area's
    /// start for an empty file, else the first free run of its blocks once the slot the name
    /// holds is cleared.
    pub open spec fn placement(&self, name: Seq<u8>, size: nat) -> int {
        match self.layout() {
            Some(sb) => {
                let n = blocks_for(size as int);
                if n == 0 {
                    sb.data_start as int
                } else {
                    first_fit(cleared(self.table(), name), sb.data_start as int, sb.total_blocks as int, n)
                }
            },
            None => 0,
        }
    }

    /// Whether the RAM disk was allocated.
    pub closed spec fn disk_ready(&self) -> bool {
        self.disk.blocks().len() == RAM_DISK_BLOCKS
    }

    /// Where the RAM disk is in memory.
    pub closed spec fn disk_addr(&self) -> usize {
        self.ram_disk_addr
    }

    /// Allocates the RAM disk from `pool` and formats it; reports when the pool is too small.
    pub fn init(pool: &mut PagePool, console: &mut Console) -> (s: Self)
        requires
            old(pool).wf(),
            old(console).wf(),
        ensures
            s.wf(),
            final(pool).wf(),
            final(console).wf(),
            final(pool).base_addr() == old(pool).base_addr(),
            RAM_DISK_PAGES * PAGE_SIZE <= crate::memory::MEMORY_POOL_SIZE - old(pool).used() ==> {
                &&& s.disk_ready()
                &&& s.files() == Some(Map::<Seq<u8>, Seq<u8>>::empty())
                &&& s.layout() == Some(fresh_superblock(RAM_DISK_BLOCKS))
                &&& s.table_empty()
                &&& s.names_unique()
                &&& s.disk_addr() == old(pool).base_addr() + old(pool).used()
                &&& final(pool).used() == old(pool).used() + RAM_DISK_PAGES * PAGE_SIZE
                &&& final(console)@ == old(console)@
            },
            RAM_DISK_PAGES * PAGE_SIZE > crate::memory::MEMORY_POOL_SIZE - old(pool).used() ==> {
                &&& !s.disk_ready()
                &&& s.files() is None
                &&& s.disk_addr() == 0
                &&& final(pool).used() == old(pool).used()
                &&& final(console)@ == out_line(
                    old(console)@,
                    "filesystem init failed: out of PMM pages".spec_bytes(),
                )
            },
    {
        let base = match pool.alloc_pages(RAM_DISK_PAGES) {
            Some(b) => b,
            None => {
                console.write_line("filesystem init failed: out of PMM pages");
                let disk = RamDisk::new(0);
                return KernelShell { fs: None, disk, ram_disk_addr: 0 };
            },
        };
        let mut disk = RamDisk::new(RAM_DISK_BLOCKS);
        let fs = match Fms::format(&mut disk, RAM_DISK_BLOCKS) {
            Ok(fs) => Some(fs),
            Err(_) => None,
        };
        KernelShell { fs, disk, ram_disk_addr: base }
    }

    /// Formats the RAM disk afresh.
    pub fn cmd_mkfs(&mut self, console: &mut Console) -> (r: Result<(), FmsError>)
        requires
            old(self).wf(),
            old(console).wf(),
        ensures
            final(self).wf(),
            final(console).wf(),
            final(self).disk_ready() == old(self).disk_ready(),
            final(self).disk_addr() == old(self).disk_addr(),
            r is Ok <==> old(self).disk_ready(),
            r is Ok ==> final(self).files() == Some(Map::<Seq<u8>, Seq<u8>>::empty())
                && final(self).layout() == Some(fresh_superblock(RAM_DISK_BLOCKS))
                && final(self).table_empty() && final(self).names_unique() && final(console)@
                == out_line(
                old(console)@,
                "filesystem formatted".spec_bytes(),
            ),
            r matches Err(e) ==> final(self).same_as(*old(self)) && final(console)@
                == failure(old(console)@, "mkfs failed: ".spec_bytes(), e),
            r is Err ==> r == Err::<(), FmsError>(FmsError::Io),
    {
        match Fms::format(&mut self.disk, RAM_DISK_BLOCKS) {
            Ok(fs) => {
                self.fs = Some(fs);
                console.write_line("filesystem formatted");
                Ok(())
            },
            Err(err) => {
                assert(self.disk.blocks() =~= old(self).disk.blocks());
                console.write("mkfs failed: ");
                console.write_line(fms_err(err));
                Err(err)
            },
        }
    }

    /// Lists the files: name, size, first block and block count of each, in table order.
    pub fn cmd_files(&mut self, console: &mut Console) -> (r: Option<Result<usize, FmsError>>)
        requires
            old(self).wf(),
            old(console).wf(),
        ensures
            final(self).wf(),
            final(console).wf(),
            final(self).same_as(*old(self)),
            final(self).files() == old(self).files(),
            final(self).table() == old(self).table(),
            final(self).disk_ready() == old(self).disk_ready(),
            final(self).disk_addr() == old(self).disk_addr(),
            old(self).files() is None ==> r is None && final(console)@ == out_line(
                old(console)@,
                "filesystem not initialized".spec_bytes(),
            ),
            files_report(old(self).files(), old(self).table(), old(console)@, final(console)@),
            old(self).files() is Some ==> ({
                let listed = used_entries(old(self).table());
                &&& r == Some(Ok::<usize, FmsError>(listed.len() as usize))
                &&& listed.len() == 0 ==> final(console)@ == out_line(
                    old(console)@,
                    "(no files)".spec_bytes(),
                )
                &&& listed.len() > 0 ==> final(console)@ == listing(old(console)@, listed)
            }),
    {
        let mut fs = match self.fs.take() {
            Some(f) => f,
            None => {
                console.write_line("filesystem not initialized");
                return None;
            },
        };
        proof {
            law_wf_operable(fs.sb(), self.disk.blocks(), Seq::empty());
            crate::model::lemma_used_upto_len(disk_table(fs.sb(), self.disk.blocks()), 64);
            crate::model::lemma_disk_table_sized(fs.sb(), self.disk.blocks());
        }
        let ghost t = disk_table(fs.sb(), self.disk.blocks());
        let mut entries = [FmsFileEntry::empty();FMS_MAX_FILES];
        let mut count: usize = 0;
        let res = fs.list(&mut self.disk, &mut entries, &mut count);
        self.fs = Some(fs);
        match res {
            Ok(()) => {},
            Err(err) => {
                console.write("files failed: ");
                console.write_line(fms_err(err));
                return Some(Err(err));
            },
        }
        if count == 0 {
            console.write_line("(no files)");
            return Some(Ok(0));
        }
        let ghost listed = used_entries(t);
        let ghost v0 = console@;
        let mut i: usize = 0;
        while i < count
            invariant
                count == listed.len(),
                count <= 64,
                i <= count,
                entries@.len() == 64,
                forall|k: int| 0 <= k < count ==> (#[trigger] entries@[k])@ == listed[k],
                console.wf(),
                console@ == listing(v0, listed.take(i as int)),
            decreases count - i,
        {
            let entry = entries[i];
            assert(entry@ == listed[i as int]);
            assert(listed.take(i + 1).drop_last() =~= listed.take(i as int));
            console.write_bytes(entry.name_bytes());
            console.write("  size=");
            console.write_u32(entry.size);
            console.write("  start=");
            console.write_u32(entry.start_block);
            console.write("  blocks=");
            console.write_u32(entry.block_count);
            console.write_line("");
            proof {
                reveal_strlit("");
                assert("".spec_bytes() =~= Seq::<u8>::empty());
            }
            i = i + 1;
        }
        assert(listed.take(count as int) =~= listed);
        Some(Ok(count))
    }

    /// Stores the text after the first space of `rest` as the file named by what precedes it.
    pub fn cmd_save(&mut self, rest: &str, console: &mut Console) -> (r: Option<Result<(), FmsError>>)
        requires
            old(self).wf(),
            old(console).wf(),
            rest.spec_bytes().len() + 512 <= u32::MAX,
        ensures
            final(self).wf(),
            final(console).wf(),
            final(self).disk_ready() == old(self).disk_ready(),
            final(self).disk_addr() == old(self).disk_addr(),
            ({
                let sp = find_char_from(rest@, ' ', 0);
                let name = vstd::utf8::encode_utf8(trimmed(rest@.subrange(0, sp)));
                let data = vstd::utf8::encode_utf8(rest@.subrange(sp + 1, rest@.len() as int));
                let usage = sp >= rest@.len() || name.len() == 0 || data.len() == 0;
                &&& usage ==> r is None && final(self).same_as(*old(self)) && final(console)@
                    == out_line(old(console)@, "usage: save <name> <text>".spec_bytes())
                &&& !usage && old(self).files() is None ==> r is None && final(self).same_as(*old(self))
                    && final(console)@ == out_line(
                    old(console)@,
                    "filesystem not initialized".spec_bytes(),
                )
                &&& !usage && old(self).files() is Some ==> r is Some
                &&& (r matches Some(Ok(_))) ==> final(console)@ == out_line(
                    old(console)@,
                    "saved".spec_bytes(),
                ) && (no_zero_byte(name) && old(self).names_unique() ==> final(self).names_unique()
                    && final(self).files() == Some(old(self).files()->0.insert(name, data)))
                &&& r matches Some(Err(e)) ==> final(self).same_as(*old(self)) && final(console)@
                    == failure(old(console)@, "save failed: ".spec_bytes(), e) && (e
                    == FmsError::BadName || e == FmsError::NoSpace)
            }),
            save_report(*old(self), rest@, old(console)@, final(console)@),
            (r matches Some(Ok(_))) <==> !save_usage(rest@) && old(self).files() is Some && name_valid(
                save_name(rest@),
            ) && old(self).has_room(save_name(rest@), save_text(rest@).len()),
            (r matches Some(Ok(_))) ==> ({
                let name = save_name(rest@);
                let data = save_text(rest@);
                let t = old(self).table();
                let n = blocks_for(data.len() as int);
                let start = old(self).placement(name, data.len());
                &&& final(self).table() == cleared(t, name).update(
                    write_slot(t, name),
                    new_entry(name, start, n, data.len() as int),
                )
                &&& blocks_concat(final(self).disk_blocks(), start, n as nat) == padded(data, n as nat)
            }),
    {
        let n = rest.unicode_len();
        let space = match find_char(rest, ' ') {
            Some(i) => i,
            None => {
                console.write_line("usage: save <name> <text>");
                return None;
            },
        };
        let name = trim_str(rest.substring_char(0, space));
        let data_str = rest.substring_char(space + 1, n);
        let data = data_str.as_bytes();
        if name.unicode_len() == 0 || data.len() == 0 {
            proof {
                if name@.len() == 0 {
                    assert(vstd::utf8::encode_utf8(name@) =~= Seq::<u8>::empty());
                }
                if vstd::utf8::encode_utf8(name@).len() == 0 {
                    assert(name@.len() == 0) by {
                        if name@.len() > 0 {
                            assert(vstd::utf8::encode_scalar(name@[0] as u32).len() >= 1);
                        }
                    }
                }
            }
            console.write_line("usage: save <name> <text>");
            return None;
        }
        proof {
            assert(vstd::utf8::encode_utf8(name@).len() > 0) by {
                assert(vstd::utf8::encode_scalar(name@[0] as u32).len() >= 1);
            }
        }
        let mut fs = match self.fs.take() {
            Some(f) => f,
            None => {
                console.write_line("filesystem not initialized");
                return None;
            },
        };
        proof {
            crate::text::lemma_encode_subrange_len(rest@, space + 1, n as int);
            law_wf_operable(fs.sb(), self.disk.blocks(), name.spec_bytes());
        }
        let ghost sb0 = fs.sb();
        let ghost d0 = self.disk.blocks();
        let res = fs.write_file(&mut self.disk, name, data);
        proof {
            if res is Ok {
                crate::model::lemma_write_read_back(sb0, d0, fs.sb(), self.disk.blocks(), name.spec_bytes(), data@);
            }
        }
        self.fs = Some(fs);
        match res {
            Ok(()) => {
                console.write_line("saved");
                Some(Ok(()))
            },
            Err(err) => {
                console.write("save failed: ");
                console.write_line(fms_err(err));
                Some(Err(err))
            },
        }
    }

    /// Shows the file called `name`, when it fits the shell's output buffer.
    pub fn cmd_open(&mut self, name: &str, console: &mut Console) -> (r: Option<Result<usize, FmsError>>)
        requires
            old(self).wf(),
            old(console).wf(),
        ensures
            final(self).wf(),
            final(console).wf(),
            final(self).same_as(*old(self)),
            ({
                let nb = name.spec_bytes();
                &&& name@.len() == 0 ==> r is None && final(console)@ == out_line(
                    old(console)@,
                    "usage: open <name>".spec_bytes(),
                )
                &&& name@.len() > 0 && old(self).files() is None ==> r is None && final(console)@
                    == out_line(old(console)@, "filesystem not initialized".spec_bytes())
                &&& name@.len() > 0 && old(self).files() is Some ==> r is Some
                &&& r matches Some(Err(e)) ==> ({
                    let files = old(self).files()->0;
                    &&& !name_valid(nb) ==> e == FmsError::BadName
                    &&& name_valid(nb) && !files.dom().contains(nb) ==> e == FmsError::NotFound
                    &&& e == FmsError::TooLarge ==> final(console)@ == out_line(
                        old(console)@,
                        "file too large for shell output buffer".spec_bytes(),
                    )
                    &&& e != FmsError::TooLarge ==> final(console)@ == failure(
                        old(console)@,
                        "open failed: ".spec_bytes(),
                        e,
                    )
                })
                &&& r matches Some(Ok(n)) ==> ({
                    let files = old(self).files()->0;
                    &&& files.dom().contains(nb)
                    &&& n == files[nb].len()
                    &&& final(console)@ == out_line(sent(old(console)@, files[nb]), Seq::empty())
                })
                &&& old(self).files() is Some && name@.len() > 0 ==> ((r matches Some(Ok(_)))
                    <==> name_valid(nb) && old(self).files()->0.dom().contains(nb) && old(self).files()->0[nb].len() <= INPUT_BUFFER_SIZE)
            }),
            open_report(old(self).files(), name@, old(console)@, final(console)@),
    {
        if name.unicode_len() == 0 {
            console.write_line("usage: open <name>");
            return None;
        }
        let mut fs = match self.fs.take() {
            Some(f) => f,
            None => {
                console.write_line("filesystem not initialized");
                return None;
            },
        };
        let ghost d = self.disk.blocks();
        let ghost t = disk_table(fs.sb(), d);
        proof {
            law_wf_operable(fs.sb(), d, name.spec_bytes());
        }
        let stat = match fs.stat(&mut self.disk, name) {
            Ok(e) => e,
            Err(err) => {
                self.fs = Some(fs);
                console.write("open failed: ");
                console.write_line(fms_err(err));
                return Some(Err(err));
            },
        };
        proof {
            crate::laws::law_file_size(fs.sb(), d, name.spec_bytes());
        }
        if stat.size as usize > INPUT_BUFFER_SIZE {
            self.fs = Some(fs);
            console.write_line("file too large for shell output buffer");
            return Some(Err(FmsError::TooLarge));
        }
        let mut out_buf = [0u8; INPUT_BUFFER_SIZE];
        let mut read: usize = 0;
        let res = fs.read_file(&mut self.disk, name, &mut out_buf, &mut read);
        self.fs = Some(fs);
        match res {
            Ok(()) => {
                let shown = vstd::slice::slice_subrange(out_buf.as_slice(), 0, read);
                console.write_bytes(shown);
                console.write_line("");
                proof {
                    reveal_strlit("");
                    assert("".spec_bytes() =~= Seq::<u8>::empty());
                }
                Some(Ok(read))
            },
            Err(err) => {
                console.write("read failed: ");
                console.write_line(fms_err(err));
                Some(Err(err))
            },
        }
    }

    /// Deletes the file called `name`.
    pub fn cmd_delete(&mut self, name: &str, console: &mut Console) -> (r: Option<Result<(), FmsError>>)
        requires
            old(self).wf(),
            old(console).wf(),
        ensures
            final(self).wf(),
            final(console).wf(),
            final(self).disk_ready() == old(self).disk_ready(),
            final(self).disk_addr() == old(self).disk_addr(),
            ({
                let nb = name.spec_bytes();
                &&& name@.len() == 0 ==> r is None && final(self).same_as(*old(self)) && final(console)@
                    == out_line(old(console)@, "usage: delete <name>".spec_bytes())
                &&& name@.len() > 0 && old(self).files() is None ==> r is None && *final(self)
                    == *old(self) && final(console)@ == out_line(
                    old(console)@,
                    "filesystem not initialized".spec_bytes(),
                )
                &&& name@.len() > 0 && old(self).files() is Some ==> r is Some
                &&& r matches Some(Err(e)) ==> final(self).same_as(*old(self)) && final(console)@
                    == failure(old(console)@, "delete failed: ".spec_bytes(), e) && (!name_valid(
                    nb,
                ) ==> e == FmsError::BadName) && (name_valid(nb) ==> e == FmsError::NotFound
                    && !old(self).files()->0.dom().contains(nb))
                &&& (r matches Some(Ok(_))) ==> final(console)@ == out_line(
                    old(console)@,
                    "deleted".spec_bytes(),
                ) && (old(self).names_unique() ==> final(self).names_unique() && final(self).files()
                    == Some(old(self).files()->0.remove(nb)))
            }),
            delete_report(old(self).files(), name@, old(console)@, final(console)@),
            (r matches Some(Ok(_))) <==> name@.len() > 0 && old(self).files() is Some && name_valid(
                name.spec_bytes(),
            ) && old(self).files()->0.dom().contains(name.spec_bytes()),
    {
        if name.unicode_len() == 0 {
            console.write_line("usage: delete <name>");
            return None;
        }
        let mut fs = match self.fs.take() {
            Some(f) => f,
            None => {
                console.write_line("filesystem not initialized");
                return None;
            },
        };
        proof {
            law_wf_operable(fs.sb(), self.disk.blocks(), name.spec_bytes());
        }
        let res = fs.delete(&mut self.disk, name);
        self.fs = Some(fs);
        match res {
            Ok(()) => {
                console.write_line("deleted");
                Some(Ok(()))
            },
            Err(err) => {
                console.write("delete failed: ");
                console.write_line(fms_err(err));
                Some(Err(err))
            },
        }
    }

    /// Shows where the file called `name` is stored.
    pub fn cmd_info(&mut self, name: &str, console: &mut Console) -> (r: Option<Result<(), FmsError>>)
        requires
            old(self).wf(),
            old(console).wf(),
        ensures
            final(self).wf(),
            final(console).wf(),
            final(self).same_as(*old(self)),
            ({
                let nb = name.spec_bytes();
                let t = old(self).table();
                &&& name@.len() == 0 ==> r is None && final(console)@ == out_line(
                    old(console)@,
                    "usage: info <name>".spec_bytes(),
                )
                &&& name@.len() > 0 && old(self).files() is None ==> r is None && final(console)@
                    == out_line(old(console)@, "filesystem not initialized".spec_bytes())
                &&& name@.len() > 0 && old(self).files() is Some ==> r is Some
                &&& r matches Some(Err(e)) ==> final(console)@ == failure(
                    old(console)@,
                    "info failed: ".spec_bytes(),
                    e,
                ) && (!name_valid(nb) ==> e == FmsError::BadName) && (name_valid(nb) ==> e
                    == FmsError::NotFound && !old(self).files()->0.dom().contains(nb))
                &&& (r matches Some(Ok(_))) ==> old(self).files()->0.dom().contains(nb)
                    && final(console)@ == info_report(old(console)@, t[first_named(t, nb)])
            }),
            info_shown(old(self).files(), old(self).table(), name@, old(console)@, final(console)@),
    {
        if name.unicode_len() == 0 {
            console.write_line("usage: info <name>");
            return None;
        }
        let mut fs = match self.fs.take() {
            Some(f) => f,
            None => {
                console.write_line("filesystem not initialized");
                return None;
            },
        };
        proof {
            law_wf_operable(fs.sb(), self.disk.blocks(), name.spec_bytes());
        }
        let res = fs.stat(&mut self.disk, name);
        self.fs = Some(fs);
        match res {
            Ok(entry) => {
                console.write("name: ");
                console.write_bytes(entry.name_bytes());
                console.write_line("");
                console.write("size: ");
                console.write_u32(entry.size);
                console.write_line("");
                console.write("start_block: ");
                console.write_u32(entry.start_block);
                console.write_line("");
                console.write("blocks: ");
                console.write_u32(entry.block_count);
                console.write_line("");
                proof {
                    reveal_strlit("");
                    assert("".spec_bytes() =~= Seq::<u8>::empty());
                }
                Some(Ok(()))
            },
            Err(err) => {
                console.write("info failed: ");
                console.write_line(fms_err(err));
                Some(Err(err))
            },
        }
    }

    /// Shows the page allocator's figures and where the RAM disk is.
    pub fn cmd_pmm(&self, pool: &PagePool, console: &mut Console)
        requires
            old(console).wf(),
        ensures
            final(console).wf(),
            final(console)@ == pmm_report(
                old(console)@,
                pool.used() / (PAGE_SIZE as nat),
                self.disk_addr(),
            ),
    {
        console.write("page_size: ");
        console.write_usize(PAGE_SIZE);
        console.write_line("");
        console.write("pages_used: ");
        console.write_usize(pool.used_memory() / PAGE_SIZE);
        console.write_line("");
        console.write("ram_disk_pages: ");
        console.write_usize(RAM_DISK_PAGES);
        console.write_line("");
        console.write("ram_disk_ptr: ");
        console.write_u32(pool.virt_to_phys(self.ram_disk_addr) as u32);
        console.write_line("");
        proof {
            reveal_strlit("");
            assert("".spec_bytes() =~= Seq::<u8>::empty());
        }
    }

    /// Runs one command line. Returns whether the line asked to halt.
    pub fn handle_command(&mut self, line: &[u8], console: &mut Console, pool: &PagePool) -> (halt:
        bool)
        requires
            old(self).wf(),
            old(console).wf(),
            line@.len() + 512 <= u32::MAX,
        ensures
            final(self).wf(),
            final(console).wf(),
            final(self).disk_ready() == old(self).disk_ready(),
            final(self).disk_addr() == old(self).disk_addr(),
            halt == (command_of(line@) is Halt),
            command_effect(*old(self), *final(self), *pool, line@, old(console)@, final(console)@),
    {
        let command = parse_shell_command(line);
        match command {
            ShellCommand::BadEncoding => {
                console.write_line("invalid input encoding");
            },
            ShellCommand::Empty => {},
            ShellCommand::Help => {
                self.show_help(console);
            },
            ShellCommand::Mkfs => {
                let _ = self.cmd_mkfs(console);
            },
            ShellCommand::Files => {
                let _ = self.cmd_files(console);
            },
            ShellCommand::Pmm => {
                self.cmd_pmm(pool, console);
            },
            ShellCommand::Halt => {
                console.write_line("halting");
                return true;
            },
            ShellCommand::Open(name) => {
                let _ = self.cmd_open(name.as_str(), console);
            },
            ShellCommand::Delete(name) => {
                let nm = name.as_str();
                let _ = self.cmd_delete(nm, console);
            },
            ShellCommand::Info(name) => {
                let _ = self.cmd_info(name.as_str(), console);
            },
            ShellCommand::Save(rest) => {
                proof {
                    lemma_save_rest_len(line@);
                }
                let _ = self.cmd_save(rest.as_str(), console);
            },
            ShellCommand::Unknown => {
                console.write_line("unknown command");
            },
        }
        false
    }

    /// Lists the shell's commands.
    pub fn show_help(&self, console: &mut Console)
        requires
            old(console).wf(),
        ensures
            final(console).wf(),
            final(console)@ == help_text(old(console)@),
    {
        console.write_line("commands:");
        console.write_line("  help");
        console.write_line("  mkfs");
        console.write_line("  files");
        console.write_line("  save <name> <text>");
        console.write_line("  open <name>");
        console.write_line("  info <name>");
        console.write_line("  delete <name>");
        console.write_line("  pmm");
        console.write_line("  halt");
    }
}


/// Bytes sent and printed in foreground `fg` on black, the colour then put back.
pub open spec fn colored(v: ConsoleView, s: Seq<u8>, fg: u8) -> ConsoleView {
    ConsoleView { color: v.color, ..out(ConsoleView { color: color_of(fg, COLOR_BLACK), ..v }, s) }
}

/// How the terminal reports a failed operation: the error's message in red, no line break.
pub open spec fn terminal_error(v: ConsoleView, err: FmsError) -> ConsoleView {
    colored(v, vstd::utf8::encode_utf8(error_text(err)), COLOR_RED)
}

/// The names of `es`, a line each.
pub open spec fn name_lines(v: ConsoleView, es: Seq<EntryView>) -> ConsoleView
    decreases es.len(),
{
    if es.len() == 0 {
        v
    } else {
        out_line(name_lines(v, es.drop_last()), entry_name(es.last()))
    }
}

/// The usage line of a command given without its arguments.
pub open spec fn usage_text(u: UsageOf) -> Seq<u8> {
    match u {
        UsageOf::Touch => "Usage: touch <filename>".spec_bytes(),
        UsageOf::Cat => "Usage: cat <filename>".spec_bytes(),
        UsageOf::Write => "Usage: write <filename> <content>".spec_bytes(),
        UsageOf::Rm => "Usage: rm <filename>".spec_bytes(),
    }
}

/// The terminal's report when there is no filesystem to work on.
pub open spec fn no_filesystem(v: ConsoleView) -> ConsoleView {
    colored(v, "filesystem not initialized".spec_bytes(), COLOR_RED)
}

/// What `ls` shows: the name of each used slot, a line each, or a note that there is none.
pub open spec fn ls_shown(table: Seq<EntryView>, v0: ConsoleView, v1: ConsoleView) -> bool {
    let listed = used_entries(table);
    if listed.len() == 0 {
        v1 == out_line(v0, "No files found.".spec_bytes())
    } else {
        v1 == name_lines(v0, listed)
    }
}

/// What `cat` shows for the file called `name`.
pub open spec fn cat_shown(
    files: Option<Map<Seq<u8>, Seq<u8>>>,
    name: Seq<char>,
    v0: ConsoleView,
    v1: ConsoleView,
) -> bool {
    let nb = vstd::utf8::encode_utf8(name);
    if files is None {
        v1 == no_filesystem(v0)
    } else if !name_valid(nb) {
        v1 == terminal_error(v0, FmsError::BadName)
    } else if !files->0.dom().contains(nb) {
        v1 == terminal_error(v0, FmsError::NotFound)
    } else {
        v1 == out_line(v0, files->0[nb])
    }
}

/// What `touch` shows for the file called `name`, on shell `s`.
pub open spec fn touch_shown(s: KernelShell, name: Seq<char>, v0: ConsoleView, v1: ConsoleView) -> bool {
    let nb = vstd::utf8::encode_utf8(name);
    if s.files() is None {
        v1 == no_filesystem(v0)
    } else if !name_valid(nb) {
        v1 == terminal_error(v0, FmsError::BadName)
    } else if s.files()->0.dom().contains(nb) {
        v1 == terminal_error(v0, FmsError::Exists)
    } else if !s.has_room(nb, 0) {
        v1 == terminal_error(v0, FmsError::NoSpace)
    } else {
        v1 == out_line(v0, "File created.".spec_bytes())
    }
}

/// What `write` shows for storing `text` as the file called `name`, on shell `s`.
pub open spec fn write_shown(
    s: KernelShell,
    name: Seq<char>,
    text: Seq<char>,
    v0: ConsoleView,
    v1: ConsoleView,
) -> bool {
    let nb = vstd::utf8::encode_utf8(name);
    if s.files() is None {
        v1 == no_filesystem(v0)
    } else if !name_valid(nb) {
        v1 == terminal_error(v0, FmsError::BadName)
    } else if !s.has_room(nb, vstd::utf8::encode_utf8(text).len()) {
        v1 == terminal_error(v0, FmsError::NoSpace)
    } else {
        v1 == out_line(v0, "File updated.".spec_bytes())
    }
}

/// What `rm` shows for the file called `name`.
pub open spec fn rm_shown(
    files: Option<Map<Seq<u8>, Seq<u8>>>,
    name: Seq<char>,
    v0: ConsoleView,
    v1: ConsoleView,
) -> bool {
    let nb = vstd::utf8::encode_utf8(name);
    if files is None {
        v1 == no_filesystem(v0)
    } else if !name_valid(nb) {
        v1 == terminal_error(v0, FmsError::BadName)
    } else if !files->0.dom().contains(nb) {
        v1 == terminal_error(v0, FmsError::NotFound)
    } else {
        v1 == out_line(v0, "File deleted.".spec_bytes())
    }
}

impl KernelShell {
    /// `ls`: the name of each file, a line each, or a note that there is none.
    pub fn terminal_ls(&mut self, console: &mut Console)
        requires
            old(self).wf(),
            old(console).wf(),
        ensures
            final(self).wf(),
            final(console).wf(),
            final(self).same_as(*old(self)),
            ({
                let listed = used_entries(old(self).table());
                &&& listed.len() == 0 ==> final(console)@ == out_line(
                    old(console)@,
                    "No files found.".spec_bytes(),
                )
                &&& listed.len() > 0 ==> final(console)@ == name_lines(old(console)@, listed)
            }),
            ls_shown(old(self).table(), old(console)@, final(console)@),
    {
        let mut fs = match self.fs.take() {
            Some(f) => f,
            None => {
                assert(used_entries(Seq::<EntryView>::empty()).len() == 0);
                console.write_line("No files found.");
                return;
            },
        };
        proof {
            law_wf_operable(fs.sb(), self.disk.blocks(), Seq::empty());
            crate::model::lemma_used_upto_len(disk_table(fs.sb(), self.disk.blocks()), 64);
            crate::model::lemma_disk_table_sized(fs.sb(), self.disk.blocks());
        }
        let ghost t = disk_table(fs.sb(), self.disk.blocks());
        let mut entries = [FmsFileEntry::empty();FMS_MAX_FILES];
        let mut count: usize = 0;
        let res = fs.list(&mut self.disk, &mut entries, &mut count);
        self.fs = Some(fs);
        if res.is_err() || count == 0 {
            console.write_line("No files found.");
            return;
        }
        let ghost listed = used_entries(t);
        let ghost v0 = console@;
        let mut i: usize = 0;
        while i < count
            invariant
                count == listed.len(),
                count <= 64,
                i <= count,
                entries@.len() == 64,
                forall|k: int| 0 <= k < count ==> (#[trigger] entries@[k])@ == listed[k],
                console.wf(),
                console@ == name_lines(v0, listed.take(i as int)),
            decreases count - i,
        {
            let entry = entries[i];
            assert(entry@ == listed[i as int]);
            assert(listed.take(i + 1).drop_last() =~= listed.take(i as int));
            console.write_line_bytes(entry.name_bytes());
            i = i + 1;
        }
        assert(listed.take(count as int) =~= listed);
    }
}


impl KernelShell {
    /// `touch`: creates an empty file called `name`. A file of that name already there is
    /// an error.
    pub fn terminal_touch(&mut self, name: &str, console: &mut Console) -> (r: Option<
        Result<(), FmsError>,
    >)
        requires
            old(self).wf(),
            old(console).wf(),
        ensures
            final(self).wf(),
            final(console).wf(),
            final(self).disk_ready() == old(self).disk_ready(),
            final(self).disk_addr() == old(self).disk_addr(),
            ({
                let nb = name.spec_bytes();
                &&& old(self).files() is None ==> r is None && final(self).same_as(*old(self))
                    && final(console)@ == no_filesystem(old(console)@)
                &&& old(self).files() is Some ==> r is Some
                &&& r matches Some(Err(e)) ==> final(self).same_as(*old(self)) && final(console)@
                    == terminal_error(old(console)@, e) && (!name_valid(nb) ==> e
                    == FmsError::BadName) && (name_valid(nb) && old(self).files()->0.dom().contains(
                    nb,
                ) ==> e == FmsError::Exists) && (name_valid(nb) && !old(self).files()->0.dom().contains(
                    nb,
                ) ==> e == FmsError::NoSpace)
                &&& (r matches Some(Ok(_))) ==> final(console)@ == out_line(
                    old(console)@,
                    "File created.".spec_bytes(),
                ) && (no_zero_byte(nb) && old(self).names_unique() ==> final(self).names_unique()
                    && final(self).files() == Some(old(self).files()->0.insert(nb, Seq::empty())))
                &&& old(self).files() is Some && name_valid(nb) && !old(self).files()->0.dom().contains(
                    nb,
                ) ==> ((r matches Some(Ok(_))) <==> first_free(old(self).table()) < FMS_MAX_FILES)
            }),
            touch_shown(*old(self), name@, old(console)@, final(console)@),
            (r matches Some(Ok(_))) <==> old(self).files() is Some && name_valid(name.spec_bytes())
                && !old(self).files()->0.dom().contains(name.spec_bytes()) && old(self).has_room(
                name.spec_bytes(),
                0,
            ),
    {
        let mut fs = match self.fs.take() {
            Some(f) => f,
            None => {
                console.write_str_color("filesystem not initialized", COLOR_RED);
                return None;
            },
        };
        let ghost d = self.disk.blocks();
        let ghost t = disk_table(fs.sb(), d);
        proof {
            law_wf_operable(fs.sb(), d, name.spec_bytes());
        }
        let found = fs.stat(&mut self.disk, name);
        let res = match found {
            Ok(_) => Err(FmsError::Exists),
            Err(FmsError::NotFound) => {
                let empty: Vec<u8> = Vec::new();
                fs.write_file(&mut self.disk, name, empty.as_slice())
            },
            Err(err) => Err(err),
        };
        self.fs = Some(fs);
        match res {
            Ok(()) => {
                console.write_line("File created.");
                Some(Ok(()))
            },
            Err(err) => {
                console.write_str_color(fms_strerror(err), COLOR_RED);
                Some(Err(err))
            },
        }
    }

    /// `cat`: shows the text of the file called `name`.
    pub fn terminal_cat(&mut self, name: &str, console: &mut Console) -> (r: Option<
        Result<usize, FmsError>,
    >)
        requires
            old(self).wf(),
            old(console).wf(),
        ensures
            final(self).wf(),
            final(console).wf(),
            final(self).same_as(*old(self)),
            ({
                let nb = name.spec_bytes();
                &&& old(self).files() is None ==> r is None && final(console)@ == no_filesystem(
                    old(console)@,
                )
                &&& old(self).files() is Some ==> r is Some
                &&& r matches Some(Err(e)) ==> final(console)@ == terminal_error(old(console)@, e)
                    && (!name_valid(nb) ==> e == FmsError::BadName) && (name_valid(nb) ==> e
                    == FmsError::NotFound && !old(self).files()->0.dom().contains(nb))
                &&& r matches Some(Ok(n)) ==> ({
                    let files = old(self).files()->0;
                    &&& files.dom().contains(nb)
                    &&& n == files[nb].len()
                    &&& final(console)@ == out_line(old(console)@, files[nb])
                })
                &&& old(self).files() is Some ==> ((r matches Some(Ok(_))) <==> name_valid(nb)
                    && old(self).files()->0.dom().contains(nb))
            }),
            cat_shown(old(self).files(), name@, old(console)@, final(console)@),
    {
        let mut fs = match self.fs.take() {
            Some(f) => f,
            None => {
                console.write_str_color("filesystem not initialized", COLOR_RED);
                return None;
            },
        };
        let ghost d = self.disk.blocks();
        proof {
            law_wf_operable(fs.sb(), d, name.spec_bytes());
        }
        let entry = match fs.stat(&mut self.disk, name) {
            Ok(e) => e,
            Err(err) => {
                self.fs = Some(fs);
                console.write_str_color(fms_strerror(err), COLOR_RED);
                return Some(Err(err));
            },
        };
        proof {
            crate::laws::law_file_size(fs.sb(), d, name.spec_bytes());
        }
        let mut buf: Vec<u8> = vec![0u8; entry.size as usize];
        let mut read: usize = 0;
        let res = fs.read_file(&mut self.disk, name, buf.as_mut_slice(), &mut read);
        self.fs = Some(fs);
        match res {
            Ok(()) => {
                let shown = vstd::slice::slice_subrange(buf.as_slice(), 0, read);
                console.write_line_bytes(shown);
                Some(Ok(read))
            },
            Err(err) => {
                console.write_str_color(fms_strerror(err), COLOR_RED);
                Some(Err(err))
            },
        }
    }

    /// `write`: stores `text` as the file called `name`, replacing a file of that name.
    pub fn terminal_write(&mut self, name: &str, text: &str, console: &mut Console) -> (r: Option<
        Result<(), FmsError>,
    >)
        requires
            old(self).wf(),
            old(console).wf(),
            text.spec_bytes().len() + 512 <= u32::MAX,
        ensures
            final(self).wf(),
            final(console).wf(),
            final(self).disk_ready() == old(self).disk_ready(),
            final(self).disk_addr() == old(self).disk_addr(),
            ({
                let nb = name.spec_bytes();
                let data = text.spec_bytes();
                &&& old(self).files() is None ==> r is None && final(self).same_as(*old(self))
                    && final(console)@ == no_filesystem(old(console)@)
                &&& old(self).files() is Some ==> r is Some
                &&& r matches Some(Err(e)) ==> final(self).same_as(*old(self)) && final(console)@
                    == terminal_error(old(console)@, e) && (!name_valid(nb) ==> e
                    == FmsError::BadName) && (name_valid(nb) ==> e == FmsError::NoSpace)
                &&& (r matches Some(Ok(_))) ==> final(console)@ == out_line(
                    old(console)@,
                    "File updated.".spec_bytes(),
                ) && (no_zero_byte(nb) && old(self).names_unique() ==> final(self).names_unique()
                    && final(self).files() == Some(old(self).files()->0.insert(nb, data)))
            }),
            write_shown(*old(self), name@, text@, old(console)@, final(console)@),
            (r matches Some(Ok(_))) <==> old(self).files() is Some && name_valid(name.spec_bytes())
                && old(self).has_room(name.spec_bytes(), text.spec_bytes().len()),
    {
        let mut fs = match self.fs.take() {
            Some(f) => f,
            None => {
                console.write_str_color("filesystem not initialized", COLOR_RED);
                return None;
            },
        };
        proof {
            law_wf_operable(fs.sb(), self.disk.blocks(), name.spec_bytes());
        }
        let res = fs.write_file(&mut self.disk, name, text.as_bytes());
        self.fs = Some(fs);
        match res {
            Ok(()) => {
                console.write_line("File updated.");
                Some(Ok(()))
            },
            Err(err) => {
                console.write_str_color(fms_strerror(err), COLOR_RED);
                Some(Err(err))
            },
        }
    }

    /// `rm`: deletes the file called `name`.
    pub fn terminal_rm(&mut self, name: &str, console: &mut Console) -> (r: Option<
        Result<(), FmsError>,
    >)
        requires
            old(self).wf(),
            old(console).wf(),
        ensures
            final(self).wf(),
            final(console).wf(),
            final(self).disk_ready() == old(self).disk_ready(),
            final(self).disk_addr() == old(self).disk_addr(),
            ({
                let nb = name.spec_bytes();
                &&& old(self).files() is None ==> r is None && final(self).same_as(*old(self))
                    && final(console)@ == no_filesystem(old(console)@)
                &&& old(self).files() is Some ==> r is Some
                &&& r matches Some(Err(e)) ==> final(self).same_as(*old(self)) && final(console)@
                    == terminal_error(old(console)@, e) && (!name_valid(nb) ==> e
                    == FmsError::BadName) && (name_valid(nb) ==> e == FmsError::NotFound
                    && !old(self).files()->0.dom().contains(nb))
                &&& (r matches Some(Ok(_))) ==> final(console)@ == out_line(
                    old(console)@,
                    "File deleted.".spec_bytes(),
                ) && (old(self).names_unique() ==> final(self).names_unique() && final(self).files()
                    == Some(old(self).files()->0.remove(nb)))
            }),
            rm_shown(old(self).files(), name@, old(console)@, final(console)@),
            (r matches Some(Ok(_))) <==> old(self).files() is Some && name_valid(name.spec_bytes())
                && old(self).files()->0.dom().contains(name.spec_bytes()),
    {
        let mut fs = match self.fs.take() {
            Some(f) => f,
            None => {
                console.write_str_color("filesystem not initialized", COLOR_RED);
                return None;
            },
        };
        proof {
            law_wf_operable(fs.sb(), self.disk.blocks(), name.spec_bytes());
        }
        let res = fs.delete(&mut self.disk, name);
        self.fs = Some(fs);
        match res {
            Ok(()) => {
                console.write_line("File deleted.");
                Some(Ok(()))
            },
            Err(err) => {
                console.write_str_color(fms_strerror(err), COLOR_RED);
                Some(Err(err))
            },
        }
    }
}


/// The text to store that a `write` line carries takes no more bytes than the line.
pub proof fn lemma_write_text_len(line: Seq<u8>)
    requires
        terminal_command_of(line) is Write,
    ensures
        vstd::utf8::encode_utf8(terminal_command_of(line)->Write_1).len() <= line.len(),
{
    let s = line_text(line);
    if vstd::utf8::valid_utf8(line) {
        vstd::utf8::decode_utf8_encode_utf8(line);
    }
    let i = find_char_from(s, ' ', 0);
    crate::text::lemma_find_char_bounds(s, ' ', 0);
    let rest = s.subrange(i + 1, s.len() as int);
    let j = find_char_from(rest, ' ', 0);
    crate::text::lemma_find_char_bounds(rest, ' ', 0);
    lemma_encode_subrange_len(s, i + 1, s.len() as int);
    lemma_encode_subrange_len(rest, j + 1, rest.len() as int);
}

impl KernelShell {
    /// Runs one line typed at the terminal. A command of the filesystem shell runs as that
    /// shell runs it; returns whether the line asked to halt.
    pub fn terminal_line(&mut self, line: &[u8], console: &mut Console, pool: &PagePool) -> (halt:
        bool)
        requires
            old(self).wf(),
            old(console).wf(),
            line@.len() + 512 <= u32::MAX,
        ensures
            final(self).wf(),
            final(console).wf(),
            final(self).disk_ready() == old(self).disk_ready(),
            final(self).disk_addr() == old(self).disk_addr(),
            halt == (terminal_command_of(line@) is Filesystem && command_of(line@) is Halt),
            match terminal_command_of(line@) {
                TerminalView::Empty => final(self).same_as(*old(self)) && final(console)@ == old(
                    console,
                )@,
                TerminalView::Filesystem => command_effect(
                    *old(self),
                    *final(self),
                    *pool,
                    line@,
                    old(console)@,
                    final(console)@,
                ),
                TerminalView::Help => final(self).same_as(*old(self)) && final(console)@ == out_line(
                    old(console)@,
                    "Commands: ls, touch, cat, write, rm, mem, clear, help".spec_bytes(),
                ),
                TerminalView::Mem => final(self).same_as(*old(self)) && final(console)@ == colored(
                    out(old(console)@, "PMM Hook Status: ".spec_bytes()),
                    "Active\n".spec_bytes(),
                    COLOR_LIGHT_GREEN,
                ),
                TerminalView::Clear => final(self).same_as(*old(self)) && final(console)@
                    == cleared_screen(old(console)@),
                TerminalView::Usage(u) => final(self).same_as(*old(self)) && final(console)@
                    == out_line(old(console)@, usage_text(u)),
                TerminalView::Unknown(c) => final(self).same_as(*old(self)) && final(console)@
                    == out_line(
                    out(old(console)@, "Unknown command: ".spec_bytes()),
                    vstd::utf8::encode_utf8(c),
                ),
                TerminalView::Ls => final(self).same_as(*old(self)) && ls_shown(
                    old(self).table(),
                    old(console)@,
                    final(console)@,
                ),
                TerminalView::Cat(name) => final(self).same_as(*old(self)) && cat_shown(
                    old(self).files(),
                    name,
                    old(console)@,
                    final(console)@,
                ),
                TerminalView::Touch(name) => touch_shown(*old(self), name, old(console)@, final(console)@)
                    && ({
                    let nb = vstd::utf8::encode_utf8(name);
                    let done = old(self).files() is Some && name_valid(nb) && !old(
                        self,
                    ).files()->0.dom().contains(nb) && old(self).has_room(nb, 0);
                    &&& !done ==> final(self).same_as(*old(self))
                    &&& done && no_zero_byte(nb) && old(self).names_unique()
                        ==> final(self).names_unique() && final(self).files() == Some(
                        old(self).files()->0.insert(nb, Seq::empty()),
                    )
                }),
                TerminalView::Write(name, text) => write_shown(
                    *old(self),
                    name,
                    text,
                    old(console)@,
                    final(console)@,
                ) && ({
                    let nb = vstd::utf8::encode_utf8(name);
                    let data = vstd::utf8::encode_utf8(text);
                    let done = old(self).files() is Some && name_valid(nb) && old(self).has_room(
                        nb,
                        data.len(),
                    );
                    &&& !done ==> final(self).same_as(*old(self))
                    &&& done && no_zero_byte(nb) && old(self).names_unique()
                        ==> final(self).names_unique() && final(self).files() == Some(
                        old(self).files()->0.insert(nb, data),
                    )
                }),
                TerminalView::Rm(name) => rm_shown(old(self).files(), name, old(console)@, final(console)@)
                    && ({
                    let nb = vstd::utf8::encode_utf8(name);
                    let done = old(self).files() is Some && name_valid(nb) && old(
                        self,
                    ).files()->0.dom().contains(nb);
                    &&& !done ==> final(self).same_as(*old(self))
                    &&& done && old(self).names_unique() ==> final(self).names_unique()
                        && final(self).files() == Some(old(self).files()->0.remove(nb))
                }),
            },
    {
        let command = parse_terminal_command(line);
        match command {
            TerminalCommand::Empty => {},
            TerminalCommand::Filesystem => {
                return self.handle_command(line, console, pool);
            },
            TerminalCommand::Help => {
                console.write_line("Commands: ls, touch, cat, write, rm, mem, clear, help");
            },
            TerminalCommand::Ls => {
                self.terminal_ls(console);
            },
            TerminalCommand::Touch(name) => {
                let nm = name.as_str();
                let _ = self.terminal_touch(nm, console);
            },
            TerminalCommand::Cat(name) => {
                let nm = name.as_str();
                let _ = self.terminal_cat(nm, console);
            },
            TerminalCommand::Write(name, text) => {
                proof {
                    lemma_write_text_len(line@);
                }
                let nm = name.as_str();
                let tx = text.as_str();
                let _ = self.terminal_write(nm, tx, console);
            },
            TerminalCommand::Rm(name) => {
                let nm = name.as_str();
                let _ = self.terminal_rm(nm, console);
            },
            TerminalCommand::Mem => {
                console.write_str("PMM Hook Status: ");
                console.write_str_color("Active\n", COLOR_LIGHT_GREEN);
            },
            TerminalCommand::Clear => {
                console.clear_terminal();
            },
            TerminalCommand::Usage(u) => {
                let text = match u {
                    UsageOf::Touch => "Usage: touch <filename>",
                    UsageOf::Cat => "Usage: cat <filename>",
                    UsageOf::Write => "Usage: write <filename> <content>",
                    UsageOf::Rm => "Usage: rm <filename>",
                };
                console.write_line(text);
            },
            TerminalCommand::Unknown(cmd) => {
                console.write_str("Unknown command: ");
                console.write_line(cmd.as_str());
            },
        }
        false
    }
}


/// The screen of the safety check: a cleared screen with its title, then each check and its
/// verdict, then the closing line. `disk_ok` tells whether the RAM disk could be allocated.
pub open spec fn safety_check_screen(v: ConsoleView, disk_ok: bool) -> ConsoleView {
    let v1 = newline(printed(cleared_screen(v), "--- EXTENDED SYSTEM SAFETY CHECK ---".spec_bytes()));
    let v2 = out(v1, "Verifying Filesystem... ".spec_bytes());
    let v3 = if disk_ok {
        v2
    } else {
        out_line(v2, "filesystem init failed: out of PMM pages".spec_bytes())
    };
    let v4 = colored(v3, "[OK]\n".spec_bytes(), COLOR_LIGHT_GREEN);
    let v5 = colored(out(v4, "Initializing PMM Hook... ".spec_bytes()), "[OK]\n".spec_bytes(), COLOR_LIGHT_GREEN);
    let v6 = colored(out(v5, "Probing Keyboard... ".spec_bytes()), "[OK]\n".spec_bytes(), COLOR_LIGHT_GREEN);
    colored(
        v6,
        "\nAll safety checks passed. Launching Sample OS Terminal...\n".spec_bytes(),
        COLOR_YELLOW,
    )
}

/// The safety check run before the terminal starts: sets the filesystem up, restarts the page
/// allocator and takes one page from it, and reports each step. Returns the shell and whether
/// every check passed; the page taken always comes from the restarted allocator, so they do.
pub fn terminal_init(pool: &mut PagePool, console: &mut Console) -> (r: (KernelShell, bool))
    requires
        old(pool).wf(),
        old(console).wf(),
    ensures
        r.0.wf(),
        final(pool).wf(),
        final(console).wf(),
        r.1,
        final(pool).base_addr() == old(pool).base_addr(),
        final(pool).used() == PAGE_SIZE,
        ({
            let disk_ok = RAM_DISK_PAGES * PAGE_SIZE <= crate::memory::MEMORY_POOL_SIZE - old(pool).used();
            &&& disk_ok ==> r.0.disk_ready() && r.0.files() == Some(Map::<Seq<u8>, Seq<u8>>::empty())
                && r.0.layout() == Some(fresh_superblock(RAM_DISK_BLOCKS)) && r.0.table_empty()
                && r.0.names_unique()
                && r.0.disk_addr() == old(pool).base_addr() + old(pool).used()
            &&& !disk_ok ==> !r.0.disk_ready() && r.0.files() is None
            &&& final(console)@ == safety_check_screen(old(console)@, disk_ok)
        }),
{
    console.clear_terminal();
    console.vga_println("--- EXTENDED SYSTEM SAFETY CHECK ---");
    let mut integrity_ok = true;
    console.write_str("Verifying Filesystem... ");
    let shell = KernelShell::init(pool, console);
    console.write_str_color("[OK]\n", COLOR_LIGHT_GREEN);
    console.write_str("Initializing PMM Hook... ");
    pool.init();
    if pool.allocate_page().is_some() {
        console.write_str_color("[OK]\n", COLOR_LIGHT_GREEN);
    } else {
        console.write_str_color("[FAIL]\n", COLOR_LIGHT_RED);
        integrity_ok = false;
    }
    console.write_str("Probing Keyboard... ");
    console.write_str_color("[OK]\n", COLOR_LIGHT_GREEN);
    if integrity_ok {
        console.write_str_color(
            "\nAll safety checks passed. Launching Sample OS Terminal...\n",
            COLOR_YELLOW,
        );
    } else {
        console.write_str_color("\nSYSTEM INTEGRITY COMPROMISED. HALTING.\n", COLOR_RED);
    }
    (shell, integrity_ok)
}


/// The lines the terminal greets with.
pub open spec fn terminal_banner_screen(v: ConsoleView) -> ConsoleView {
    let v1 = colored(v, "Sample OS Terminal v1.2\n".spec_bytes(), COLOR_LIGHT_CYAN);
    let v2 = newline(printed(v1, "Full filesystem and PMM access granted.".spec_bytes()));
    out_line(v2, "Type 'help' for a list of commands.".spec_bytes())
}

/// The terminal's prompt: user and host in green, the directory in blue.
pub open spec fn terminal_prompt_screen(v: ConsoleView) -> ConsoleView {
    let v1 = colored(v, "user@sample_os".spec_bytes(), COLOR_LIGHT_GREEN);
    let v2 = colored(out(v1, ":".spec_bytes()), "~".spec_bytes(), COLOR_LIGHT_BLUE);
    out(v2, "$ ".spec_bytes())
}

/// Greets the user when the terminal starts.
pub fn terminal_banner(console: &mut Console)
    requires
        old(console).wf(),
    ensures
        final(console).wf(),
        final(console)@ == terminal_banner_screen(old(console)@),
{
    console.write_str_color("Sample OS Terminal v1.2\n", COLOR_LIGHT_CYAN);
    console.vga_println("Full filesystem and PMM access granted.");
    console.write_line("Type 'help' for a list of commands.");
}

/// Shows the prompt before each line is read.
pub fn terminal_prompt(console: &mut Console)
    requires
        old(console).wf(),
    ensures
        final(console).wf(),
        final(console)@ == terminal_prompt_screen(old(console)@),
{
    console.write_str_color("user@sample_os", COLOR_LIGHT_GREEN);
    console.write_str(":");
    console.write_str_color("~", COLOR_LIGHT_BLUE);
    console.write_str("$ ");
}

} // verus!
