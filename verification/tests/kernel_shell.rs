use lib::console::Console;
use lib::memory::{PagePool, PAGE_SIZE};
use lib::shell::{
    fms_err, parse_shell_command, terminal_banner, terminal_init, terminal_prompt, KernelShell,
    ShellCommand,
};
use lib::terminal::{parse_terminal_command, TerminalCommand, UsageOf};
use lib::layout::FmsError;

const BASE: usize = 0x0010_0000;

fn serial(console: &mut Console) -> String {
    String::from_utf8(console.take_serial()).unwrap()
}

fn ready() -> (KernelShell, Console, PagePool) {
    let mut pool = PagePool::new(BASE);
    let mut console = Console::new();
    let shell = KernelShell::init(&mut pool, &mut console);
    assert_eq!(serial(&mut console), "");
    (shell, console, pool)
}

fn run(shell: &mut KernelShell, console: &mut Console, pool: &PagePool, line: &str) -> String {
    let halt = shell.handle_command(line.as_bytes(), console, pool);
    assert!(!halt);
    serial(console)
}

#[test]
fn parse_shell_lines() {
    assert!(matches!(parse_shell_command(b"  help "), ShellCommand::Help));
    assert!(matches!(parse_shell_command(b"mkfs"), ShellCommand::Mkfs));
    assert!(matches!(parse_shell_command(b"files"), ShellCommand::Files));
    assert!(matches!(parse_shell_command(b"pmm"), ShellCommand::Pmm));
    assert!(matches!(parse_shell_command(b"halt"), ShellCommand::Halt));
    assert!(matches!(parse_shell_command(b"   "), ShellCommand::Empty));
    assert!(matches!(parse_shell_command(&[0xFF, 0x41]), ShellCommand::BadEncoding));
    assert!(matches!(parse_shell_command(b"helpme"), ShellCommand::Unknown));
    assert!(matches!(parse_shell_command(b"open"), ShellCommand::Unknown));
    match parse_shell_command(b"open  a.txt  ") {
        ShellCommand::Open(n) => assert_eq!(n, "a.txt"),
        _ => panic!("expected open"),
    }
    match parse_shell_command(b"delete x") {
        ShellCommand::Delete(n) => assert_eq!(n, "x"),
        _ => panic!("expected delete"),
    }
    match parse_shell_command(b"info y ") {
        ShellCommand::Info(n) => assert_eq!(n, "y"),
        _ => panic!("expected info"),
    }
    match parse_shell_command(b"save n some text ") {
        ShellCommand::Save(r) => assert_eq!(r, "n some text"),
        _ => panic!("expected save"),
    }
}

#[test]
fn shell_error_words() {
    assert_eq!(fms_err(FmsError::Io), "io error");
    assert_eq!(fms_err(FmsError::BadFs), "invalid filesystem");
    assert_eq!(fms_err(FmsError::NotFound), "not found");
    assert_eq!(fms_err(FmsError::Exists), "exists");
    assert_eq!(fms_err(FmsError::NoSpace), "no space");
    assert_eq!(fms_err(FmsError::BadName), "bad name");
    assert_eq!(fms_err(FmsError::TooLarge), "too large");
}

#[test]
fn init_formats_the_ram_disk() {
    let (mut shell, mut console, pool) = ready();
    assert_eq!(pool.used_memory(), 128 * PAGE_SIZE);
    assert_eq!(run(&mut shell, &mut console, &pool, "files"), "(no files)\r\n");
}

#[test]
fn save_open_info_files_delete() {
    let (mut shell, mut console, pool) = ready();
    assert_eq!(run(&mut shell, &mut console, &pool, "save hello.txt hi there"), "saved\r\n");
    assert_eq!(run(&mut shell, &mut console, &pool, "open hello.txt"), "hi there\r\n");
    assert_eq!(
        run(&mut shell, &mut console, &pool, "info hello.txt"),
        "name: hello.txt\r\nsize: 8\r\nstart_block: 9\r\nblocks: 1\r\n"
    );
    assert_eq!(
        run(&mut shell, &mut console, &pool, "files"),
        "hello.txt  size=8  start=9  blocks=1\r\n"
    );
    assert_eq!(run(&mut shell, &mut console, &pool, "delete hello.txt"), "deleted\r\n");
    assert_eq!(run(&mut shell, &mut console, &pool, "open hello.txt"), "open failed: not found\r\n");
    assert_eq!(run(&mut shell, &mut console, &pool, "info hello.txt"), "info failed: not found\r\n");
    assert_eq!(run(&mut shell, &mut console, &pool, "delete hello.txt"), "delete failed: not found\r\n");
}

#[test]
fn usage_lines() {
    let (mut shell, mut console, pool) = ready();
    assert_eq!(run(&mut shell, &mut console, &pool, "save x"), "usage: save <name> <text>\r\n");
    assert_eq!(run(&mut shell, &mut console, &pool, "save  x"), "usage: save <name> <text>\r\n");
    assert_eq!(run(&mut shell, &mut console, &pool, "save x "), "usage: save <name> <text>\r\n");
    assert_eq!(run(&mut shell, &mut console, &pool, "open  "), "unknown command\r\n");
}

#[test]
fn bad_names_in_the_shell() {
    let (mut shell, mut console, pool) = ready();
    assert_eq!(run(&mut shell, &mut console, &pool, "save a/b text"), "save failed: bad name\r\n");
    assert_eq!(run(&mut shell, &mut console, &pool, "open a/b"), "open failed: bad name\r\n");
}

#[test]
fn open_refuses_a_file_larger_than_the_buffer() {
    let (mut shell, mut console, pool) = ready();
    let text = "x".repeat(300);
    let line = format!("save big {text}");
    assert_eq!(run(&mut shell, &mut console, &pool, &line), "saved\r\n");
    assert_eq!(
        run(&mut shell, &mut console, &pool, "open big"),
        "file too large for shell output buffer\r\n"
    );
}

#[test]
fn mkfs_clears_the_files() {
    let (mut shell, mut console, pool) = ready();
    run(&mut shell, &mut console, &pool, "save a b");
    assert_eq!(run(&mut shell, &mut console, &pool, "mkfs"), "filesystem formatted\r\n");
    assert_eq!(run(&mut shell, &mut console, &pool, "files"), "(no files)\r\n");
}

#[test]
fn help_unknown_empty_and_bad_encoding() {
    let (mut shell, mut console, pool) = ready();
    let help = run(&mut shell, &mut console, &pool, "help");
    assert!(help.starts_with("commands:\r\n  help\r\n  mkfs\r\n"));
    assert!(help.ends_with("  pmm\r\n  halt\r\n"));
    assert_eq!(run(&mut shell, &mut console, &pool, "frobnicate"), "unknown command\r\n");
    assert_eq!(run(&mut shell, &mut console, &pool, "   "), "");
    let halt = shell.handle_command(&[0xC3, 0x28], &mut console, &pool);
    assert!(!halt);
    assert_eq!(serial(&mut console), "invalid input encoding\r\n");
}

#[test]
fn halt_is_reported() {
    let (mut shell, mut console, pool) = ready();
    assert!(shell.handle_command(b"halt", &mut console, &pool));
    assert_eq!(serial(&mut console), "halting\r\n");
}

#[test]
fn pmm_report() {
    let (mut shell, mut console, pool) = ready();
    assert_eq!(
        run(&mut shell, &mut console, &pool, "pmm"),
        "page_size: 4096\r\npages_used: 128\r\nram_disk_pages: 128\r\nram_disk_ptr: 1048576\r\n"
    );
}

#[test]
fn no_room_for_the_ram_disk() {
    let mut pool = PagePool::new(BASE);
    for _ in 0..200 {
        assert!(pool.allocate_page().is_some());
    }
    let mut console = Console::new();
    let mut shell = KernelShell::init(&mut pool, &mut console);
    assert_eq!(serial(&mut console), "filesystem init failed: out of PMM pages\r\n");
    assert_eq!(pool.used_memory(), 200 * PAGE_SIZE);
    assert_eq!(run(&mut shell, &mut console, &pool, "files"), "filesystem not initialized\r\n");
    assert_eq!(run(&mut shell, &mut console, &pool, "save a b"), "filesystem not initialized\r\n");
    assert_eq!(run(&mut shell, &mut console, &pool, "open a"), "filesystem not initialized\r\n");
    assert_eq!(run(&mut shell, &mut console, &pool, "mkfs"), "mkfs failed: io error\r\n");
}

#[test]
fn parse_terminal_lines() {
    assert!(matches!(parse_terminal_command(b""), TerminalCommand::Empty));
    assert!(matches!(parse_terminal_command(b"help"), TerminalCommand::Help));
    assert!(matches!(parse_terminal_command(b"ls"), TerminalCommand::Ls));
    assert!(matches!(parse_terminal_command(b"ls extra args"), TerminalCommand::Ls));
    assert!(matches!(parse_terminal_command(b"mem"), TerminalCommand::Mem));
    assert!(matches!(parse_terminal_command(b"clear"), TerminalCommand::Clear));
    assert!(matches!(parse_terminal_command(b"touch"), TerminalCommand::Usage(UsageOf::Touch)));
    assert!(matches!(parse_terminal_command(b"cat "), TerminalCommand::Usage(UsageOf::Cat)));
    assert!(matches!(parse_terminal_command(b"rm"), TerminalCommand::Usage(UsageOf::Rm)));
    assert!(matches!(parse_terminal_command(b"write a"), TerminalCommand::Usage(UsageOf::Write)));
    assert!(matches!(parse_terminal_command(b"write a "), TerminalCommand::Usage(UsageOf::Write)));
    match parse_terminal_command(b"write notes.txt hello big world") {
        TerminalCommand::Write(n, t) => {
            assert_eq!(n, "notes.txt");
            assert_eq!(t, "hello big world");
        },
        _ => panic!("expected write"),
    }
    match parse_terminal_command(b"touch a b") {
        TerminalCommand::Touch(n) => assert_eq!(n, "a"),
        _ => panic!("expected touch"),
    }
    match parse_terminal_command(b" ls") {
        TerminalCommand::Unknown(c) => assert_eq!(c, ""),
        _ => panic!("expected unknown"),
    }
    match parse_terminal_command(&[0xFF]) {
        TerminalCommand::Unknown(c) => assert_eq!(c, ""),
        _ => panic!("expected unknown"),
    }
    match parse_terminal_command(b"HELP") {
        TerminalCommand::Unknown(c) => assert_eq!(c, "HELP"),
        _ => panic!("expected unknown"),
    }
}

fn term(shell: &mut KernelShell, console: &mut Console, line: &str) -> String {
    let pool = PagePool::new(BASE);
    let halt = shell.terminal_line(line.as_bytes(), console, &pool);
    assert!(!halt);
    serial(console)
}

#[test]
fn terminal_file_commands() {
    let (mut shell, mut console, _pool) = ready();
    assert_eq!(term(&mut shell, &mut console, "ls"), "No files found.\r\n");
    assert_eq!(term(&mut shell, &mut console, "touch a.txt"), "File created.\r\n");
    assert_eq!(term(&mut shell, &mut console, "touch a.txt"), "file already exists");
    assert_eq!(term(&mut shell, &mut console, "write b.txt hello there"), "File updated.\r\n");
    assert_eq!(term(&mut shell, &mut console, "cat b.txt"), "hello there\r\n");
    assert_eq!(term(&mut shell, &mut console, "cat a.txt"), "\r\n");
    assert_eq!(term(&mut shell, &mut console, "ls"), "a.txt\r\nb.txt\r\n");
    assert_eq!(term(&mut shell, &mut console, "rm a.txt"), "File deleted.\r\n");
    assert_eq!(term(&mut shell, &mut console, "rm a.txt"), "file not found");
    assert_eq!(term(&mut shell, &mut console, "cat a.txt"), "file not found");
    assert_eq!(term(&mut shell, &mut console, "touch x/y"), "invalid filename");
    assert_eq!(term(&mut shell, &mut console, "ls"), "b.txt\r\n");
}

#[test]
fn terminal_fixed_replies() {
    let (mut shell, mut console, _pool) = ready();
    assert_eq!(
        term(&mut shell, &mut console, "help"),
        "Commands: ls, touch, cat, write, rm, mem, clear, help\r\n"
    );
    assert_eq!(term(&mut shell, &mut console, "mem"), "PMM Hook Status: Active\n");
    assert_eq!(term(&mut shell, &mut console, "touch"), "Usage: touch <filename>\r\n");
    assert_eq!(term(&mut shell, &mut console, "cat"), "Usage: cat <filename>\r\n");
    assert_eq!(term(&mut shell, &mut console, "write x"), "Usage: write <filename> <content>\r\n");
    assert_eq!(term(&mut shell, &mut console, "rm"), "Usage: rm <filename>\r\n");
    assert_eq!(term(&mut shell, &mut console, "dance now"), "Unknown command: dance\r\n");
    assert_eq!(term(&mut shell, &mut console, ""), "");
    assert_eq!(term(&mut shell, &mut console, "clear"), "");
    assert_eq!(console.cell(0), (b' ', 0x0F));
}

#[test]
fn terminal_without_a_filesystem() {
    let mut pool = PagePool::new(BASE);
    for _ in 0..250 {
        pool.allocate_page();
    }
    let mut console = Console::new();
    let mut shell = KernelShell::init(&mut pool, &mut console);
    serial(&mut console);
    assert_eq!(term(&mut shell, &mut console, "ls"), "No files found.\r\n");
    assert_eq!(term(&mut shell, &mut console, "cat f"), "filesystem not initialized");
    assert_eq!(term(&mut shell, &mut console, "write f t"), "filesystem not initialized");
}

#[test]
fn safety_check_passes_and_restarts_the_allocator() {
    let mut pool = PagePool::new(BASE);
    let mut console = Console::new();
    let (mut shell, ok) = terminal_init(&mut pool, &mut console);
    assert!(ok);
    assert_eq!(pool.used_memory(), PAGE_SIZE);
    assert_eq!(
        serial(&mut console),
        "Verifying Filesystem... [OK]\nInitializing PMM Hook... [OK]\nProbing Keyboard... [OK]\n\nAll safety checks passed. Launching Sample OS Terminal...\n"
    );
    assert_eq!(term(&mut shell, &mut console, "ls"), "No files found.\r\n");
}

#[test]
fn banner_and_prompt() {
    let mut console = Console::new();
    terminal_banner(&mut console);
    assert_eq!(
        serial(&mut console),
        "Sample OS Terminal v1.2\nType 'help' for a list of commands.\r\n"
    );
    terminal_prompt(&mut console);
    assert_eq!(serial(&mut console), "user@sample_os:~$ ");
}

#[test]
fn terminal_runs_the_filesystem_commands() {
    let (mut shell, mut console, pool) = ready();
    assert_eq!(term(&mut shell, &mut console, "files"), "(no files)\r\n");
    assert_eq!(term(&mut shell, &mut console, "save notes hello world"), "saved\r\n");
    assert_eq!(term(&mut shell, &mut console, "open notes"), "hello world\r\n");
    assert_eq!(
        term(&mut shell, &mut console, "info notes"),
        "name: notes\r\nsize: 11\r\nstart_block: 9\r\nblocks: 1\r\n"
    );
    assert_eq!(term(&mut shell, &mut console, "files"), "notes  size=11  start=9  blocks=1\r\n");
    assert_eq!(term(&mut shell, &mut console, "cat notes"), "hello world\r\n");
    assert_eq!(term(&mut shell, &mut console, "delete notes"), "deleted\r\n");
    assert_eq!(term(&mut shell, &mut console, "mkfs"), "filesystem formatted\r\n");
    assert_eq!(term(&mut shell, &mut console, "open"), "unknown command\r\n");
    assert!(matches!(parse_terminal_command(b"files"), TerminalCommand::Filesystem));
    assert!(matches!(parse_terminal_command(b"pmm"), TerminalCommand::Filesystem));
    let halt = shell.terminal_line(b"halt", &mut console, &pool);
    assert!(halt);
    assert_eq!(serial(&mut console), "halting\r\n");
    shell.terminal_line(b"pmm", &mut console, &pool);
    assert!(serial(&mut console).starts_with("page_size: 4096\r\npages_used: 128\r\n"));
}
