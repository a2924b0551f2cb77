//! The command line of the kernel terminal: a line split at its first two spaces into a
//! command word and up to two arguments.
use crate::text::{find_char, find_char_from, str_eq, str_from_utf8};
use vstd::prelude::*;
use vstd::string::StrSliceExecFns;

verus! {

/// Which command was given without the arguments it needs.
#[derive(Clone, Copy, Debug, PartialEq, Eq, Structural)]
pub enum UsageOf {
    Touch,
    Cat,
    Write,
    Rm,
}

/// A command line of the terminal.
pub enum TerminalCommand {
    /// Nothing was typed.
    Empty,
    Help,
    Ls,
    Touch(String),
    Cat(String),
    /// A file name and the text to store in it.
    Write(String, String),
    Rm(String),
    Mem,
    Clear,
    /// A command given without its arguments.
    Usage(UsageOf),
    /// A command of the filesystem shell: `mkfs`, `files`, `save`, `open`, `info`, `delete`,
    /// `pmm` or `halt`; the whole line goes to that shell.
    Filesystem,
    /// A command word the terminal does not know.
    Unknown(String),
}

/// The mathematical content of a terminal command.
pub enum TerminalView {
    Empty,
    Help,
    Ls,
    Touch(Seq<char>),
    Cat(Seq<char>),
    Write(Seq<char>, Seq<char>),
    Rm(Seq<char>),
    Mem,
    Clear,
    Usage(UsageOf),
    Filesystem,
    Unknown(Seq<char>),
}

impl View for TerminalCommand {
    type V = TerminalView;

    open spec fn view(&self) -> TerminalView {
        match self {
            TerminalCommand::Empty => TerminalView::Empty,
            TerminalCommand::Help => TerminalView::Help,
            TerminalCommand::Ls => TerminalView::Ls,
            TerminalCommand::Touch(n) => TerminalView::Touch(n@),
            TerminalCommand::Cat(n) => TerminalView::Cat(n@),
            TerminalCommand::Write(n, t) => TerminalView::Write(n@, t@),
            TerminalCommand::Rm(n) => TerminalView::Rm(n@),
            TerminalCommand::Mem => TerminalView::Mem,
            TerminalCommand::Clear => TerminalView::Clear,
            TerminalCommand::Usage(u) => TerminalView::Usage(*u),
            TerminalCommand::Filesystem => TerminalView::Filesystem,
            TerminalCommand::Unknown(c) => TerminalView::Unknown(c@),
        }
    }
}

/// The text of a line: its characters when it is UTF-8, else nothing.
pub open spec fn line_text(line: Seq<u8>) -> Seq<char> {
    if vstd::utf8::valid_utf8(line) {
        vstd::utf8::decode_utf8(line)
    } else {
        Seq::empty()
    }
}

/// `s` cut at its first two spaces: the part before the first, the part between the first
/// and the second, and the rest after the second. Missing parts are empty.
pub open spec fn split3(s: Seq<char>) -> (Seq<char>, Seq<char>, Seq<char>) {
    let i = find_char_from(s, ' ', 0);
    if i >= s.len() {
        (s, Seq::empty(), Seq::empty())
    } else {
        let rest = s.subrange(i + 1, s.len() as int);
        let j = find_char_from(rest, ' ', 0);
        if j >= rest.len() {
            (s.subrange(0, i), rest, Seq::empty())
        } else {
            (s.subrange(0, i), rest.subrange(0, j), rest.subrange(j + 1, rest.len() as int))
        }
    }
}

/// Whether `word` names a command of the filesystem shell.
pub open spec fn filesystem_word(word: Seq<char>) -> bool {
    ||| word == "mkfs"@
    ||| word == "files"@
    ||| word == "save"@
    ||| word == "open"@
    ||| word == "info"@
    ||| word == "delete"@
    ||| word == "pmm"@
    ||| word == "halt"@
}

/// The command a terminal line asks for.
pub open spec fn terminal_command_of(line: Seq<u8>) -> TerminalView {
    let parts = split3(line_text(line));
    let cmd = parts.0;
    let arg1 = parts.1;
    let arg2 = parts.2;
    if line.len() == 0 {
        TerminalView::Empty
    } else if cmd == "help"@ {
        TerminalView::Help
    } else if cmd == "ls"@ {
        TerminalView::Ls
    } else if cmd == "touch"@ {
        if arg1.len() == 0 {
            TerminalView::Usage(UsageOf::Touch)
        } else {
            TerminalView::Touch(arg1)
        }
    } else if cmd == "cat"@ {
        if arg1.len() == 0 {
            TerminalView::Usage(UsageOf::Cat)
        } else {
            TerminalView::Cat(arg1)
        }
    } else if cmd == "write"@ {
        if arg1.len() == 0 || arg2.len() == 0 {
            TerminalView::Usage(UsageOf::Write)
        } else {
            TerminalView::Write(arg1, arg2)
        }
    } else if cmd == "rm"@ {
        if arg1.len() == 0 {
            TerminalView::Usage(UsageOf::Rm)
        } else {
            TerminalView::Rm(arg1)
        }
    } else if cmd == "mem"@ {
        TerminalView::Mem
    } else if cmd == "clear"@ {
        TerminalView::Clear
    } else if filesystem_word(cmd) {
        TerminalView::Filesystem
    } else {
        TerminalView::Unknown(cmd)
    }
}

/// `s` cut at its first space, the rest after it kept whole.
fn split_at_space(s: &str) -> (r: (&str, Option<&str>))
    ensures
        ({
            let i = find_char_from(s@, ' ', 0);
            &&& i >= s@.len() ==> r.0@ == s@ && r.1 is None
            &&& i < s@.len() ==> r.0@ == s@.subrange(0, i) && (r.1 matches Some(rest) && rest@
                == s@.subrange(i + 1, s@.len() as int))
        }),
{
    match find_char(s, ' ') {
        None => (s, None),
        Some(i) => {
            let n = s.unicode_len();
            (s.substring_char(0, i), Some(s.substring_char(i + 1, n)))
        },
    }
}

/// The command a terminal line asks for.
pub fn parse_terminal_command(line: &[u8]) -> (c: TerminalCommand)
    ensures
        c@ == terminal_command_of(line@),
{
    if line.len() == 0 {
        return TerminalCommand::Empty;
    }
    let text = match str_from_utf8(line) {
        Some(t) => t,
        None => "",
    };
    proof {
        if vstd::utf8::valid_utf8(line@) {
            vstd::utf8::encode_utf8_decode_utf8(text@);
        } else {
            reveal_strlit("");
        }
        assert(text@ == line_text(line@));
    }
    let (cmd, tail) = split_at_space(text);
    let (arg1, arg2) = match tail {
        None => ("", ""),
        Some(rest) => {
            let (a1, more) = split_at_space(rest);
            match more {
                None => (a1, ""),
                Some(a2) => (a1, a2),
            }
        },
    };
    proof {
        reveal_strlit("");
        let parts = split3(text@);
        assert(cmd@ == parts.0 && arg1@ == parts.1 && arg2@ == parts.2);
    }
    if str_eq(cmd, "help") {
        TerminalCommand::Help
    } else if str_eq(cmd, "ls") {
        TerminalCommand::Ls
    } else if str_eq(cmd, "touch") {
        if arg1.unicode_len() == 0 {
            TerminalCommand::Usage(UsageOf::Touch)
        } else {
            TerminalCommand::Touch(String::from_str(arg1))
        }
    } else if str_eq(cmd, "cat") {
        if arg1.unicode_len() == 0 {
            TerminalCommand::Usage(UsageOf::Cat)
        } else {
            TerminalCommand::Cat(String::from_str(arg1))
        }
    } else if str_eq(cmd, "write") {
        if arg1.unicode_len() == 0 || arg2.unicode_len() == 0 {
            TerminalCommand::Usage(UsageOf::Write)
        } else {
            TerminalCommand::Write(String::from_str(arg1), String::from_str(arg2))
        }
    } else if str_eq(cmd, "rm") {
        if arg1.unicode_len() == 0 {
            TerminalCommand::Usage(UsageOf::Rm)
        } else {
            TerminalCommand::Rm(String::from_str(arg1))
        }
    } else if str_eq(cmd, "mem") {
        TerminalCommand::Mem
    } else if str_eq(cmd, "clear") {
        TerminalCommand::Clear
    } else if str_eq(cmd, "mkfs") || str_eq(cmd, "files") || str_eq(cmd, "save") || str_eq(cmd, "open")
        || str_eq(cmd, "info") || str_eq(cmd, "delete") || str_eq(cmd, "pmm") || str_eq(cmd, "halt") {
        TerminalCommand::Filesystem
    } else {
        TerminalCommand::Unknown(String::from_str(cmd))
    }
}

} // verus!
