//! The host tool's command line: which command, on which disk image, with which names.
use crate::layout::{FmsError, FMS_DEFAULT_TOTAL_BLOCKS};
use crate::text::str_eq;
use vstd::prelude::*;
use vstd::string::StrSliceExecFns;

verus! {

/// Whether `c` is an ASCII digit.
pub open spec fn is_digit(c: char) -> bool {
    48 <= c as u32 <= 57
}

/// The number the decimal digits `s` spell.
pub open spec fn decimal_value(s: Seq<char>) -> int
    decreases s.len(),
{
    if s.len() == 0 {
        0
    } else {
        decimal_value(s.drop_last()) * 10 + (s.last() as u32 - 48)
    }
}

/// The digits of `s`, after a leading `+` if it has one.
pub open spec fn unsigned_digits(s: Seq<char>) -> Seq<char> {
    if s.len() > 0 && s[0] == '+' {
        s.drop_first()
    } else {
        s
    }
}

/// The `u32` that `s` spells in decimal: an optional `+`, then at least one digit, and
/// nothing else, with a value that fits.
pub open spec fn parsed_u32(s: Seq<char>) -> Option<u32> {
    let d = unsigned_digits(s);
    if d.len() > 0 && (forall|i: int| 0 <= i < d.len() ==> is_digit(#[trigger] d[i]))
        && decimal_value(d) <= u32::MAX {
        Some(decimal_value(d) as u32)
    } else {
        None
    }
}

/// More digits never make a smaller number.
proof fn lemma_decimal_grows(s: Seq<char>, i: int)
    requires
        0 <= i <= s.len(),
        forall|k: int| 0 <= k < s.len() ==> is_digit(#[trigger] s[k]),
    ensures
        decimal_value(s.take(i)) <= decimal_value(s),
        decimal_value(s.take(i)) >= 0,
    decreases s.len() - i,
{
    if i < s.len() {
        lemma_decimal_grows(s, i + 1);
        assert(s.take(i + 1).drop_last() =~= s.take(i));
    } else {
        assert(s.take(i) =~= s);
    }
    lemma_decimal_nonneg(s.take(i));
}

proof fn lemma_decimal_nonneg(s: Seq<char>)
    requires
        forall|k: int| 0 <= k < s.len() ==> is_digit(#[trigger] s[k]),
    ensures
        decimal_value(s) >= 0,
    decreases s.len(),
{
    if s.len() > 0 {
        lemma_decimal_nonneg(s.drop_last());
    }
}

/// The block count given on the command line.
pub fn parse_blocks(s: &str) -> (r: Result<u32, FmsError>)
    ensures
        match parsed_u32(s@) {
            Some(n) => r == Ok::<u32, FmsError>(n),
            None => r == Err::<u32, FmsError>(FmsError::BadFs),
        },
{
    let n = s.unicode_len();
    let mut i: usize = 0;
    if n > 0 && s.get_char(0) == '+' {
        i = 1;
    }
    let start = i;
    let ghost d = unsigned_digits(s@);
    assert(d =~= s@.subrange(start as int, n as int));
    if start == n {
        return Err(FmsError::BadFs);
    }
    let mut acc: u64 = 0;
    while i < n
        invariant
            n == s@.len(),
            start <= i <= n,
            start < n,
            d == s@.subrange(start as int, n as int),
            d == unsigned_digits(s@),
            forall|k: int| 0 <= k < i - start ==> is_digit(#[trigger] d[k]),
            acc == decimal_value(d.take(i - start)),
            acc <= u32::MAX,
        decreases n - i,
    {
        let c = s.get_char(i);
        let u = c as u32;
        if u < 48 || u > 57 {
            assert(!is_digit(d[i - start]));
            return Err(FmsError::BadFs);
        }
        assert(d.take(i - start + 1).drop_last() =~= d.take(i - start));
        assert(d[i - start] == c);
        assert(decimal_value(d.take(i - start + 1)) == acc * 10 + (u - 48));
        acc = acc * 10 + (u - 48) as u64;
        if acc > 0xFFFF_FFFF {
            proof {
                let j = i - start + 1;
                if forall|k: int| 0 <= k < d.len() ==> is_digit(#[trigger] d[k]) {
                    lemma_decimal_grows(d, j);
                }
            }
            return Err(FmsError::BadFs);
        }
        i = i + 1;
    }
    assert(d.take(n - start) =~= d);
    Ok(acc as u32)
}

/// A command of the host tool.
pub enum HostCommand {
    /// The arguments do not form a command: show how to use the tool.
    Usage,
    /// Format the disk image `disk` with `total_blocks` blocks.
    Mkfs { disk: String, total_blocks: u32 },
    /// List the files of `disk`.
    Files { disk: String },
    /// Store the host file `host_file` in `disk` as `name`.
    Save { disk: String, host_file: String, name: String },
    /// Copy the file `name` of `disk` to the host file `out`, or to standard output.
    Open { disk: String, name: String, out: Option<String> },
    /// Delete the file `name` of `disk`.
    Delete { disk: String, name: String },
    /// Show where the file `name` of `disk` is stored.
    Info { disk: String, name: String },
}

/// The command the arguments `args` (program name first) ask for. The block count of `mkfs`
/// must be a `u32`.
pub fn parse_host_args(args: &Vec<String>) -> (r: Result<HostCommand, FmsError>)
    ensures
        ({
            let n = args@.len();
            let word = if n >= 2 {
                args@[1]@
            } else {
                Seq::empty()
            };
            &&& n < 2 ==> (r matches Ok(HostCommand::Usage))
            &&& n >= 2 && word == "mkfs"@ ==> if n != 3 && n != 4 {
                (r matches Ok(HostCommand::Usage))
            } else if n == 4 {
                match parsed_u32(args@[3]@) {
                    Some(blocks) => (r matches Ok(HostCommand::Mkfs { disk, total_blocks })
                        && disk@ == args@[2]@ && total_blocks == blocks),
                    None => r == Err::<HostCommand, FmsError>(FmsError::BadFs),
                }
            } else {
                (r matches Ok(HostCommand::Mkfs { disk, total_blocks }) && disk@ == args@[2]@
                    && total_blocks == FMS_DEFAULT_TOTAL_BLOCKS)
            }
            &&& n >= 2 && word == "files"@ ==> if n != 3 {
                (r matches Ok(HostCommand::Usage))
            } else {
                (r matches Ok(HostCommand::Files { disk }) && disk@ == args@[2]@)
            }
            &&& n >= 2 && word == "save"@ ==> if n != 5 {
                (r matches Ok(HostCommand::Usage))
            } else {
                (r matches Ok(HostCommand::Save { disk, host_file, name }) && disk@ == args@[2]@
                    && host_file@ == args@[3]@ && name@ == args@[4]@)
            }
            &&& n >= 2 && word == "open"@ ==> if n != 4 && n != 5 {
                (r matches Ok(HostCommand::Usage))
            } else {
                (r matches Ok(HostCommand::Open { disk, name, out }) && disk@ == args@[2]@
                    && name@ == args@[3]@ && (n == 5 <==> out is Some) && (out matches Some(o)
                    ==> o@ == args@[4]@))
            }
            &&& n >= 2 && word == "delete"@ ==> if n != 4 {
                (r matches Ok(HostCommand::Usage))
            } else {
                (r matches Ok(HostCommand::Delete { disk, name }) && disk@ == args@[2]@ && name@
                    == args@[3]@)
            }
            &&& n >= 2 && word == "info"@ ==> if n != 4 {
                (r matches Ok(HostCommand::Usage))
            } else {
                (r matches Ok(HostCommand::Info { disk, name }) && disk@ == args@[2]@ && name@
                    == args@[3]@)
            }
            &&& n >= 2 && word != "mkfs"@ && word != "files"@ && word != "save"@ && word
                != "open"@ && word != "delete"@ && word != "info"@ ==> (r matches Ok(
                HostCommand::Usage,
            ))
        }),
{
    proof {
        reveal_strlit("mkfs");
        reveal_strlit("files");
        reveal_strlit("save");
        reveal_strlit("open");
        reveal_strlit("delete");
        reveal_strlit("info");
        assert("mkfs"@.len() == 4 && "files"@.len() == 5 && "save"@.len() == 4 && "open"@.len()
            == 4 && "delete"@.len() == 6 && "info"@.len() == 4);
        assert("mkfs"@[0] == 'm' && "save"@[0] == 's' && "open"@[0] == 'o' && "info"@[0] == 'i');
    }
    let n = args.len();
    if n < 2 {
        return Ok(HostCommand::Usage);
    }
    let word = args[1].as_str();
    if str_eq(word, "mkfs") {
        if n != 3 && n != 4 {
            return Ok(HostCommand::Usage);
        }
        let total_blocks = if n == 4 {
            match parse_blocks(args[3].as_str()) {
                Ok(b) => b,
                Err(e) => return Err(e),
            }
        } else {
            FMS_DEFAULT_TOTAL_BLOCKS
        };
        Ok(HostCommand::Mkfs { disk: args[2].clone(), total_blocks })
    } else if str_eq(word, "files") {
        if n != 3 {
            return Ok(HostCommand::Usage);
        }
        Ok(HostCommand::Files { disk: args[2].clone() })
    } else if str_eq(word, "save") {
        if n != 5 {
            return Ok(HostCommand::Usage);
        }
        Ok(HostCommand::Save {
            disk: args[2].clone(),
            host_file: args[3].clone(),
            name: args[4].clone(),
        })
    } else if str_eq(word, "open") {
        if n != 4 && n != 5 {
            return Ok(HostCommand::Usage);
        }
        let out = if n == 5 {
            Some(args[4].clone())
        } else {
            None
        };
        Ok(HostCommand::Open { disk: args[2].clone(), name: args[3].clone(), out })
    } else if str_eq(word, "delete") {
        if n != 4 {
            return Ok(HostCommand::Usage);
        }
        Ok(HostCommand::Delete { disk: args[2].clone(), name: args[3].clone() })
    } else if str_eq(word, "info") {
        if n != 4 {
            return Ok(HostCommand::Usage);
        }
        Ok(HostCommand::Info { disk: args[2].clone(), name: args[3].clone() })
    } else {
        Ok(HostCommand::Usage)
    }
}

} // verus!
