//! Which shell runs the commands.
use vstd::prelude::*;

use crate::number::{parse_number, parse_u32};
use crate::text::{chars_of, opt_string, split_by, split_on, str_eq, strings, texts};
use crate::text_tools::{begins_with, lines_of, strip_prefix, text_lines, trim, trimmed};

verus! {

/// The last component of a path that names a file, given the parts between the
/// slashes. Empty parts and `.` name nothing; `..` at the end names no file.
pub open spec fn file_name(parts: Seq<Seq<char>>) -> Option<Seq<char>>
    decreases parts.len(),
{
    if parts.len() == 0 {
        None
    } else if parts.last() == ""@ || parts.last() == "."@ {
        file_name(parts.drop_last())
    } else if parts.last() == ".."@ {
        None
    } else {
        Some(parts.last())
    }
}

/// Whether `s` ends in `sh`.
pub open spec fn ends_in_sh(s: Seq<char>) -> bool {
    s.len() >= 2 && s[s.len() - 2] == 's' && s[s.len() - 1] == 'h'
}

/// Whether a path looks like that of a shell.
pub open spec fn shell_path(path: Seq<char>) -> bool {
    match file_name(split_on(path, '/')) {
        Some(name) => ends_in_sh(name),
        None => false,
    }
}

/// Return `true` when `path` looks like a Unix shell executable.
///
/// The heuristic checks whether the file-name component ends with `"sh"`
/// (covers `bash`, `zsh`, `fish`, `dash`, `ash`, `ksh`, `tcsh`, `csh`, `sh`,
/// etc.).  The check is intentionally loose so that unusual shell names still
/// work, while programs like `cargo` or `python` are correctly rejected.
pub fn is_shell_path(path: &str) -> (r: bool)
    ensures
        r == shell_path(path@),
{
    let parts = split_by(path, '/');
    let mut n: usize = parts.len();
    proof {
        assert(texts(parts@).take(n as int) =~= texts(parts@));
    }
    while n > 0
        invariant
            n <= parts@.len(),
            texts(parts@) == split_on(path@, '/'),
            file_name(texts(parts@).take(n as int)) == file_name(split_on(path@, '/')),
        decreases n,
    {
        let part = parts[n - 1];
        proof {
            assert(texts(parts@).take(n as int).drop_last() =~= texts(parts@).take(n - 1));
        }
        if str_eq(part, "") || str_eq(part, ".") {
            n = n - 1;
        } else if str_eq(part, "..") {
            return false;
        } else {
            let chars = chars_of(part);
            let len: usize = chars.len();
            return len >= 2 && chars[len - 2] == 's' && chars[len - 1] == 'h';
        }
    }
    false
}

/// The number after `PPid:` on the first line that has one.
pub open spec fn ppid_in(lines: Seq<Seq<char>>) -> Option<int>
    decreases lines.len(),
{
    if lines.len() == 0 {
        None
    } else {
        match ppid_of_line(lines[0]) {
            Some(n) => Some(n),
            None => ppid_in(lines.drop_first()),
        }
    }
}

/// The number after `PPid:` if the line starts with that.
pub open spec fn ppid_of_line(line: Seq<char>) -> Option<int> {
    if begins_with(line, "PPid:"@) {
        parse_number(trimmed(line.skip("PPid:"@.len() as int)), u32::MAX as int)
    } else {
        None
    }
}

/// What an optional number stands for.
pub open spec fn opt_int(n: Option<u32>) -> Option<int> {
    match n {
        Some(v) => Some(v as int),
        None => None,
    }
}

/// The parent's process number, from the text of a process status file.
pub fn parse_ppid(status: &str) -> (r: Option<u32>)
    ensures
        opt_int(r) == ppid_in(text_lines(status@)),
{
    let lines = lines_of(status);
    let mut i: usize = 0;
    proof {
        assert(texts(lines@).skip(0) =~= texts(lines@));
    }
    while i < lines.len()
        invariant
            i <= lines@.len(),
            texts(lines@) == text_lines(status@),
            ppid_in(texts(lines@).skip(i as int)) == ppid_in(text_lines(status@)),
        decreases lines@.len() - i,
    {
        proof {
            assert(texts(lines@).skip(i as int).drop_first() =~= texts(lines@).skip(i + 1));
        }
        match strip_prefix(lines[i], "PPid:") {
            Some(rest) => {
                match parse_u32(trim(rest), u32::MAX) {
                    Some(n) => {
                        return Some(n);
                    },
                    None => {},
                }
            },
            None => {},
        }
        i = i + 1;
    }
    None
}

/// The shell that stages run in: the parent process where that is a shell, else
/// the one that is set, else `sh`.
pub open spec fn chosen_shell(
    parent_exe: Option<Seq<char>>,
    shell_var: Option<Seq<char>>,
) -> Seq<char> {
    match parent_exe {
        Some(exe) if shell_path(exe) => exe,
        _ => match shell_var {
            Some(s) => s,
            None => "sh"@,
        },
    }
}

/// The shell to use: the parent process if its executable looks like a shell,
/// else the one that the environment names, else `sh`.
pub fn choose_shell(parent_exe: Option<String>, shell_var: Option<String>) -> (r: String)
    ensures
        r@ == chosen_shell(opt_string(parent_exe), opt_string(shell_var)),
{
    match parent_exe {
        Some(exe) => {
            if is_shell_path(exe.as_str()) {
                return exe;
            }
        },
        None => {},
    }
    match shell_var {
        Some(s) => s,
        None => "sh".to_owned(),
    }
}

/// The arguments with which a shell runs a command.
pub open spec fn shell_args_of(command: Seq<char>, interactive: bool) -> Seq<Seq<char>> {
    if interactive {
        seq!["-i"@, "-c"@, command]
    } else {
        seq!["-c"@, command]
    }
}

/// The arguments with which the shell runs `command`.
pub fn shell_args(command: &str, interactive: bool) -> (r: Vec<String>)
    ensures
        strings(r@) == shell_args_of(command@, interactive),
{
    let mut args: Vec<String> = Vec::new();
    if interactive {
        args.push("-i".to_owned());
    }
    args.push("-c".to_owned());
    args.push(command.to_owned());
    proof {
        assert(strings(args@) =~= shell_args_of(command@, interactive));
    }
    args
}

/// Variables that hint and encourage commands to put out colours, so that they
/// can be shown.
pub fn colour_env() -> (r: Vec<(&'static str, &'static str)>)
    ensures
        r@ == seq![
            ("TERM", "xterm-256color"),
            ("COLORTERM", "truecolor"),
            ("CLICOLOR", "1"),
            ("CLICOLOR_FORCE", "1"),
            ("FORCE_COLOR", "3"),
        ],
{
    vec![
        ("TERM", "xterm-256color"),
        ("COLORTERM", "truecolor"),
        ("CLICOLOR", "1"),
        ("CLICOLOR_FORCE", "1"),
        ("FORCE_COLOR", "3"),
    ]
}

} // verus!
