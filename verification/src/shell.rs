//! The `bash` tool: which commands are refused, and how a finished
//! command's output is reported.
use vstd::prelude::*;
use crate::text::{chars_of, find, find_chars, lowercase, push_all, push_str, string_of, to_lowercase};
use crate::num::{dec_int, dec_i64_chars};
use crate::tool::{ToolResult, ResultV};

verus! {

/// Command fragments that are never run.
pub open spec fn dangerous_patterns() -> Seq<Seq<char>> {
    seq![
        "rm -rf"@,
        "rm -r"@,
        "sudo rm"@,
        "dd if="@,
        "mkfs."@,
        "format"@,
        "del /f"@,
        "rd /s"@,
        "chmod 777"@,
        ":(){ :|:& };:"@,
        "> /dev/sda"@,
        "shutdown"@,
        "reboot"@,
    ]
}

fn dangerous_list() -> (r: Vec<&'static str>)
    ensures
        r@.map_values(|s: &str| s@) == dangerous_patterns(),
{
    let v = vec![
        "rm -rf",
        "rm -r",
        "sudo rm",
        "dd if=",
        "mkfs.",
        "format",
        "del /f",
        "rd /s",
        "chmod 777",
        ":(){ :|:& };:",
        "> /dev/sda",
        "shutdown",
        "reboot",
    ];
    assert(v@.map_values(|s: &str| s@) =~= dangerous_patterns());
    v
}

/// The first dangerous pattern at or after index `i` that the lowercased
/// command contains (patterns are compared lowercased too).
pub open spec fn first_dangerous(lower: Seq<char>, i: int) -> Option<int>
    decreases dangerous_patterns().len() - i,
{
    if i < 0 || i >= dangerous_patterns().len() {
        None
    } else if find(lower, lowercase(dangerous_patterns()[i])) is Some {
        Some(i)
    } else {
        first_dangerous(lower, i + 1)
    }
}

/// Why a command is refused, if it is.
pub open spec fn blocked_reason(command: Seq<char>) -> Option<Seq<char>> {
    match first_dangerous(lowercase(command), 0) {
        Some(i) => Some(
            "Command blocked for safety: '"@ + command + "' matches dangerous pattern '"@
                + dangerous_patterns()[i] + "'"@,
        ),
        None => None,
    }
}

/// Checks a command against the dangerous patterns.
pub fn check_command(command: &str) -> (r: Option<String>)
    ensures
        match r {
            Some(e) => blocked_reason(command@) == Some(e@),
            None => blocked_reason(command@) is None,
        },
{
    let lower = to_lowercase(command);
    let l = chars_of(lower.as_str());
    let list = dangerous_list();
    let ghost pats = dangerous_patterns();
    let mut i: usize = 0;
    while i < list.len()
        invariant
            i <= list@.len(),
            list@.map_values(|s: &str| s@) == pats,
            pats == dangerous_patterns(),
            l@ == lowercase(command@),
            first_dangerous(l@, 0) == first_dangerous(l@, i as int),
        decreases list@.len() - i,
    {
        assert(list@[i as int]@ == pats[i as int]);
        let pl = to_lowercase(list[i]);
        let pc = chars_of(pl.as_str());
        if find_chars(&l, &pc).is_some() {
            let mut v: Vec<char> = Vec::new();
            push_str(&mut v, "Command blocked for safety: '");
            push_str(&mut v, command);
            push_str(&mut v, "' matches dangerous pattern '");
            push_str(&mut v, list[i]);
            push_str(&mut v, "'");
            return Some(string_of(&v));
        }
        i = i + 1;
    }
    None
}

/// The exit code as reported: the process's code, or -1 when it has none
/// (killed by a signal).
pub open spec fn code_of(code: Option<i32>) -> int {
    match code {
        Some(c) => c as int,
        None => -1,
    }
}

/// What a finished command reports: its stdout, then "[stderr]" and its
/// stderr on a new line; without any output, its exit code. A failed
/// command also carries "Command exited with code: <code>".
pub open spec fn command_report(stdout: Seq<char>, stderr: Seq<char>, success: bool, code: Option<i32>) -> ResultV {
    let with_err = if stderr.len() > 0 {
        (if stdout.len() > 0 {
            stdout + "\n"@
        } else {
            stdout
        }) + "[stderr]\n"@ + stderr
    } else {
        stdout
    };
    ResultV {
        success,
        content: if with_err.len() == 0 {
            "Command completed with exit code: "@ + dec_int(code_of(code))
        } else {
            with_err
        },
        error: if success {
            None
        } else {
            Some("Command exited with code: "@ + dec_int(code_of(code)))
        },
    }
}

/// Reports a finished command.
pub fn command_result(stdout: &str, stderr: &str, success: bool, code: Option<i32>) -> (r: ToolResult)
    ensures
        r@ == command_report(stdout@, stderr@, success, code),
{
    let code_num: i64 = match code {
        Some(c) => c as i64,
        None => -1,
    };
    let mut content: Vec<char> = Vec::new();
    push_str(&mut content, stdout);
    let se = chars_of(stderr);
    if se.len() > 0 {
        if content.len() > 0 {
            content.push('\n');
            assert(content@ =~= stdout@ + "\n"@) by {
                reveal_strlit("\n");
            }
        }
        push_str(&mut content, "[stderr]\n");
        push_all(&mut content, &se);
    }
    if content.len() == 0 {
        push_str(&mut content, "Command completed with exit code: ");
        let d = dec_i64_chars(code_num);
        push_all(&mut content, &d);
    }
    let error = if success {
        None
    } else {
        let mut e: Vec<char> = Vec::new();
        push_str(&mut e, "Command exited with code: ");
        let d = dec_i64_chars(code_num);
        push_all(&mut e, &d);
        Some(string_of(&e))
    };
    ToolResult { success, content: string_of(&content), error }
}

/// Runs shell commands (always asks for approval).
pub struct BashTool;

impl BashTool {
    pub fn name(&self) -> (r: &'static str)
        ensures
            r@ == "bash"@,
    {
        "bash"
    }

    pub fn description(&self) -> (r: &'static str)
        ensures
            r@ == "Execute a shell command"@,
    {
        "Execute a shell command"
    }

    pub fn is_dangerous(&self) -> (r: bool)
        ensures
            r,
    {
        true
    }
}

} // verus!
