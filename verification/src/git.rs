//! The git tools: status, diff, log, add and commit. Running git is the
//! caller's; the checks on the arguments and the reports are decided here.
use vstd::prelude::*;
use crate::text::{chars_of, push_all, push_str, str_views, string_of};
use crate::num::{dec, dec_chars, dec_int, dec_i64_chars};
use crate::extract::{fit_count, utf8_len};
use crate::tool::{ToolResult, ResultV, err_v};

verus! {

/// Checks the directory a git command runs in, given whether the path
/// exists and whether it is a directory.
pub fn validate_dir(path: &str, exists: bool, is_dir: bool) -> (r: Result<(), String>)
    ensures
        !exists ==> (r matches Err(e) && e@ == "Directory does not exist: "@ + path@),
        exists && !is_dir ==> (r matches Err(e) && e@ == "Path is not a directory: "@ + path@),
        exists && is_dir ==> r is Ok,
{
    if !exists {
        let mut v: Vec<char> = Vec::new();
        push_str(&mut v, "Directory does not exist: ");
        push_str(&mut v, path);
        Err(string_of(&v))
    } else if !is_dir {
        let mut v: Vec<char> = Vec::new();
        push_str(&mut v, "Path is not a directory: ");
        push_str(&mut v, path);
        Err(string_of(&v))
    } else {
        Ok(())
    }
}

/// A git command's report: successful exactly when it exited with 0,
/// otherwise with "git <sub> exited with code <code>".
pub open spec fn git_report(sub: Seq<char>, content: Seq<char>, code: i32) -> ResultV {
    ResultV {
        success: code == 0,
        content,
        error: if code != 0 {
            Some("git "@ + sub + " exited with code "@ + dec_int(code as int))
        } else {
            None
        },
    }
}

fn git_result(sub: &str, content: Vec<char>, code: i32) -> (r: ToolResult)
    ensures
        r@ == git_report(sub@, content@, code),
{
    let error = if code != 0 {
        let mut v: Vec<char> = Vec::new();
        push_str(&mut v, "git ");
        push_str(&mut v, sub);
        push_str(&mut v, " exited with code ");
        let d = dec_i64_chars(code as i64);
        push_all(&mut v, &d);
        Some(string_of(&v))
    } else {
        None
    };
    ToolResult { success: code == 0, content: string_of(&content), error }
}

/// stdout, then stderr on a new line after it.
pub open spec fn both_streams(stdout: Seq<char>, stderr: Seq<char>) -> Seq<char> {
    if stderr.len() > 0 {
        if stdout.len() > 0 {
            stdout + "\n"@ + stderr
        } else {
            stderr
        }
    } else {
        stdout
    }
}

fn both_streams_chars(stdout: &str, stderr: &str) -> (r: Vec<char>)
    ensures
        r@ == both_streams(stdout@, stderr@),
{
    let mut v = chars_of(stdout);
    let e = chars_of(stderr);
    if e.len() > 0 {
        if v.len() > 0 {
            push_str(&mut v, "\n");
        }
        push_all(&mut v, &e);
    }
    v
}

/// `git status --porcelain`: its output, or stderr when there is none, or
/// that the tree is clean.
pub fn git_status_report(stdout: &str, stderr: &str, code: i32) -> (r: ToolResult)
    ensures
        r@ == git_report(
            "status"@,
            if stdout@.len() == 0 && stderr@.len() == 0 {
                "Working tree clean — no changes."@
            } else if stdout@.len() == 0 {
                stderr@
            } else {
                stdout@
            },
            code,
        ),
{
    let o = chars_of(stdout);
    let e = chars_of(stderr);
    let content = if o.len() == 0 && e.len() == 0 {
        chars_of("Working tree clean — no changes.")
    } else if o.len() == 0 {
        e
    } else {
        o
    };
    git_result("status", content, code)
}

/// A diff longer than this many bytes is cut.
pub const DIFF_LIMIT: usize = 50_000;

/// Whether a diff can be cut at `DIFF_LIMIT` bytes: it is short enough, or
/// a character ends exactly there.
pub open spec fn diff_cuttable(stdout: Seq<char>) -> bool {
    utf8_len(stdout) > 50_000 ==> utf8_len(stdout.take(fit_count(stdout, 50_000) as int)) == 50_000
}

/// `git diff`: its output cut to 50000 bytes, or that nothing changed.
pub open spec fn diff_content(stdout: Seq<char>) -> Seq<char> {
    if stdout.len() == 0 {
        "No changes."@
    } else if utf8_len(stdout) > 50_000 {
        stdout.take(fit_count(stdout, 50_000) as int) + "...\n\n[Diff truncated at 50000 characters]"@
    } else {
        stdout
    }
}

/// Reports `git diff`. A diff longer than the limit whose cut would fall
/// inside a character is not accepted (`&stdout[..50000]` would panic).
pub fn git_diff_report(stdout: &str, code: i32) -> (r: ToolResult)
    requires
        diff_cuttable(stdout@),
    ensures
        r@ == git_report("diff"@, diff_content(stdout@), code),
{
    let o = chars_of(stdout);
    if o.len() == 0 {
        return git_result("diff", chars_of("No changes."), code);
    }
    let (k, _) = crate::extract::fit_prefix(&o, DIFF_LIMIT);
    if k < o.len() {
        proof {
            crate::extract::lemma_fit_count_bound(o@, 50_000);
        }
        let mut v = crate::text::slice_of(&o, 0, k);
        push_str(&mut v, "...\n\n[Diff truncated at 50000 characters]");
        git_result("diff", v, code)
    } else {
        git_result("diff", o, code)
    }
}

/// Whether `stdout` can be cut as `git_diff_report` needs.
pub fn diff_is_cuttable(stdout: &str) -> (r: bool)
    ensures
        r == diff_cuttable(stdout@),
{
    let o = chars_of(stdout);
    let (k, b) = crate::extract::fit_prefix(&o, DIFF_LIMIT);
    proof {
        crate::extract::lemma_fit_count_bound(o@, 50_000);
    }
    k == o.len() || b == DIFF_LIMIT
}

/// `git log --oneline`: its output, or that there are no commits.
pub fn git_log_report(stdout: &str, code: i32) -> (r: ToolResult)
    ensures
        r@ == git_report(
            "log"@,
            if stdout@.len() == 0 {
                "No commits yet."@
            } else {
                stdout@
            },
            code,
        ),
{
    let o = chars_of(stdout);
    if o.len() == 0 {
        git_result("log", chars_of("No commits yet."), code)
    } else {
        git_result("log", o, code)
    }
}

/// The `-n` argument of `git log`: the requested count, 10 by default.
pub fn log_count_arg(count: Option<u64>) -> (r: String)
    ensures
        r@ == dec(
            match count {
                Some(c) => c as nat,
                None => 10,
            },
        ),
{
    let c = match count {
        Some(c) => c,
        None => 10,
    };
    let d = dec_chars(c);
    string_of(&d)
}

/// The string items of the `files` argument, in order.
pub open spec fn string_items(items: Seq<Option<String>>) -> Seq<Seq<char>>
    decreases items.len(),
{
    if items.len() == 0 {
        seq![]
    } else {
        let prev = string_items(items.drop_last());
        match items.last() {
            Some(s) => prev.push(s@),
            None => prev,
        }
    }
}

/// The files to stage: the string items of the `files` array (`None` when
/// the argument is missing or not an array). No array, or no file in it,
/// fails.
pub fn git_add_files(files: Option<Vec<Option<String>>>) -> (r: Result<Vec<String>, ToolResult>)
    ensures
        match files {
            None => (r matches Err(t) && t@ == err_v(
                "Missing required parameter: files (array of file paths)"@,
            )),
            Some(items) => if string_items(items@).len() == 0 {
                (r matches Err(t) && t@ == err_v("files array is empty"@))
            } else {
                (r matches Ok(v) && str_views(v@) == string_items(items@))
            },
        },
{
    match files {
        None => Err(ToolResult::err(String::from_str("Missing required parameter: files (array of file paths)"))),
        Some(items) => {
            let ghost iv = items@;
            let mut out: Vec<String> = Vec::new();
            let mut rest = items;
            let ghost n = iv.len();
            assert(iv.take(0) =~= seq![]);
            assert(rest@ =~= iv.skip(0));
            while rest.len() > 0
                invariant
                    rest@.len() <= n,
                    n == iv.len(),
                    rest@ == iv.skip(n - rest@.len()),
                    str_views(out@) == string_items(iv.take(n - rest@.len())),
                decreases rest@.len(),
            {
                let ghost i: int = n - rest@.len();
                assert(rest@[0] == iv[i]);
                let x = rest.remove(0);
                assert(rest@ =~= iv.skip(n - rest@.len()));
                assert(iv.take(i + 1).drop_last() =~= iv.take(i));
                match x {
                    Some(s) => {
                        let ghost before = out@;
                        out.push(s);
                        proof {
                            crate::text::lemma_str_views_push(before, out@.last());
                        }
                    },
                    None => {},
                }
            }
            assert(iv.take(n as int) =~= iv);
            if out.len() == 0 {
                Err(ToolResult::err(String::from_str("files array is empty")))
            } else {
                Ok(out)
            }
        },
    }
}

/// `git add`: stdout and stderr, or how many files were staged.
pub fn git_add_report(stdout: &str, stderr: &str, code: i32, files: usize) -> (r: ToolResult)
    ensures
        r@ == git_report(
            "add"@,
            if both_streams(stdout@, stderr@).len() == 0 {
                "Staged "@ + dec(files as nat) + " file(s)."@
            } else {
                both_streams(stdout@, stderr@)
            },
            code,
        ),
{
    let mut content = both_streams_chars(stdout, stderr);
    if content.len() == 0 {
        push_str(&mut content, "Staged ");
        let d = dec_chars(files as u64);
        push_all(&mut content, &d);
        push_str(&mut content, " file(s).");
    }
    git_result("add", content, code)
}

/// `git commit`: stdout and stderr, or the message committed.
pub fn git_commit_report(stdout: &str, stderr: &str, code: i32, message: &str) -> (r: ToolResult)
    ensures
        r@ == git_report(
            "commit"@,
            if both_streams(stdout@, stderr@).len() == 0 {
                "Committed with message: "@ + message@
            } else {
                both_streams(stdout@, stderr@)
            },
            code,
        ),
{
    let mut content = both_streams_chars(stdout, stderr);
    if content.len() == 0 {
        push_str(&mut content, "Committed with message: ");
        push_str(&mut content, message);
    }
    git_result("commit", content, code)
}

/// Shows the working tree status.
pub struct GitStatusTool;

/// Shows unstaged or staged changes.
pub struct GitDiffTool;

/// Shows recent commits.
pub struct GitLogTool;

/// Stages files; asks for approval.
pub struct GitAddTool;

/// Commits staged changes; asks for approval.
pub struct GitCommitTool;

impl GitStatusTool {
    /// The description shown to the model.
    pub fn description(&self) -> (r: &'static str)
        ensures
            r@ == "Show the working tree status (git status --porcelain)."@,
    {
        "Show the working tree status (git status --porcelain)."
    }

    pub fn name(&self) -> (r: &'static str)
        ensures
            r@ == "git_status"@,
    {
        "git_status"
    }

    pub fn is_dangerous(&self) -> (r: bool)
        ensures
            !r,
    {
        false
    }
}

impl GitDiffTool {
    /// The description shown to the model.
    pub fn description(&self) -> (r: &'static str)
        ensures
            r@ == "Show changes in the working directory (git diff). Use staged=true for staged changes."@,
    {
        "Show changes in the working directory (git diff). Use staged=true for staged changes."
    }

    pub fn name(&self) -> (r: &'static str)
        ensures
            r@ == "git_diff"@,
    {
        "git_diff"
    }

    pub fn is_dangerous(&self) -> (r: bool)
        ensures
            !r,
    {
        false
    }
}

impl GitLogTool {
    /// The description shown to the model.
    pub fn description(&self) -> (r: &'static str)
        ensures
            r@ == "Show recent commit history (git log --oneline)."@,
    {
        "Show recent commit history (git log --oneline)."
    }

    pub fn name(&self) -> (r: &'static str)
        ensures
            r@ == "git_log"@,
    {
        "git_log"
    }

    pub fn is_dangerous(&self) -> (r: bool)
        ensures
            !r,
    {
        false
    }
}

impl GitAddTool {
    /// The description shown to the model.
    pub fn description(&self) -> (r: &'static str)
        ensures
            r@ == "Stage files for commit (git add <files>)."@,
    {
        "Stage files for commit (git add <files>)."
    }

    pub fn name(&self) -> (r: &'static str)
        ensures
            r@ == "git_add"@,
    {
        "git_add"
    }

    pub fn is_dangerous(&self) -> (r: bool)
        ensures
            r,
    {
        true
    }
}

impl GitCommitTool {
    /// The description shown to the model.
    pub fn description(&self) -> (r: &'static str)
        ensures
            r@ == "Commit staged changes (git commit -m <message>). Only commit what was staged — never add+commit in one step."@,
    {
        "Commit staged changes (git commit -m <message>). Only commit what was staged — never add+commit in one step."
    }

    pub fn name(&self) -> (r: &'static str)
        ensures
            r@ == "git_commit"@,
    {
        "git_commit"
    }

    pub fn is_dangerous(&self) -> (r: bool)
        ensures
            r,
    {
        true
    }
}

} // verus!
