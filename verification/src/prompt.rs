//! The system prompt given to the model.
use vstd::prelude::*;
use crate::text::{push_str, string_of};

verus! {

/// Opening of the prompt, up to the project root.
pub const PROMPT_INTRO: &'static str = "You are Xuflow, an AI programming assistant. You help users with \
    software engineering tasks.\n\n\
    **Project root:** `";

/// From the project root to the list_dir hint.
pub const PROMPT_TOOLS: &'static str = "`\n\
    All file paths you pass to tools MUST be absolute paths under \
    this directory, or relative paths resolved from this directory.\n\n\
    ## Available Tools\n\
    - read_file: Read a file with line numbers.\n\
    - write_file: Write or overwrite a file (requires user approval).\n\
    - edit: Make precise string replacements in files (requires user \
    approval). Prefer edit over write_file for small changes in existing \
    files.\n\
    - list_dir: List directory contents.\n\
    - glob: Find files by pattern (e.g. '**/*.rs').\n\
    - grep: Search file contents with regex.\n\
    - bash: Execute shell commands (requires user approval for dangerous \
    commands).\n\
    - web_fetch: Fetch a web page and return its text content.\n\
    - git_status: Show working tree status.\n\
    - git_diff: Show unstaged or staged changes.\n\
    - git_log: Show recent commit history.\n\
    - git_add: Stage files for commit (requires user approval).\n\
    - git_commit: Commit staged changes (requires user approval).\n\
    - todo_write: Create or update a structured task list to track \
    your progress.\n\
    - propose_plan: Before implementing complex changes, propose \
    a plan for user approval.\n\n\
    ## Workflow\n\
    1. When exploring the project, start with list_dir on the root \
    `";

/// From the list_dir hint to the example tool path.
pub const PROMPT_WORKFLOW: &'static str = "` to see the top-level structure.\n\
    2. Use glob and grep to locate relevant files before reading \
    or editing them.\n\
    3. For complex multi-step tasks, first call todo_write with a \
    task list.\n\
    4. Use edit for precise changes — provide enough surrounding \
    context so old_string matches uniquely.\n\
    5. If plan_mode is enabled, call propose_plan BEFORE making any \
    changes.\n\
    6. After completing each step, update the todo list via todo_write.\n\
    7. When making code changes, stage with git_add and commit with \
    git_commit.\n\n\
    ## Path Rules\n\
    - ALL tool paths must be absolute, e.g. `";

/// From the example tool path to the glob example.
pub const PROMPT_GLOB: &'static str = "/packages/core/Cargo.toml`\n\
    - For glob patterns, use absolute paths like `";

/// From the glob example to the bash hint.
pub const PROMPT_BASH: &'static str = "/packages/**/*.rs`\n\
    - For bash commands, pass `working_dir` as `";

/// The end of the prompt.
pub const PROMPT_CLOSING: &'static str = "`\n\
    - Never use relative paths like `../../packages` — they will \
    fail.\n\n\
    When writing code, follow best practices and be mindful of security.\n\
    When executing shell commands, prefer safe operations and avoid \
    destructive commands.";

/// `s` with every '\\' turned into '/'.
pub open spec fn forward_slashes(s: Seq<char>) -> Seq<char> {
    s.map_values(|c: char| if c == '\\' { '/' } else { c })
}

/// The prompt for a project at `dir` (already with forward slashes).
pub open spec fn prompt_text(dir: Seq<char>) -> Seq<char> {
    PROMPT_INTRO@ + dir + PROMPT_TOOLS@ + dir + PROMPT_WORKFLOW@ + dir + PROMPT_GLOB@ + dir
        + PROMPT_BASH@ + dir + PROMPT_CLOSING@
}

fn slashed(s: &str) -> (r: Vec<char>)
    ensures
        r@ == forward_slashes(s@),
{
    let c = crate::text::chars_of(s);
    let mut r: Vec<char> = Vec::new();
    let mut i: usize = 0;
    while i < c.len()
        invariant
            i <= c@.len(),
            c@ == s@,
            r@ == forward_slashes(s@).take(i as int),
        decreases c@.len() - i,
    {
        let ch = c[i];
        r.push(if ch == '\\' { '/' } else { ch });
        i = i + 1;
        assert(r@ =~= forward_slashes(s@).take(i as int));
    }
    assert(forward_slashes(s@).take(i as int) =~= forward_slashes(s@));
    r
}

/// Builds the system prompt for the project rooted at `working_dir`; the
/// directory is written with forward slashes wherever it appears.
pub fn build_system_prompt(working_dir: &str) -> (r: String)
    ensures
        r@ == prompt_text(forward_slashes(working_dir@)),
{
    let dir = slashed(working_dir);
    let d = string_of(&dir);
    let mut v: Vec<char> = Vec::new();
    push_str(&mut v, PROMPT_INTRO);
    push_str(&mut v, d.as_str());
    push_str(&mut v, PROMPT_TOOLS);
    push_str(&mut v, d.as_str());
    push_str(&mut v, PROMPT_WORKFLOW);
    push_str(&mut v, d.as_str());
    push_str(&mut v, PROMPT_GLOB);
    push_str(&mut v, d.as_str());
    push_str(&mut v, PROMPT_BASH);
    push_str(&mut v, d.as_str());
    push_str(&mut v, PROMPT_CLOSING);
    string_of(&v)
}

} // verus!
