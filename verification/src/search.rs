//! The search tools: `glob` (files by name pattern) and `grep` (lines by
//! regular expression). The directory walks are the caller's; what is
//! kept, skipped, cut off and reported is decided here.
use vstd::prelude::*;
use crate::text::{
    chars_of, eq_lit, find, find_chars, join_lines, join_strings, lines, lines_chars, push_all,
    push_str, str_views, string_of, trim, trim_chars, views,
};
use crate::num::{dec, dec_chars};
use crate::order::{sort_strings, string_le};
use crate::tool::{ToolResult, ResultV, ok_v};

verus! {

// ─── Regular expressions ───────────────────────────────────────────────

/// What `regex::Regex::new` makes of a pattern: a regex, or the text of
/// its error.
pub uninterp spec fn regex_compiled(pattern: Seq<char>) -> Result<(), Seq<char>>;

/// Whether the regex built from `pattern` matches somewhere in `text`
/// (`Regex::is_match`).
pub uninterp spec fn regex_matches(pattern: Seq<char>, text: Seq<char>) -> bool;

/// Compiles `pattern` with `regex::Regex::new` and keeps only whether it
/// compiled; an error comes back as its `Display` text. Both are named,
/// not described.
#[verifier::external_body]
fn check_regex(pattern: &str) -> (r: Result<(), String>)
    ensures
        match r {
            Ok(()) => regex_compiled(pattern@) is Ok,
            Err(e) => regex_compiled(pattern@) == Err::<(), Seq<char>>(e@),
        },
{
    match regex::Regex::new(pattern) {
        Ok(_) => Ok(()),
        Err(e) => Err(e.to_string()),
    }
}

/// Checks a grep pattern: a pattern that does not compile fails the call
/// with "Invalid regex: <error>".
pub fn validate_pattern(pattern: &str) -> (r: Result<(), ToolResult>)
    ensures
        match r {
            Ok(()) => regex_compiled(pattern@) is Ok,
            Err(t) => regex_compiled(pattern@) matches Err(e) && t@ == crate::tool::err_v(
                "Invalid regex: "@ + e,
            ),
        },
{
    match check_regex(pattern) {
        Ok(()) => Ok(()),
        Err(e) => Err(crate::tool::failure("Invalid regex: ", e.as_str())),
    }
}

/// Compiles `pattern` (which compiles) and tells for each line whether
/// `Regex::is_match` accepts it.
#[verifier::external_body]
fn regex_match_lines(pattern: &str, lines: &Vec<Vec<char>>) -> (r: Vec<bool>)
    requires
        regex_compiled(pattern@) is Ok,
    ensures
        r@.len() == lines@.len(),
        forall|i: int| 0 <= i < lines@.len() ==> r@[i] == regex_matches(pattern@, lines@[i]@),
{
    let re = regex::Regex::new(pattern).unwrap();
    let mut r = Vec::new();
    for l in lines {
        r.push(re.is_match(&l.iter().collect::<String>()));
    }
    r
}

// ─── grep ──────────────────────────────────────────────────────────────

/// At most this many matching lines are reported.
pub const GREP_MAX_MATCHES: usize = 500;

/// Directory entries the walk does not enter or read: hidden names (but
/// "."), node_modules, target and .git.
pub open spec fn grep_skips_name(name: Seq<char>) -> bool {
    (name.len() > 0 && name[0] == '.' && name != "."@) || name == "node_modules"@ || name
        == "target"@ || name == ".git"@
}

/// Whether the walk skips an entry with this file name.
pub fn grep_skip_name(name: &str) -> (r: bool)
    ensures
        r == grep_skips_name(name@),
{
    let n = chars_of(name);
    (n.len() > 0 && n[0] == '.' && !eq_lit(&n, ".")) || eq_lit(&n, "node_modules") || eq_lit(
        &n,
        "target",
    ) || eq_lit(&n, ".git")
}

/// Extensions of files that are not searched (binaries, images, archives).
pub open spec fn binary_extension(ext: Seq<char>) -> bool {
    ||| ext == "exe"@
    ||| ext == "dll"@
    ||| ext == "so"@
    ||| ext == "dylib"@
    ||| ext == "bin"@
    ||| ext == "png"@
    ||| ext == "jpg"@
    ||| ext == "jpeg"@
    ||| ext == "gif"@
    ||| ext == "ico"@
    ||| ext == "pdf"@
    ||| ext == "zip"@
    ||| ext == "tar"@
    ||| ext == "gz"@
    ||| ext == "wasm"@
}

/// Whether files with this extension are skipped.
pub fn is_binary_extension(ext: &str) -> (r: bool)
    ensures
        r == binary_extension(ext@),
{
    let e = chars_of(ext);
    eq_lit(&e, "exe") || eq_lit(&e, "dll") || eq_lit(&e, "so") || eq_lit(&e, "dylib") || eq_lit(
        &e,
        "bin",
    ) || eq_lit(&e, "png") || eq_lit(&e, "jpg") || eq_lit(&e, "jpeg") || eq_lit(&e, "gif")
        || eq_lit(&e, "ico") || eq_lit(&e, "pdf") || eq_lit(&e, "zip") || eq_lit(&e, "tar")
        || eq_lit(&e, "gz") || eq_lit(&e, "wasm")
}

/// The lines found so far and how many there are.
pub struct GrepState {
    pub results: Vec<String>,
    pub count: usize,
}

/// The matching lines of one file, "<path>:<line number>: <trimmed line>",
/// taken in order while fewer than `GREP_MAX_MATCHES` lines are found;
/// `k` lines of the file have been looked at.
pub open spec fn grep_lines(
    pattern: Seq<char>,
    path: Seq<char>,
    ls: Seq<Seq<char>>,
    found: Seq<Seq<char>>,
    count: nat,
) -> (Seq<Seq<char>>, nat)
    decreases ls.len(),
{
    if ls.len() == 0 {
        (found, count)
    } else {
        let prev = grep_lines(pattern, path, ls.drop_last(), found, count);
        if prev.1 < GREP_MAX_MATCHES && regex_matches(pattern, ls.last()) {
            (prev.0.push(path + ":"@ + dec(ls.len()) + ": "@ + trim(ls.last())), prev.1 + 1)
        } else {
            prev
        }
    }
}

pub open spec fn truncation_line(count: nat) -> Seq<char> {
    "... (truncated, "@ + dec(count) + " matches total)"@
}

impl GrepState {
    /// No lines found yet.
    pub fn new() -> (r: GrepState)
        ensures
            r.results@.len() == 0,
            r.count == 0,
    {
        GrepState { results: Vec::new(), count: 0 }
    }

    /// Called before each entry of the walk: once the limit is reached, it
    /// adds the truncation line and returns false (the walk stops).
    pub fn before_entry(&mut self) -> (go_on: bool)
        ensures
            go_on == (old(self).count < GREP_MAX_MATCHES),
            final(self).count == old(self).count,
            go_on ==> str_views(final(self).results@) == str_views(old(self).results@),
            !go_on ==> str_views(final(self).results@) == str_views(old(self).results@).push(
                truncation_line(old(self).count as nat),
            ),
    {
        if self.count >= GREP_MAX_MATCHES {
            let mut v: Vec<char> = Vec::new();
            push_str(&mut v, "... (truncated, ");
            let d = dec_chars(self.count as u64);
            push_all(&mut v, &d);
            push_str(&mut v, " matches total)");
            let ghost before = self.results@;
            self.results.push(string_of(&v));
            proof {
                crate::text::lemma_str_views_push(before, self.results@.last());
            }
            false
        } else {
            true
        }
    }

    /// Searches the text of one file (shown as `path`) for `pattern`,
    /// which compiles.
    fn search_file(&mut self, pattern: &str, path: &str, content: &str)
        requires
            regex_compiled(pattern@) is Ok,
            old(self).count <= GREP_MAX_MATCHES,
        ensures
            (str_views(final(self).results@), final(self).count as nat) == grep_lines(
                pattern@,
                path@,
                lines(content@),
                str_views(old(self).results@),
                old(self).count as nat,
            ),
            final(self).count <= GREP_MAX_MATCHES,
    {
        let c = chars_of(content);
        let ls = lines_chars(&c);
        let hits = regex_match_lines(pattern, &ls);
        let ghost lv = views(ls@);
        let ghost r0 = str_views(self.results@);
        let ghost c0 = self.count as nat;
        let mut i: usize = 0;
        while i < ls.len()
            invariant
                i <= ls@.len(),
                lv == views(ls@),
                lv == lines(content@),
                hits@.len() == ls@.len(),
                forall|j: int| 0 <= j < ls@.len() ==> hits@[j] == regex_matches(pattern@, ls@[j]@),
                (str_views(self.results@), self.count as nat) == grep_lines(
                    pattern@,
                    path@,
                    lv.take(i as int),
                    r0,
                    c0,
                ),
                self.count <= GREP_MAX_MATCHES,
            decreases ls@.len() - i,
        {
            assert(lv.take(i + 1).drop_last() =~= lv.take(i as int));
            assert(lv.take(i + 1).last() == ls@[i as int]@);
            if self.count < GREP_MAX_MATCHES && hits[i] {
                let mut v: Vec<char> = Vec::new();
                push_str(&mut v, path);
                push_str(&mut v, ":");
                let d = dec_chars((i + 1) as u64);
                push_all(&mut v, &d);
                push_str(&mut v, ": ");
                let t = trim_chars(&ls[i]);
                push_all(&mut v, &t);
                let ghost before = self.results@;
                self.results.push(string_of(&v));
                proof {
                    crate::text::lemma_str_views_push(before, self.results@.last());
                }
                self.count = self.count + 1;
            }
            i = i + 1;
        }
        assert(lv.take(i as int) =~= lv);
    }

    /// Searches the text of one file (shown as `path`) for `pattern`; a
    /// pattern that does not compile finds nothing and returns false.
    pub fn search(&mut self, pattern: &str, path: &str, content: &str) -> (ok: bool)
        requires
            old(self).count <= GREP_MAX_MATCHES,
        ensures
            ok == regex_compiled(pattern@) is Ok,
            ok ==> (str_views(final(self).results@), final(self).count as nat) == grep_lines(
                pattern@,
                path@,
                lines(content@),
                str_views(old(self).results@),
                old(self).count as nat,
            ),
            !ok ==> str_views(final(self).results@) == str_views(old(self).results@) && final(self).count == old(self).count,
            final(self).count <= GREP_MAX_MATCHES,
    {
        match check_regex(pattern) {
            Ok(()) => {
                self.search_file(pattern, path, content);
                true
            },
            Err(_) => false,
        }
    }

    /// The report: the lines found joined by "\n", or that nothing was
    /// found.
    pub fn finish(self, pattern: &str) -> (r: ToolResult)
        ensures
            r@ == ok_v(
                if self.results@.len() == 0 {
                    "No matches found for pattern: "@ + pattern@
                } else {
                    join_lines(str_views(self.results@), "\n"@)
                },
            ),
    {
        if self.results.len() == 0 {
            let mut v: Vec<char> = Vec::new();
            push_str(&mut v, "No matches found for pattern: ");
            push_str(&mut v, pattern);
            ToolResult::ok(string_of(&v))
        } else {
            let j = join_strings(&self.results);
            ToolResult::ok(string_of(&j))
        }
    }
}

// ─── glob ──────────────────────────────────────────────────────────────

/// At most this many paths are listed.
pub const GLOB_MAX_RESULTS: usize = 1000;

/// `s` without the characters `c` at its end (`trim_end_matches`).
pub open spec fn strip_end(s: Seq<char>, c: char) -> Seq<char>
    decreases s.len(),
{
    if s.len() > 0 && s.last() == c {
        strip_end(s.drop_last(), c)
    } else {
        s
    }
}

/// `s` without the characters `c` at its start (`trim_start_matches`).
pub open spec fn strip_start(s: Seq<char>, c: char) -> Seq<char>
    decreases s.len(),
{
    if s.len() > 0 && s[0] == c {
        strip_start(s.drop_first(), c)
    } else {
        s
    }
}

/// The pattern searched: the pattern itself under ".", else
/// "<base without trailing '/'>/<pattern without leading '/'>".
pub open spec fn full_glob(base: Seq<char>, pattern: Seq<char>) -> Seq<char> {
    if base == "."@ {
        pattern
    } else {
        strip_end(base, '/') + "/"@ + strip_start(pattern, '/')
    }
}

pub(crate) fn strip_end_chars(s: &[char], c: char) -> (r: Vec<char>)
    ensures
        r@ == strip_end(s@, c),
{
    let mut n = s.len();
    assert(s@.take(n as int) =~= s@);
    while n > 0 && s[n - 1] == c
        invariant
            n <= s@.len(),
            strip_end(s@, c) == strip_end(s@.take(n as int), c),
        decreases n,
    {
        assert(s@.take(n as int).drop_last() =~= s@.take(n - 1));
        n = n - 1;
    }
    let r = crate::text::slice_of(s, 0, n);
    assert(r@ =~= s@.take(n as int));
    r
}

fn strip_start_chars(s: &[char], c: char) -> (r: Vec<char>)
    ensures
        r@ == strip_start(s@, c),
{
    let mut k: usize = 0;
    assert(s@.skip(0) =~= s@);
    while k < s.len() && s[k] == c
        invariant
            k <= s@.len(),
            strip_start(s@, c) == strip_start(s@.skip(k as int), c),
        decreases s@.len() - k,
    {
        assert(s@.skip(k as int).drop_first() =~= s@.skip(k + 1));
        k = k + 1;
    }
    let r = crate::text::slice_of(s, k, s.len());
    assert(r@ =~= s@.skip(k as int));
    r
}

/// Builds the pattern that `glob` searches.
pub fn glob_full_pattern(base: &str, pattern: &str) -> (r: String)
    ensures
        r@ == full_glob(base@, pattern@),
{
    let b = chars_of(base);
    if eq_lit(&b, ".") {
        return String::from_str(pattern);
    }
    let p = chars_of(pattern);
    let mut v = strip_end_chars(&b, '/');
    push_str(&mut v, "/");
    let q = strip_start_chars(&p, '/');
    push_all(&mut v, &q);
    string_of(&v)
}

/// Paths that are never listed: under a hidden directory (or hidden
/// themselves), under node_modules or under target.
pub open spec fn glob_hides(path: Seq<char>) -> bool {
    ||| find(path, "/."@) is Some
    ||| find(path, "\\."@) is Some
    ||| find(path, "/node_modules/"@) is Some
    ||| find(path, "\\node_modules\\"@) is Some
    ||| find(path, "/target/"@) is Some
    ||| find(path, "\\target\\"@) is Some
}

fn has(p: &[char], lit: &str) -> (r: bool)
    ensures
        r == (find(p@, lit@) is Some),
{
    let l = chars_of(lit);
    find_chars(p, &l).is_some()
}

/// Whether a matched file's path is left out.
pub fn glob_hidden(path: &str) -> (r: bool)
    ensures
        r == glob_hides(path@),
{
    let p = chars_of(path);
    has(&p, "/.") || has(&p, "\\.") || has(&p, "/node_modules/") || has(&p, "\\node_modules\\")
        || has(&p, "/target/") || has(&p, "\\target\\")
}

/// The paths listed so far.
pub struct GlobState {
    pub results: Vec<String>,
}

pub open spec fn glob_truncation() -> Seq<char> {
    "... (truncated, 1000 results total — narrow your pattern)"@
}

impl GlobState {
    pub fn new() -> (r: GlobState)
        ensures
            r.results@.len() == 0,
    {
        GlobState { results: Vec::new() }
    }

    /// Called before each match: once 1000 paths are listed, it adds the
    /// truncation line and returns false (the search stops).
    pub fn before_entry(&mut self) -> (go_on: bool)
        ensures
            go_on == (old(self).results@.len() < GLOB_MAX_RESULTS),
            go_on ==> str_views(final(self).results@) == str_views(old(self).results@),
            !go_on ==> str_views(final(self).results@) == str_views(old(self).results@).push(
                glob_truncation(),
            ),
    {
        if self.results.len() >= GLOB_MAX_RESULTS {
            let ghost before = self.results@;
            self.results.push(String::from_str("... (truncated, 1000 results total — narrow your pattern)"));
            proof {
                crate::text::lemma_str_views_push(before, self.results@.last());
            }
            false
        } else {
            true
        }
    }

    /// Lists a matched file unless its path is hidden.
    pub fn add_file(&mut self, path: String)
        ensures
            glob_hides(path@) ==> str_views(final(self).results@) == str_views(old(self).results@),
            !glob_hides(path@) ==> str_views(final(self).results@) == str_views(old(self).results@).push(path@),
    {
        if !glob_hidden(path.as_str()) {
            let ghost before = self.results@;
            self.results.push(path);
            proof {
                crate::text::lemma_str_views_push(before, self.results@.last());
            }
        }
    }

    /// The report: the listed paths sorted and joined by "\n", or that no
    /// file matched `full_pattern`.
    pub fn finish(self, full_pattern: &str) -> (r: ToolResult)
        ensures
            r@ == ok_v(
                if self.results@.len() == 0 {
                    "No files found matching pattern: "@ + full_pattern@
                } else {
                    join_lines(str_views(self.results@).sort_by(string_le()), "\n"@)
                },
            ),
    {
        if self.results.len() == 0 {
            let mut v: Vec<char> = Vec::new();
            push_str(&mut v, "No files found matching pattern: ");
            push_str(&mut v, full_pattern);
            ToolResult::ok(string_of(&v))
        } else {
            let sorted = sort_strings(self.results);
            let j = join_strings(&sorted);
            ToolResult::ok(string_of(&j))
        }
    }
}

/// Finds files by glob pattern.
pub struct GlobTool;

/// Searches file contents by regular expression.
pub struct GrepTool;

impl GlobTool {
    /// The description shown to the model.
    pub fn description(&self) -> (r: &'static str)
        ensures
            r@ == "Find files matching a glob pattern (e.g. '**/*.rs', 'src/**/*.vue'). Returns sorted file paths, skipping hidden dirs, node_modules, target, and .git."@,
    {
        "Find files matching a glob pattern (e.g. '**/*.rs', 'src/**/*.vue'). Returns sorted file paths, skipping hidden dirs, node_modules, target, and .git."
    }

    pub fn name(&self) -> (r: &'static str)
        ensures
            r@ == "glob"@,
    {
        "glob"
    }

    pub fn is_dangerous(&self) -> (r: bool)
        ensures
            !r,
    {
        false
    }
}

impl GrepTool {
    pub fn name(&self) -> (r: &'static str)
        ensures
            r@ == "grep"@,
    {
        "grep"
    }

    pub fn description(&self) -> (r: &'static str)
        ensures
            r@ == "Search files using regex patterns (powered by ripgrep)"@,
    {
        "Search files using regex patterns (powered by ripgrep)"
    }

    pub fn is_dangerous(&self) -> (r: bool)
        ensures
            !r,
    {
        false
    }
}

// ─── Laws of a whole search ────────────────────────────────────────────

/// The lines a grep finds over the files of a walk, given as (path,
/// content) in walk order: each file is searched while fewer than
/// `GREP_MAX_MATCHES` lines are found; once that many are, the truncation
/// line is added and the walk stops.
pub open spec fn grep_walk(pattern: Seq<char>, files: Seq<(Seq<char>, Seq<char>)>, found: Seq<Seq<char>>, count: nat) -> (Seq<Seq<char>>, nat)
    decreases files.len(),
{
    if files.len() == 0 {
        (found, count)
    } else if count >= GREP_MAX_MATCHES {
        (found.push(truncation_line(count)), count)
    } else {
        let r = grep_lines(pattern, files[0].0, lines(files[0].1), found, count);
        grep_walk(pattern, files.drop_first(), r.0, r.1)
    }
}

proof fn lemma_grep_lines_count(pattern: Seq<char>, path: Seq<char>, ls: Seq<Seq<char>>, found: Seq<Seq<char>>, count: nat)
    requires
        count <= GREP_MAX_MATCHES,
    ensures
        count <= grep_lines(pattern, path, ls, found, count).1 <= GREP_MAX_MATCHES,
        grep_lines(pattern, path, ls, found, count).0.len() - found.len() == grep_lines(pattern, path, ls, found, count).1 - count,
    decreases ls.len(),
{
    if ls.len() > 0 {
        lemma_grep_lines_count(pattern, path, ls.drop_last(), found, count);
    }
}

/// A grep over a whole walk finds at most `GREP_MAX_MATCHES` lines, and its
/// report lists exactly the lines found, followed by the truncation line
/// when the limit stopped the walk.
pub proof fn law_grep_walk_capped(pattern: Seq<char>, files: Seq<(Seq<char>, Seq<char>)>)
    ensures
        ({
            let (r, n) = grep_walk(pattern, files, seq![], 0);
            &&& n <= GREP_MAX_MATCHES
            &&& (r.len() == n || (r.len() == n + 1 && r.last() == truncation_line(n)))
        }),
{
    lemma_grep_walk(pattern, files, seq![], 0);
}

proof fn lemma_grep_walk(pattern: Seq<char>, files: Seq<(Seq<char>, Seq<char>)>, found: Seq<Seq<char>>, count: nat)
    requires
        count <= GREP_MAX_MATCHES,
        found.len() == count,
    ensures
        ({
            let (r, n) = grep_walk(pattern, files, found, count);
            &&& n <= GREP_MAX_MATCHES
            &&& (r.len() == n || (r.len() == n + 1 && r.last() == truncation_line(n)))
        }),
    decreases files.len(),
{
    if files.len() > 0 && count < GREP_MAX_MATCHES {
        lemma_grep_lines_count(pattern, files[0].0, lines(files[0].1), found, count);
        let r = grep_lines(pattern, files[0].0, lines(files[0].1), found, count);
        lemma_grep_walk(pattern, files.drop_first(), r.0, r.1);
    }
}

/// The paths a glob lists from the regular files it matches, in order:
/// hidden paths are left out; once `GLOB_MAX_RESULTS` are listed, the
/// truncation line is added and the search stops.
pub open spec fn glob_collect(listed: Seq<Seq<char>>, paths: Seq<Seq<char>>) -> Seq<Seq<char>>
    decreases paths.len(),
{
    if paths.len() == 0 {
        listed
    } else if listed.len() >= GLOB_MAX_RESULTS {
        listed.push(glob_truncation())
    } else {
        glob_collect(if glob_hides(paths[0]) { listed } else { listed.push(paths[0]) }, paths.drop_first())
    }
}

proof fn lemma_glob_collect(listed: Seq<Seq<char>>, rest: Seq<Seq<char>>, all: Seq<Seq<char>>)
    requires
        listed.len() <= GLOB_MAX_RESULTS,
        forall|i: int| 0 <= i < listed.len() ==> !glob_hides(#[trigger] listed[i]) && all.contains(listed[i]),
        forall|x: Seq<char>| rest.contains(x) ==> all.contains(x),
    ensures
        ({
            let r = glob_collect(listed, rest);
            &&& r.len() <= GLOB_MAX_RESULTS + 1
            &&& forall|i: int| 0 <= i < r.len() ==> (#[trigger] r[i] == glob_truncation() && i == r.len() - 1)
                || (!glob_hides(r[i]) && all.contains(r[i]))
        }),
    decreases rest.len(),
{
    if rest.len() > 0 && listed.len() < GLOB_MAX_RESULTS {
        let tail = rest.drop_first();
        let l2 = if glob_hides(rest[0]) { listed } else { listed.push(rest[0]) };
        assert(rest.contains(rest[0]));
        assert forall|i: int| 0 <= i < l2.len() implies !glob_hides(#[trigger] l2[i]) && all.contains(l2[i]) by {
            if i < listed.len() {
                assert(l2[i] == listed[i]);
            }
        }
        assert forall|x: Seq<char>| tail.contains(x) implies all.contains(x) by {
            let j = choose|j: int| 0 <= j < tail.len() && tail[j] == x;
            assert(rest[j + 1] == x);
        }
        lemma_glob_collect(l2, tail, all);
    } else if rest.len() > 0 {
        let r = listed.push(glob_truncation());
        assert forall|i: int| 0 <= i < r.len() implies (#[trigger] r[i] == glob_truncation() && i == r.len() - 1)
            || (!glob_hides(r[i]) && all.contains(r[i])) by {
            if i < listed.len() {
                assert(r[i] == listed[i]);
            }
        }
    }
}

/// A glob over any matches lists at most `GLOB_MAX_RESULTS` paths (then the
/// truncation line, last), each one of the matches and none hidden.
pub proof fn law_glob_lists_visible_matches(paths: Seq<Seq<char>>)
    ensures
        ({
            let r = glob_collect(seq![], paths);
            &&& r.len() <= GLOB_MAX_RESULTS + 1
            &&& forall|i: int| 0 <= i < r.len() ==> (#[trigger] r[i] == glob_truncation() && i == r.len() - 1)
                || (!glob_hides(r[i]) && paths.contains(r[i]))
        }),
{
    lemma_glob_collect(seq![], paths, paths);
}

} // verus!
