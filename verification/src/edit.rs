//! The `edit` tool: exact string replacement in a file.
//!
//! The text to replace must occur exactly once, unless every occurrence is
//! to be replaced; otherwise the edit is refused with the places where it
//! occurs, so that a more specific text can be given.
use vstd::prelude::*;
use crate::text::{
    chars_of, find, find_chars, join_lines, lines, lines_chars, occurs_at, occurs_at_chars,
    push_all, push_str, slice_of, string_of, trim, trim_chars, views,
};
use crate::num::{dec, dec_chars};
use crate::tool::{ToolResult, ResultV, ok_v, err_v};

verus! {

// ─── Occurrences and replacement ───────────────────────────────────────

/// How far the scan moves past a match: the pattern's length, or one
/// character for the empty pattern (which matches at every position).
pub open spec fn stride(p: Seq<char>) -> int {
    if p.len() == 0 {
        1
    } else {
        p.len() as int
    }
}

/// Positions of the non-overlapping occurrences of `p` in `s` at or after
/// `i`, leftmost first (`str::match_indices`).
pub open spec fn scan(s: Seq<char>, p: Seq<char>, i: int) -> Seq<int>
    decreases s.len() + 1 - i,
{
    if i < 0 || i + p.len() > s.len() {
        seq![]
    } else if occurs_at(s, p, i) {
        seq![i] + scan(s, p, i + stride(p))
    } else {
        scan(s, p, i + 1)
    }
}

/// How many times `p` occurs in `s` (`str::matches(..).count()`).
pub open spec fn count_occ(s: Seq<char>, p: Seq<char>) -> nat {
    scan(s, p, 0).len()
}

/// `s` from `i` on with every occurrence of `p` replaced by `q`
/// (`str::replace`).
pub open spec fn replace_from(s: Seq<char>, p: Seq<char>, q: Seq<char>, i: int) -> Seq<char>
    decreases s.len() + 1 - i,
{
    if i < 0 || i > s.len() {
        seq![]
    } else if i + p.len() > s.len() {
        s.subrange(i, s.len() as int)
    } else if occurs_at(s, p, i) {
        if p.len() == 0 {
            if i < s.len() {
                q + seq![s[i]] + replace_from(s, p, q, i + 1)
            } else {
                q
            }
        } else {
            q + replace_from(s, p, q, i + p.len())
        }
    } else {
        seq![s[i]] + replace_from(s, p, q, i + 1)
    }
}

pub open spec fn replace_all(s: Seq<char>, p: Seq<char>, q: Seq<char>) -> Seq<char> {
    replace_from(s, p, q, 0)
}

/// `s` with its first occurrence of `p` replaced by `q`
/// (`str::replacen(p, q, 1)`).
pub open spec fn replace_first(s: Seq<char>, p: Seq<char>, q: Seq<char>) -> Seq<char> {
    match find(s, p) {
        Some(j) => s.subrange(0, j) + q + s.subrange(j + p.len(), s.len() as int),
        None => s,
    }
}

/// Counts the occurrences of `p` in `s` (the count must fit in a `usize`).
pub fn count_matches(s: &[char], p: &[char]) -> (r: usize)
    requires
        s@.len() < usize::MAX,
    ensures
        r == count_occ(s@, p@),
{
    let mut i: usize = 0;
    let mut n: usize = 0;
    while i < s.len() && p.len() <= s.len() - i
        invariant
            i <= s@.len(),
            n + scan(s@, p@, i as int).len() == scan(s@, p@, 0).len(),
            n <= i,
        decreases s@.len() + 1 - i,
    {
        if occurs_at_chars(s, p, i) {
            n = n + 1;
            if p.len() == 0 {
                i = i + 1;
            } else {
                i = i + p.len();
            }
        } else {
            i = i + 1;
        }
    }
    if i == s.len() && p.len() == 0 {
        assert(s@.subrange(i as int, i as int) =~= p@);
        assert(scan(s@, p@, i + 1) =~= seq![]);
        n = n + 1;
    }
    n
}

/// Replaces every occurrence of `p` in `s` by `q`.
pub fn replace_all_chars(s: &[char], p: &[char], q: &[char]) -> (r: Vec<char>)
    ensures
        r@ == replace_all(s@, p@, q@),
{
    let mut out: Vec<char> = Vec::new();
    let mut i: usize = 0;
    loop
        invariant
            i <= s@.len(),
            out@ + replace_from(s@, p@, q@, i as int) == replace_all(s@, p@, q@),
        decreases s@.len() + 1 - i,
    {
        if p.len() > s.len() - i {
            let rest = slice_of(s, i, s.len());
            push_all(&mut out, &rest);
            assert(out@ =~= replace_all(s@, p@, q@));
            return out;
        }
        proof {
            if p@.len() == 0 {
                assert(s@.subrange(i as int, i as int) =~= p@);
            }
        }
        if occurs_at_chars(s, p, i) {
            push_all(&mut out, q);
            if p.len() == 0 {
                if i < s.len() {
                    out.push(s[i]);
                    i = i + 1;
                } else {
                    assert(out@ =~= replace_all(s@, p@, q@));
                    return out;
                }
            } else {
                i = i + p.len();
            }
        } else {
            out.push(s[i]);
            i = i + 1;
        }
    }
}

/// Replaces the first occurrence of `p` in `s` by `q`.
pub fn replace_first_chars(s: &[char], p: &[char], q: &[char]) -> (r: Vec<char>)
    ensures
        r@ == replace_first(s@, p@, q@),
{
    match find_chars(s, p) {
        Some(j) => {
            proof {
                crate::text::lemma_find_from(s@, p@, 0);
                assert(occurs_at(s@, p@, j as int));
            }
            let mut out = slice_of(s, 0, j);
            push_all(&mut out, q);
            let n = s.len();
            let rest = slice_of(s, j + p.len(), n);
            push_all(&mut out, &rest);
            out
        },
        None => slice_of(s, 0, s.len()),
    }
}

// ─── The edit ──────────────────────────────────────────────────────────

/// "  Line <n>: <trimmed line>" for each line (numbered from 1) that
/// contains `p`, in order, counting from line `k`.
pub open spec fn located_lines(ls: Seq<Seq<char>>, p: Seq<char>) -> Seq<Seq<char>>
    decreases ls.len(),
{
    if ls.len() == 0 {
        seq![]
    } else {
        let prev = located_lines(ls.drop_last(), p);
        if find(ls.last(), p) is Some {
            prev.push("  Line "@ + dec(ls.len()) + ": "@ + trim(ls.last()))
        } else {
            prev
        }
    }
}

pub open spec fn not_found_text(path: Seq<char>) -> Seq<char> {
    "old_string not found in '"@ + path
        + "'. The string you provided does not appear in the file. Re-read the file to verify the exact text to replace."@
}

pub open spec fn ambiguous_text(path: Seq<char>, n: nat, locations: Seq<Seq<char>>) -> Seq<char> {
    "old_string matches "@ + dec(n) + " locations in '"@ + path
        + "'. Use replace_all=true for global replacement, or provide a more specific string (include more surrounding context) to match exactly one location.\n\nMatching locations:\n"@
        + join_lines(locations, "\n"@)
}

/// What an edit of `content` (the file at `path`) comes to: the new
/// content and the number of replacements, or the reason it is refused.
pub open spec fn edit_outcome(
    path: Seq<char>,
    content: Seq<char>,
    old: Seq<char>,
    new: Seq<char>,
    all: bool,
) -> Result<(Seq<char>, nat), Seq<char>> {
    let n = count_occ(content, old);
    if n == 0 {
        Err(not_found_text(path))
    } else if n > 1 && !all {
        Err(ambiguous_text(path, n, located_lines(lines(content), old)))
    } else if all {
        Ok((replace_all(content, old, new), n))
    } else {
        Ok((replace_first(content, old, new), 1))
    }
}

fn locate_lines(content: &[char], p: &[char]) -> (r: Vec<Vec<char>>)
    ensures
        views(r@) == located_lines(lines(content@), p@),
{
    let ls = lines_chars(content);
    let ghost lv = views(ls@);
    let mut out: Vec<Vec<char>> = Vec::new();
    let mut i: usize = 0;
    while i < ls.len()
        invariant
            i <= ls@.len(),
            lv == views(ls@),
            lv == lines(content@),
            views(out@) == located_lines(lv.take(i as int), p@),
        decreases ls@.len() - i,
    {
        assert(lv.take(i + 1).drop_last() =~= lv.take(i as int));
        assert(lv.take(i + 1).last() == ls@[i as int]@);
        if find_chars(&ls[i], p).is_some() {
            let mut item: Vec<char> = Vec::new();
            push_str(&mut item, "  Line ");
            let d = dec_chars((i + 1) as u64);
            push_all(&mut item, &d);
            push_str(&mut item, ": ");
            let t = trim_chars(&ls[i]);
            push_all(&mut item, &t);
            let ghost before = out@;
            out.push(item);
            proof {
                crate::text::lemma_views_push(before, out@.last());
            }
        }
        i = i + 1;
    }
    assert(lv.take(i as int) =~= lv);
    out
}

/// Decides an edit of `content`, the text of the file at `path`.
pub fn plan_edit(path: &str, content: &str, old: &str, new: &str, all: bool) -> (r: Result<
    (String, usize),
    String,
>)
    requires
        content@.len() < usize::MAX,
    ensures
        match r {
            Ok((c, n)) => edit_outcome(path@, content@, old@, new@, all) == Ok::<(Seq<char>, nat), Seq<char>>((c@, n as nat)),
            Err(e) => edit_outcome(path@, content@, old@, new@, all) == Err::<(Seq<char>, nat), Seq<char>>(e@),
        },
{
    let c = chars_of(content);
    let o = chars_of(old);
    let w = chars_of(new);
    let n = count_matches(&c, &o);
    if n == 0 {
        let mut v: Vec<char> = Vec::new();
        push_str(&mut v, "old_string not found in '");
        push_str(&mut v, path);
        push_str(&mut v, "'. The string you provided does not appear in the file. Re-read the file to verify the exact text to replace.");
        return Err(string_of(&v));
    }
    if n > 1 && !all {
        let locs = locate_lines(&c, &o);
        let nl = chars_of("\n");
        let joined = crate::text::join_chars(&locs, &nl);
        let mut v: Vec<char> = Vec::new();
        push_str(&mut v, "old_string matches ");
        let d = dec_chars(n as u64);
        push_all(&mut v, &d);
        push_str(&mut v, " locations in '");
        push_str(&mut v, path);
        push_str(&mut v, "'. Use replace_all=true for global replacement, or provide a more specific string (include more surrounding context) to match exactly one location.\n\nMatching locations:\n");
        push_all(&mut v, &joined);
        return Err(string_of(&v));
    }
    if all {
        let r = replace_all_chars(&c, &o, &w);
        Ok((string_of(&r), n))
    } else {
        let r = replace_first_chars(&c, &o, &w);
        Ok((string_of(&r), 1))
    }
}

/// The report of a successful edit.
pub fn edit_success(path: &str, replaced: usize) -> (r: ToolResult)
    ensures
        r@ == ok_v("Successfully edited '"@ + path@ + "': "@ + dec(replaced as nat) + " replacement(s) made."@),
{
    let mut v: Vec<char> = Vec::new();
    push_str(&mut v, "Successfully edited '");
    push_str(&mut v, path);
    push_str(&mut v, "': ");
    let d = dec_chars(replaced as u64);
    push_all(&mut v, &d);
    push_str(&mut v, " replacement(s) made.");
    ToolResult::ok(string_of(&v))
}

/// Replaces text in a file (asks for approval).
pub struct EditFileTool;

impl EditFileTool {
    pub fn name(&self) -> (r: &'static str)
        ensures
            r@ == "edit"@,
    {
        "edit"
    }

    pub fn description(&self) -> (r: &'static str)
        ensures
            r@ == "Make a precise string replacement in a file. The old_string must match exactly one location (or use replace_all=true for global replace). If old_string is not found or matches multiple locations, the edit is rejected with details so you can retry with a more specific string."@,
    {
        "Make a precise string replacement in a file. The old_string must match exactly one location (or use replace_all=true for global replace). If old_string is not found or matches multiple locations, the edit is rejected with details so you can retry with a more specific string."
    }

    pub fn is_dangerous(&self) -> (r: bool)
        ensures
            r,
    {
        true
    }
}

// ─── Laws of replacing every occurrence ────────────────────────────────

/// Reading from `i` in `s` is reading from `j` in `s` without its first
/// `i` characters.
proof fn lemma_replace_from_shift(s: Seq<char>, p: Seq<char>, q: Seq<char>, i: int, j: int)
    requires
        0 <= i <= s.len(),
        0 <= j,
        p.len() > 0,
    ensures
        replace_from(s, p, q, i + j) == replace_from(s.skip(i), p, q, j),
    decreases s.len() - i - j,
{
    let t = s.skip(i);
    if i + j <= s.len() && i + j + p.len() <= s.len() {
        assert(occurs_at(s, p, i + j) == occurs_at(t, p, j)) by {
            assert(s.subrange(i + j, i + j + p.len()) =~= t.subrange(j, j + p.len()));
        }
        if occurs_at(s, p, i + j) {
            lemma_replace_from_shift(s, p, q, i, j + p.len());
        } else {
            assert(s[i + j] == t[j]);
            lemma_replace_from_shift(s, p, q, i, j + 1);
        }
    } else if i + j <= s.len() {
        assert(s.subrange(i + j, s.len() as int) =~= t.subrange(j, t.len() as int));
    }
}

/// With no occurrence of `p` from `i` on, the rest is kept as it is.
proof fn lemma_replace_from_none(s: Seq<char>, p: Seq<char>, q: Seq<char>, i: int)
    requires
        0 <= i <= s.len(),
        p.len() > 0,
        forall|j: int| i <= j ==> !occurs_at(s, p, j),
    ensures
        replace_from(s, p, q, i) == s.subrange(i, s.len() as int),
    decreases s.len() - i,
{
    if i + p.len() <= s.len() {
        lemma_replace_from_none(s, p, q, i + 1);
        assert(seq![s[i]] + s.subrange(i + 1, s.len() as int) =~= s.subrange(i, s.len() as int));
    }
}

/// Up to the first occurrence `k` from `i`, characters are kept as they are.
proof fn lemma_replace_from_until(s: Seq<char>, p: Seq<char>, q: Seq<char>, i: int, k: int)
    requires
        0 <= i <= k,
        occurs_at(s, p, k),
        p.len() > 0,
        forall|j: int| i <= j < k ==> !occurs_at(s, p, j),
    ensures
        replace_from(s, p, q, i) == s.subrange(i, k) + replace_from(s, p, q, k),
    decreases k - i,
{
    if i < k {
        lemma_replace_from_until(s, p, q, i + 1, k);
        assert(seq![s[i]] + (s.subrange(i + 1, k) + replace_from(s, p, q, k)) =~= s.subrange(i, k) + replace_from(s, p, q, k));
    } else {
        assert(s.subrange(i, k) =~= Seq::<char>::empty());
    }
}

/// Replacing every occurrence of a non-empty `p` by `q` keeps a text
/// without `p` as it is, and otherwise keeps the text before the first
/// occurrence, puts `q` in its place, and goes on after the whole
/// occurrence: occurrences do not overlap and none of their characters
/// remain.
pub proof fn law_replace_all_occurrences(s: Seq<char>, p: Seq<char>, q: Seq<char>)
    requires
        p.len() > 0,
    ensures
        (forall|j: int| !occurs_at(s, p, j)) ==> replace_all(s, p, q) == s,
        forall|i: int| #![trigger occurs_at(s, p, i)]
            occurs_at(s, p, i) && (forall|j: int| 0 <= j < i ==> !occurs_at(s, p, j))
            ==> replace_all(s, p, q) == s.take(i) + q + replace_all(s.skip(i + p.len()), p, q),
{
    if forall|j: int| !occurs_at(s, p, j) {
        lemma_replace_from_none(s, p, q, 0);
        assert(s.subrange(0, s.len() as int) =~= s);
    }
    assert forall|i: int| #![trigger occurs_at(s, p, i)]
        occurs_at(s, p, i) && (forall|j: int| 0 <= j < i ==> !occurs_at(s, p, j))
        implies replace_all(s, p, q) == s.take(i) + q + replace_all(s.skip(i + p.len()), p, q) by {
        lemma_replace_from_until(s, p, q, 0, i);
        lemma_replace_from_shift(s, p, q, i + p.len(), 0);
        assert(s.subrange(0, i) =~= s.take(i));
        assert(replace_from(s, p, q, i) == q + replace_from(s, p, q, i + p.len()));
    }
}

/// Positions from `i` on hold the same occurrences as positions from 0 of
/// `s` without its first `i` characters.
proof fn lemma_scan_shift(s: Seq<char>, p: Seq<char>, i: int, j: int)
    requires
        0 <= i <= s.len(),
        0 <= j,
        p.len() > 0,
    ensures
        scan(s, p, i + j).len() == scan(s.skip(i), p, j).len(),
    decreases s.len() + 1 - i - j,
{
    let t = s.skip(i);
    if i + j + p.len() <= s.len() {
        assert(occurs_at(s, p, i + j) == occurs_at(t, p, j)) by {
            assert(s.subrange(i + j, i + j + p.len()) =~= t.subrange(j, j + p.len()));
        }
        if occurs_at(s, p, i + j) {
            lemma_scan_shift(s, p, i, j + p.len());
        } else {
            lemma_scan_shift(s, p, i, j + 1);
        }
    }
}

proof fn lemma_scan_none(s: Seq<char>, p: Seq<char>, i: int)
    requires
        0 <= i,
        forall|j: int| i <= j ==> !occurs_at(s, p, j),
    ensures
        scan(s, p, i).len() == 0,
    decreases s.len() + 1 - i,
{
    if i + p.len() <= s.len() {
        lemma_scan_none(s, p, i + 1);
    }
}

proof fn lemma_scan_until(s: Seq<char>, p: Seq<char>, i: int, k: int)
    requires
        0 <= i <= k,
        occurs_at(s, p, k),
        forall|j: int| i <= j < k ==> !occurs_at(s, p, j),
    ensures
        scan(s, p, i).len() == scan(s, p, k).len(),
    decreases k - i,
{
    if i < k {
        lemma_scan_until(s, p, i + 1, k);
    }
}

/// Occurrences are counted without overlap: a text without a non-empty
/// `p` has none, and otherwise there is the first one and those after it.
pub proof fn law_count_occurrences(s: Seq<char>, p: Seq<char>)
    requires
        p.len() > 0,
    ensures
        (forall|j: int| !occurs_at(s, p, j)) ==> count_occ(s, p) == 0,
        forall|i: int| #![trigger occurs_at(s, p, i)]
            occurs_at(s, p, i) && (forall|j: int| 0 <= j < i ==> !occurs_at(s, p, j))
            ==> count_occ(s, p) == 1 + count_occ(s.skip(i + p.len()), p),
{
    if forall|j: int| !occurs_at(s, p, j) {
        lemma_scan_none(s, p, 0);
    }
    assert forall|i: int| #![trigger occurs_at(s, p, i)]
        occurs_at(s, p, i) && (forall|j: int| 0 <= j < i ==> !occurs_at(s, p, j))
        implies count_occ(s, p) == 1 + count_occ(s.skip(i + p.len()), p) by {
        lemma_scan_until(s, p, 0, i);
        lemma_scan_shift(s, p, i + p.len(), 0);
    }
}

/// Replacing the first occurrence keeps a text without `p` as it is, and
/// otherwise puts `q` in place of exactly the first occurrence.
pub proof fn law_replace_first_occurrence(s: Seq<char>, p: Seq<char>, q: Seq<char>)
    ensures
        (forall|j: int| !occurs_at(s, p, j)) ==> replace_first(s, p, q) == s,
        forall|i: int| #![trigger occurs_at(s, p, i)]
            occurs_at(s, p, i) && (forall|j: int| 0 <= j < i ==> !occurs_at(s, p, j))
            ==> replace_first(s, p, q) == s.take(i) + q + s.skip(i + p.len()),
{
    crate::text::lemma_find_from(s, p, 0);
    assert forall|i: int| #![trigger occurs_at(s, p, i)]
        occurs_at(s, p, i) && (forall|j: int| 0 <= j < i ==> !occurs_at(s, p, j))
        implies replace_first(s, p, q) == s.take(i) + q + s.skip(i + p.len()) by {
        match find(s, p) {
            Some(k) => {
                if k < i {
                } else if k > i {
                }
                assert(k == i);
                assert(s.subrange(0, i) =~= s.take(i));
                assert(s.subrange(i + p.len(), s.len() as int) =~= s.skip(i + p.len()));
            },
            None => {},
        }
    }
    if forall|j: int| !occurs_at(s, p, j) {
        assert(find(s, p) is None) by {
            if find(s, p) is Some {
                let k = find(s, p).unwrap();
                assert(occurs_at(s, p, k));
            }
        }
    }
}

} // verus!
