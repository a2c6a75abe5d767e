//! Unified-diff patches: parsing hunks, locating them in a file with a small
//! fuzzy window, and applying them.
//!
//! A hunk header's old start line is where the search begins; when the
//! context lines do not match there, positions up to 5 lines before and after
//! are tried, nearest first. A patch applies only if every hunk is located.
use vstd::prelude::*;
use crate::text::{
    chars_eq, str_views, lemma_str_views_push, lemma_views_push, trim_end, trim_end_chars, chars_of, find, lines, lines_chars, lines_strings, push_str, starts_with, starts_with_chars, find_chars, lemma_find_from, push_all, slice_of, split_ws_chars, string_of,
    trim, trim_chars, views, ws_tokens, join_lines, join_strings,
};
use crate::num::{parse_usize, parse_usize_chars};
use crate::tool::ToolResult;

verus! {

/// One line inside a hunk: its prefix (' ' context, '-' removed, '+' added)
/// and its text without the prefix.
pub struct HunkLine {
    pub prefix: char,
    pub content: String,
}

impl View for HunkLine {
    type V = (char, Seq<char>);

    open spec fn view(&self) -> (char, Seq<char>) {
        (self.prefix, self.content@)
    }
}

/// A parsed hunk.
pub struct Hunk {
    /// The header line as written (e.g. "@@ -10,7 +10,6 @@").
    pub header: String,
    /// First line of the hunk in the old file (1-based).
    pub old_start: usize,
    /// Line count on the old side, as the header states it.
    pub old_count: usize,
    /// First line of the hunk in the new file (1-based).
    pub new_start: usize,
    /// Line count on the new side, as the header states it.
    pub new_count: usize,
    /// Body lines in order.
    pub lines: Vec<HunkLine>,
}

/// Mathematical view of a hunk.
pub struct HunkSpec {
    pub header: Seq<char>,
    pub old_start: usize,
    pub old_count: usize,
    pub new_start: usize,
    pub new_count: usize,
    pub lines: Seq<(char, Seq<char>)>,
}

pub open spec fn line_views(v: Seq<HunkLine>) -> Seq<(char, Seq<char>)> {
    v.map_values(|l: HunkLine| l@)
}

impl View for Hunk {
    type V = HunkSpec;

    open spec fn view(&self) -> HunkSpec {
        HunkSpec {
            header: self.header@,
            old_start: self.old_start,
            old_count: self.old_count,
            new_start: self.new_start,
            new_count: self.new_count,
            lines: line_views(self.lines@),
        }
    }
}

pub open spec fn hunk_views(v: Seq<Hunk>) -> Seq<HunkSpec> {
    v.map_values(|h: Hunk| h@)
}

// ─── Header parsing ────────────────────────────────────────────────────

/// `str::trim_start_matches(c)`.
pub open spec fn strip_leading(s: Seq<char>, c: char) -> Seq<char>
    decreases s.len(),
{
    if s.len() > 0 && s[0] == c {
        strip_leading(s.drop_first(), c)
    } else {
        s
    }
}

/// A line range "start" or "start,count"; a missing count is 1.
pub open spec fn parse_range_spec(s: Seq<char>) -> Result<(usize, usize), Seq<char>> {
    match find(s, ","@) {
        Some(k) => {
            let a = s.subrange(0, k);
            let b = s.subrange(k + (","@).len(), s.len() as int);
            match parse_usize(a) {
                None => Err("无效行号: "@ + a),
                Some(x) => match parse_usize(b) {
                    None => Err("无效行数: "@ + b),
                    Some(y) => Ok((x, y)),
                },
            }
        },
        None => match parse_usize(s) {
            None => Err("无效行号: "@ + s),
            Some(x) => Ok((x, 1)),
        },
    }
}

/// A header "@@ -a,b +c,d @@ anything": the text between the first two
/// "@@" holds the old and the new range as its first two words.
pub open spec fn parse_hunk_header_spec(line: Seq<char>) -> Result<HunkSpec, Seq<char>> {
    match find(line, "@@"@) {
        None => Err("hunk header 缺少开头的 @@"@),
        Some(f) => {
            let after = line.subrange(f + ("@@"@).len(), line.len() as int);
            match find(after, "@@"@) {
                None => Err("hunk header 缺少结尾的 @@"@),
                Some(g) => {
                    let parts = ws_tokens(trim(after.subrange(0, g)));
                    if parts.len() < 2 {
                        Err("hunk header 缺少行号范围"@)
                    } else {
                        match parse_range_spec(strip_leading(parts[0], '-')) {
                            Err(e) => Err(e),
                            Ok(old) => match parse_range_spec(strip_leading(parts[1], '+')) {
                                Err(e) => Err(e),
                                Ok(new) => Ok(
                                    HunkSpec {
                                        header: line,
                                        old_start: old.0,
                                        old_count: old.1,
                                        new_start: new.0,
                                        new_count: new.1,
                                        lines: seq![],
                                    },
                                ),
                            },
                        }
                    }
                },
            }
        },
    }
}

fn strip_leading_chars(v: &[char], c: char) -> (r: Vec<char>)
    ensures
        r@ == strip_leading(v@, c),
{
    let mut k: usize = 0;
    assert(v@.subrange(0, v@.len() as int) =~= v@);
    while k < v.len() && v[k] == c
        invariant
            k <= v@.len(),
            strip_leading(v@, c) == strip_leading(v@.subrange(k as int, v@.len() as int), c),
        decreases v@.len() - k,
    {
        assert(v@.subrange(k as int, v@.len() as int).drop_first() =~= v@.subrange(
            k + 1,
            v@.len() as int,
        ));
        k = k + 1;
    }
    slice_of(v, k, v.len())
}

/// A message: the characters of `prefix` followed by `rest`.
fn message(prefix: &str, rest: &[char]) -> (r: String)
    ensures
        r@ == prefix@ + rest@,
{
    let mut v = chars_of(prefix);
    push_all(&mut v, rest);
    string_of(&v)
}

fn parse_range_chars(s: &[char]) -> (r: Result<(usize, usize), String>)
    ensures
        r matches Ok(p) ==> parse_range_spec(s@) == Ok::<(usize, usize), Seq<char>>(p),
        r matches Err(e) ==> parse_range_spec(s@) == Err::<(usize, usize), Seq<char>>(e@),
{
    let comma = chars_of(",");
    match find_chars(s, &comma) {
        Some(k) => {
            proof {
                lemma_find_from(s@, comma@, 0);
            }
            let n = s.len();
            assert(k + comma@.len() <= n);
            let a = slice_of(s, 0, k);
            let b = slice_of(s, k + comma.len(), n);
            match parse_usize_chars(&a) {
                None => Err(message("无效行号: ", &a)),
                Some(x) => match parse_usize_chars(&b) {
                    None => Err(message("无效行数: ", &b)),
                    Some(y) => Ok((x, y)),
                },
            }
        },
        None => match parse_usize_chars(s) {
            None => Err(message("无效行号: ", s)),
            Some(x) => Ok((x, 1)),
        },
    }
}

/// Parses a range "start" or "start,count" (a missing count is 1).
pub fn parse_range(s: &str) -> (r: Result<(usize, usize), String>)
    ensures
        r matches Ok(p) ==> parse_range_spec(s@) == Ok::<(usize, usize), Seq<char>>(p),
        r matches Err(e) ==> parse_range_spec(s@) == Err::<(usize, usize), Seq<char>>(e@),
{
    let v = chars_of(s);
    parse_range_chars(&v)
}

fn parse_hunk_header_chars(line: &[char]) -> (r: Result<Hunk, String>)
    ensures
        r matches Ok(h) ==> parse_hunk_header_spec(line@) == Ok::<HunkSpec, Seq<char>>(h@),
        r matches Err(e) ==> parse_hunk_header_spec(line@) == Err::<HunkSpec, Seq<char>>(e@),
{
    let at = chars_of("@@");
    let first = match find_chars(line, &at) {
        None => return Err(string_of(&chars_of("hunk header 缺少开头的 @@"))),
        Some(f) => f,
    };
    proof {
        lemma_find_from(line@, at@, 0);
    }
    let n = line.len();
    assert(first + at@.len() <= n);
    let after = slice_of(line, first + at.len(), n);
    let second = match find_chars(&after, &at) {
        None => return Err(string_of(&chars_of("hunk header 缺少结尾的 @@"))),
        Some(g) => g,
    };
    proof {
        lemma_find_from(after@, at@, 0);
    }
    let inner_raw = slice_of(&after, 0, second);
    let inner = trim_chars(&inner_raw);
    let parts = split_ws_chars(&inner);
    if parts.len() < 2 {
        return Err(string_of(&chars_of("hunk header 缺少行号范围")));
    }
    assert(views(parts@)[0] == parts@[0]@);
    assert(views(parts@)[1] == parts@[1]@);
    let old_part = strip_leading_chars(&parts[0], '-');
    let new_part = strip_leading_chars(&parts[1], '+');
    let (old_start, old_count) = match parse_range_chars(&old_part) {
        Err(e) => return Err(e),
        Ok(p) => p,
    };
    let (new_start, new_count) = match parse_range_chars(&new_part) {
        Err(e) => return Err(e),
        Ok(p) => p,
    };
    let h = Hunk {
        header: string_of(line),
        old_start,
        old_count,
        new_start,
        new_count,
        lines: Vec::new(),
    };
    assert(line_views(h.lines@) =~= Seq::<(char, Seq<char>)>::empty());
    Ok(h)
}

/// Parses a hunk header such as "@@ -10,7 +10,6 @@" or
/// "@@ -15,4 +15,5 @@ fn main() {"; the hunk comes back with no body lines.
pub fn parse_hunk_header(line: &str) -> (r: Result<Hunk, String>)
    ensures
        r matches Ok(h) ==> parse_hunk_header_spec(line@) == Ok::<HunkSpec, Seq<char>>(h@),
        r matches Err(e) ==> parse_hunk_header_spec(line@) == Err::<HunkSpec, Seq<char>>(e@),
{
    let v = chars_of(line);
    parse_hunk_header_chars(&v)
}

// ─── Whole-diff parsing ────────────────────────────────────────────────

/// Parser state after some lines: the target path from a "+++ " header,
/// the finished hunks, and the hunk still collecting body lines.
pub struct DiffState {
    pub target: Option<Seq<char>>,
    pub hunks: Seq<HunkSpec>,
    pub current: Option<HunkSpec>,
}

pub open spec fn finished(st: DiffState) -> Seq<HunkSpec> {
    match st.current {
        Some(h) => st.hunks.push(h),
        None => st.hunks,
    }
}

/// The path of a "+++ " header: the rest of the line trimmed, then one
/// leading "b/" or else one leading "a/" removed.
pub open spec fn header_path(line: Seq<char>) -> Seq<char> {
    let p = trim(line.subrange(("+++ "@).len() as int, line.len() as int));
    if starts_with(p, "b/"@) {
        p.subrange(("b/"@).len() as int, p.len() as int)
    } else if starts_with(p, "a/"@) {
        p.subrange(("a/"@).len() as int, p.len() as int)
    } else {
        p
    }
}

/// A non-empty body line: a line starting with ' ', '-' or '+' keeps that
/// prefix; any other line is context and keeps all its text.
pub open spec fn body_line(line: Seq<char>) -> (char, Seq<char>) {
    if line[0] == ' ' || line[0] == '-' || line[0] == '+' {
        (line[0], line.drop_first())
    } else {
        (' ', line)
    }
}

pub open spec fn bad_header_msg(line: Seq<char>, e: Seq<char>) -> Seq<char> {
    "无法解析 hunk header '"@ + line + "': "@ + e
}

pub open spec fn diff_step(st: DiffState, line: Seq<char>) -> Result<DiffState, Seq<char>> {
    if starts_with(line, "+++ "@) {
        Ok(DiffState { target: Some(header_path(line)), hunks: st.hunks, current: st.current })
    } else if starts_with(line, "@@"@) {
        match parse_hunk_header_spec(line) {
            Ok(h) => Ok(DiffState { target: st.target, hunks: finished(st), current: Some(h) }),
            Err(e) => Err(bad_header_msg(line, e)),
        }
    } else {
        match st.current {
            None => Ok(st),
            Some(h) => if line.len() == 0 {
                Ok(st)
            } else {
                Ok(
                    DiffState {
                        target: st.target,
                        hunks: st.hunks,
                        current: Some(
                            HunkSpec {
                                header: h.header,
                                old_start: h.old_start,
                                old_count: h.old_count,
                                new_start: h.new_start,
                                new_count: h.new_count,
                                lines: h.lines.push(body_line(line)),
                            },
                        ),
                    },
                )
            },
        }
    }
}

pub open spec fn diff_fold(ls: Seq<Seq<char>>) -> Result<DiffState, Seq<char>>
    decreases ls.len(),
{
    if ls.len() == 0 {
        Ok(DiffState { target: None, hunks: seq![], current: None })
    } else {
        match diff_fold(ls.drop_last()) {
            Err(e) => Err(e),
            Ok(st) => diff_step(st, ls.last()),
        }
    }
}

/// Once a prefix of the lines fails to parse, the whole diff fails with the
/// same message.
proof fn lemma_fold_err(ls: Seq<Seq<char>>, j: int)
    requires
        0 <= j <= ls.len(),
        diff_fold(ls.take(j)) is Err,
    ensures
        diff_fold(ls) == diff_fold(ls.take(j)),
    decreases ls.len() - j,
{
    if j == ls.len() {
        assert(ls.take(j) =~= ls);
    } else {
        assert(ls.take(j + 1).drop_last() =~= ls.take(j));
        lemma_fold_err(ls, j + 1);
    }
}

pub open spec fn no_hunks_msg() -> Seq<char> {
    "diff 中未找到任何 hunk（期望 @@ -line,count +line,count @@ 头部）"@
}

/// What parsing a whole diff yields: the path of the last "+++ " header (if
/// any) and the hunks in order, or the first error.
pub open spec fn parse_unified_diff_spec(text: Seq<char>) -> Result<
    (Option<Seq<char>>, Seq<HunkSpec>),
    Seq<char>,
> {
    match diff_fold(lines(text)) {
        Err(e) => Err(e),
        Ok(st) => if finished(st).len() == 0 {
            Err(no_hunks_msg())
        } else {
            Ok((st.target, finished(st)))
        },
    }
}

pub open spec fn opt_view(o: Option<Vec<char>>) -> Option<Seq<char>> {
    match o {
        Some(v) => Some(v@),
        None => None,
    }
}

pub open spec fn opt_string_view(o: Option<String>) -> Option<Seq<char>> {
    match o {
        Some(v) => Some(v@),
        None => None,
    }
}

pub open spec fn opt_hunk_view(o: Option<Hunk>) -> Option<HunkSpec> {
    match o {
        Some(h) => Some(h@),
        None => None,
    }
}

pub open spec fn state_view(t: Option<Vec<char>>, hs: Seq<Hunk>, cur: Option<Hunk>) -> DiffState {
    DiffState { target: opt_view(t), hunks: hunk_views(hs), current: opt_hunk_view(cur) }
}

fn header_path_chars(line: &[char]) -> (r: Vec<char>)
    requires
        starts_with(line@, "+++ "@),
    ensures
        r@ == header_path(line@),
{
    let plus = chars_of("+++ ");
    let rest = slice_of(line, plus.len(), line.len());
    let p = trim_chars(&rest);
    let b = chars_of("b/");
    let a = chars_of("a/");
    if starts_with_chars(&p, &b) {
        slice_of(&p, b.len(), p.len())
    } else if starts_with_chars(&p, &a) {
        slice_of(&p, a.len(), p.len())
    } else {
        p
    }
}

/// Parses a unified diff: returns the target path of the last "+++ " header
/// (with a leading "b/" or "a/" removed) and the hunks with their body lines.
/// Fails on the first header that does not parse, or when there is no hunk.
pub fn parse_unified_diff(diff_text: &str) -> (r: Result<(Option<String>, Vec<Hunk>), String>)
    ensures
        r is Ok <==> parse_unified_diff_spec(diff_text@) is Ok,
        r matches Ok((t, hs)) ==> parse_unified_diff_spec(diff_text@) == Ok::<
            (Option<Seq<char>>, Seq<HunkSpec>),
            Seq<char>,
        >((opt_string_view(t), hunk_views(hs@))),
        r matches Err(e) ==> parse_unified_diff_spec(diff_text@) == Err::<
            (Option<Seq<char>>, Seq<HunkSpec>),
            Seq<char>,
        >(e@),
{
    let text = chars_of(diff_text);
    let ls = lines_chars(&text);
    let ghost lv = views(ls@);
    let mut target: Option<Vec<char>> = None;
    let mut hunks: Vec<Hunk> = Vec::new();
    let mut current: Option<Hunk> = None;
    let plus = chars_of("+++ ");
    let at = chars_of("@@");
    let mut i: usize = 0;
    assert(lv.take(0) =~= Seq::<Seq<char>>::empty());
    assert(hunk_views(hunks@) =~= Seq::<HunkSpec>::empty());
    while i < ls.len()
        invariant
            i <= ls@.len(),
            lv == views(ls@),
            lv == lines(diff_text@),
            plus@ == "+++ "@,
            at@ == "@@"@,
            diff_fold(lv.take(i as int)) == Ok::<DiffState, Seq<char>>(
                state_view(target, hunks@, current),
            ),
        decreases ls@.len() - i,
    {
        let line = &ls[i];
        assert(lv[i as int] == line@);
        assert(lv.take(i + 1).drop_last() =~= lv.take(i as int));
        assert(lv.take(i + 1).last() == line@);
        let ghost st = state_view(target, hunks@, current);
        if starts_with_chars(line, &plus) {
            target = Some(header_path_chars(line));
            assert(diff_fold(lv.take(i + 1)) == Ok::<DiffState, Seq<char>>(state_view(target, hunks@, current)));
        } else if starts_with_chars(line, &at) {
            match parse_hunk_header_chars(line) {
                Ok(h) => {
                    let cur = current;
                    match cur {
                        Some(c) => {
                            hunks.push(c);
                        },
                        None => {},
                    }
                    assert(hunk_views(hunks@) =~= finished(st).map_values(|x: HunkSpec| x)) by {
                        assert(finished(st) =~= hunk_views(hunks@));
                    }
                    current = Some(h);
                    assert(diff_fold(lv.take(i + 1)) == Ok::<DiffState, Seq<char>>(state_view(target, hunks@, current)));
                },
                Err(e) => {
                    let mut msg = chars_of("无法解析 hunk header '");
                    push_all(&mut msg, line);
                    push_str(&mut msg, "': ");
                    let ev = chars_of(e.as_str());
                    push_all(&mut msg, &ev);
                    proof {
                        lemma_fold_err(lv, i + 1);
                    }
                    return Err(string_of(&msg));
                },
            }
        } else {
            let cur = current;
            match cur {
                None => {
                    current = None;
                },
                Some(mut h) => {
                    if line.len() > 0 {
                        let first = line[0];
                        let (pf, content) = if first == ' ' || first == '-' || first == '+' {
                            (first, slice_of(line, 1, line.len()))
                        } else {
                            (' ', slice_of(line, 0, line.len()))
                        };
                        assert(content@ =~= body_line(line@).1);
                        let ghost old_lines = h.lines@;
                        h.lines.push(HunkLine { prefix: pf, content: string_of(&content) });
                        assert(line_views(h.lines@) =~= line_views(old_lines).push(
                            body_line(line@),
                        ));
                    }
                    current = Some(h);
                    assert(diff_fold(lv.take(i + 1)) == Ok::<DiffState, Seq<char>>(state_view(target, hunks@, current)));
                },
            }
        }
        i = i + 1;
    }
    assert(lv.take(i as int) =~= lv);
    let ghost st = state_view(target, hunks@, current);
    match current {
        Some(c) => {
            hunks.push(c);
        },
        None => {},
    }
    assert(hunk_views(hunks@) =~= finished(st));
    if hunks.len() == 0 {
        return Err(string_of(&chars_of("diff 中未找到任何 hunk（期望 @@ -line,count +line,count @@ 头部）")));
    }
    let t = match target {
        Some(v) => Some(string_of(&v)),
        None => None,
    };
    Ok((t, hunks))
}

// ─── Locating a hunk ───────────────────────────────────────────────────

/// The context lines of a hunk body, in order.
pub open spec fn ctx_side(ls: Seq<(char, Seq<char>)>) -> Seq<Seq<char>>
    decreases ls.len(),
{
    if ls.len() == 0 {
        seq![]
    } else if ls.last().0 == ' ' {
        ctx_side(ls.drop_last()).push(ls.last().1)
    } else {
        ctx_side(ls.drop_last())
    }
}

/// The lines of the new side: context and added lines, in order.
pub open spec fn new_side(ls: Seq<(char, Seq<char>)>) -> Seq<Seq<char>>
    decreases ls.len(),
{
    if ls.len() == 0 {
        seq![]
    } else if ls.last().0 == ' ' || ls.last().0 == '+' {
        new_side(ls.drop_last()).push(ls.last().1)
    } else {
        new_side(ls.drop_last())
    }
}

/// How many lines of the old side the body covers: context and removed lines.
pub open spec fn old_len(ls: Seq<(char, Seq<char>)>) -> nat
    decreases ls.len(),
{
    if ls.len() == 0 {
        0
    } else if ls.last().0 == ' ' || ls.last().0 == '-' {
        old_len(ls.drop_last()) + 1
    } else {
        old_len(ls.drop_last())
    }
}

/// The lines of the old side: context and removed lines, in order. This
/// is what the file must hold where the hunk applies.
pub open spec fn old_side(ls: Seq<(char, Seq<char>)>) -> Seq<Seq<char>>
    decreases ls.len(),
{
    if ls.len() == 0 {
        seq![]
    } else if ls.last().0 == ' ' || ls.last().0 == '-' {
        old_side(ls.drop_last()).push(ls.last().1)
    } else {
        old_side(ls.drop_last())
    }
}

/// Collects the old side of a hunk: its context and removed lines.
fn extract_old_lines(hunk: &Hunk) -> (r: Vec<Vec<char>>)
    ensures
        views(r@) == old_side(hunk@.lines),
{
    let ghost lv = line_views(hunk.lines@);
    let mut r: Vec<Vec<char>> = Vec::new();
    let mut i: usize = 0;
    while i < hunk.lines.len()
        invariant
            i <= hunk.lines@.len(),
            lv == line_views(hunk.lines@),
            views(r@) == old_side(lv.take(i as int)),
        decreases hunk.lines@.len() - i,
    {
        assert(lv.take(i + 1).drop_last() =~= lv.take(i as int));
        assert(lv.take(i + 1).last() == hunk.lines@[i as int]@);
        if hunk.lines[i].prefix == ' ' || hunk.lines[i].prefix == '-' {
            let ghost old_r = r@;
            let x = chars_of(hunk.lines[i].content.as_str());
            r.push(x);
            proof {
                lemma_views_push(old_r, x);
            }
            assert(views(r@) =~= views(old_r).push(hunk.lines@[i as int].content@));
        }
        i = i + 1;
    }
    assert(lv.take(i as int) =~= lv);
    r
}

/// Collects the context lines of a hunk (without their prefix).
pub fn extract_context_lines(hunk: &Hunk) -> (r: Vec<String>)
    ensures
        str_views(r@) == ctx_side(hunk@.lines),
{
    let ghost lv = line_views(hunk.lines@);
    let mut r: Vec<String> = Vec::new();
    let mut i: usize = 0;
    while i < hunk.lines.len()
        invariant
            i <= hunk.lines@.len(),
            lv == line_views(hunk.lines@),
            str_views(r@) == ctx_side(lv.take(i as int)),
        decreases hunk.lines@.len() - i,
    {
        assert(lv.take(i + 1).drop_last() =~= lv.take(i as int));
        assert(lv.take(i + 1).last() == hunk.lines@[i as int]@);
        if hunk.lines[i].prefix == ' ' {
            let ghost old_r = r@;
            let x = hunk.lines[i].content.clone();
            r.push(x);
            proof {
                lemma_str_views_push(old_r, x);
            }
            assert(str_views(r@) =~= str_views(old_r).push(hunk.lines@[i as int].content@));
        }
        i = i + 1;
    }
    assert(lv.take(i as int) =~= lv);
    r
}

/// Where the search for a hunk starts: its old start line (0-based), capped
/// at the file length; 0 when the header says line 0.
pub open spec fn search_start(h: HunkSpec, n: int) -> int {
    if h.old_start > 0 {
        if h.old_start - 1 < n {
            h.old_start - 1
        } else {
            n
        }
    } else {
        0
    }
}

/// The lines `ctx` match the file at `p`, ignoring trailing white space.
pub open spec fn ctx_matches(file: Seq<Seq<char>>, ctx: Seq<Seq<char>>, p: int) -> bool {
    &&& 0 <= p
    &&& p + ctx.len() <= file.len()
    &&& forall|i: int| 0 <= i < ctx.len() ==> trim_end(#[trigger] file[p + i]) == trim_end(ctx[i])
}

/// Tries offsets `d`, `d+1`, … up to 5 from `ss`: first `ss - d`, then
/// `ss + d`, never below line 0 or past the file length.
pub open spec fn probe(file: Seq<Seq<char>>, ctx: Seq<Seq<char>>, ss: int, d: int) -> Option<int>
    decreases 6 - d,
{
    if d < 0 || d > 5 {
        None
    } else if d <= ss && ctx_matches(file, ctx, ss - d) {
        Some(ss - d)
    } else if d > 0 && ss + d <= file.len() && ctx_matches(file, ctx, ss + d) {
        Some(ss + d)
    } else {
        probe(file, ctx, ss, d + 1)
    }
}

/// Where a hunk goes in a file (0-based line index), if anywhere.
pub open spec fn locate(file: Seq<Seq<char>>, h: HunkSpec) -> Option<int> {
    let ctx = old_side(h.lines);
    if ctx.len() == 0 {
        if h.old_start > 0 {
            Some(search_start(h, file.len() as int))
        } else {
            None
        }
    } else {
        probe(file, ctx, search_start(h, file.len() as int), 0)
    }
}

fn ctx_matches_at(file: &[String], ctx: &Vec<Vec<char>>, p: usize) -> (r: bool)
    ensures
        r == ctx_matches(str_views(file@), views(ctx@), p as int),
{
    if p > file.len() || ctx.len() > file.len() - p {
        return false;
    }
    let n = file.len();
    let mut i: usize = 0;
    while i < ctx.len()
        invariant
            i <= ctx@.len(),
            n == file@.len(),
            p + ctx@.len() <= n,
            forall|j: int|
                0 <= j < i ==> trim_end(#[trigger] str_views(file@)[p + j]) == trim_end(
                    views(ctx@)[j],
                ),
        decreases ctx@.len() - i,
    {
        let fl = chars_of(file[p + i].as_str());
        let a = trim_end_chars(&fl);
        let b = trim_end_chars(&ctx[i]);
        assert(str_views(file@)[p + i] == file@[p + i]@);
        assert(views(ctx@)[i as int] == ctx@[i as int]@);
        if !chars_eq(&a, &b) {
            return false;
        }
        i = i + 1;
    }
    true
}

/// Finds where a hunk applies: the position (0-based) nearest to the line its
/// header names, within 5 lines either way (the earlier one on a tie), whose
/// lines match the hunk's old side (its context and removed lines, in order)
/// up to trailing white space. A hunk that only adds lines goes where its
/// header says.
pub fn find_hunk_position(file_lines: &[String], hunk: &Hunk) -> (r: Option<usize>)
    ensures
        r matches Some(p) ==> locate(str_views(file_lines@), hunk@) == Some(p as int),
        r is None ==> locate(str_views(file_lines@), hunk@) is None,
{
    let ctx = extract_old_lines(hunk);
    let n = file_lines.len();
    let ghost file = str_views(file_lines@);
    if ctx.len() == 0 {
        if hunk.old_start > 0 {
            let ss = if hunk.old_start - 1 < n {
                hunk.old_start - 1
            } else {
                n
            };
            return Some(ss);
        }
        return None;
    }
    let ss: usize = if hunk.old_start > 0 {
        if hunk.old_start - 1 < n {
            hunk.old_start - 1
        } else {
            n
        }
    } else {
        0
    };
    let mut d: usize = 0;
    while d <= 5
        invariant
            d <= 6,
            ss <= n,
            n == file.len(),
            file == str_views(file_lines@),
            views(ctx@) == old_side(hunk@.lines),
            ss == search_start(hunk@, n as int),
            old_side(hunk@.lines).len() > 0,
            probe(file, views(ctx@), ss as int, d as int) == probe(file, views(ctx@), ss as int, 0),
        decreases 6 - d,
    {
        if d <= ss && ctx_matches_at(file_lines, &ctx, ss - d) {
            return Some(ss - d);
        }
        if d > 0 && d <= n - ss && ctx_matches_at(file_lines, &ctx, ss + d) {
            return Some(ss + d);
        }
        d = d + 1;
    }
    None
}

// ─── Applying a hunk ───────────────────────────────────────────────────

/// A file's lines after a hunk is applied at `pos`: the lines before `pos`,
/// then the hunk's new side, then the lines after the old side it covers.
pub open spec fn apply_spec(file: Seq<Seq<char>>, h: HunkSpec, pos: int) -> Seq<Seq<char>> {
    let end = if pos + old_len(h.lines) < file.len() {
        pos + old_len(h.lines)
    } else {
        file.len() as int
    };
    file.subrange(0, pos) + new_side(h.lines) + file.subrange(end, file.len() as int)
}

/// Replaces, from line `pos`, the lines a hunk's old side covers with its
/// new side.
pub fn apply_hunk(file_lines: &mut Vec<String>, hunk: &Hunk, pos: usize)
    requires
        pos <= old(file_lines)@.len(),
    ensures
        str_views(final(file_lines)@) == apply_spec(str_views(old(file_lines)@), hunk@, pos as int),
{
    let ghost lv = line_views(hunk.lines@);
    let ghost file0 = str_views(file_lines@);
    let mut old_count: usize = 0;
    let mut added: Vec<String> = Vec::new();
    let mut i: usize = 0;
    while i < hunk.lines.len()
        invariant
            i <= hunk.lines@.len(),
            lv == line_views(hunk.lines@),
            old_count == old_len(lv.take(i as int)),
            old_count <= i,
            str_views(added@) == new_side(lv.take(i as int)),
        decreases hunk.lines@.len() - i,
    {
        assert(lv.take(i + 1).drop_last() =~= lv.take(i as int));
        assert(lv.take(i + 1).last() == hunk.lines@[i as int]@);
        let pf = hunk.lines[i].prefix;
        if pf == ' ' || pf == '-' {
            old_count = old_count + 1;
        }
        if pf == ' ' || pf == '+' {
            let ghost old_a = added@;
            let x = hunk.lines[i].content.clone();
            added.push(x);
            proof {
                lemma_str_views_push(old_a, x);
            }
            assert(str_views(added@) =~= str_views(old_a).push(hunk.lines@[i as int].content@));
        }
        i = i + 1;
    }
    assert(lv.take(i as int) =~= lv);
    let n = file_lines.len();
    let end = if old_count < n - pos {
        pos + old_count
    } else {
        n
    };
    let mut out: Vec<String> = Vec::new();
    let mut j: usize = 0;
    while j < pos
        invariant
            j <= pos <= n,
            n == file_lines@.len(),
            file0 == str_views(file_lines@),
            str_views(out@) == file0.subrange(0, j as int),
        decreases pos - j,
    {
        let ghost o = out@;
        let x = file_lines[j].clone();
        out.push(x);
        proof {
            lemma_str_views_push(o, x);
        }
        assert(str_views(out@) =~= file0.subrange(0, j + 1));
        j = j + 1;
    }
    let mut k: usize = 0;
    while k < added.len()
        invariant
            k <= added@.len(),
            pos <= n,
            n == file0.len(),
            str_views(out@) == file0.subrange(0, pos as int) + str_views(added@).take(k as int),
        decreases added@.len() - k,
    {
        let ghost o = out@;
        let x = added[k].clone();
        out.push(x);
        proof {
            lemma_str_views_push(o, x);
        }
        assert(str_views(out@) =~= file0.subrange(0, pos as int) + str_views(added@).take(k + 1));
        k = k + 1;
    }
    assert(str_views(added@).take(k as int) =~= str_views(added@));
    let mut m: usize = end;
    while m < n
        invariant
            end <= m <= n,
            pos <= end,
            n == file_lines@.len(),
            file0 == str_views(file_lines@),
            str_views(out@) == file0.subrange(0, pos as int) + str_views(added@) + file0.subrange(
                end as int,
                m as int,
            ),
        decreases n - m,
    {
        let ghost o = out@;
        let x = file_lines[m].clone();
        out.push(x);
        proof {
            lemma_str_views_push(o, x);
        }
        assert(str_views(out@) =~= file0.subrange(0, pos as int) + str_views(added@)
            + file0.subrange(end as int, m + 1));
        m = m + 1;
    }
    *file_lines = out;
}

// ─── Applying a whole patch ────────────────────────────────────────────

/// Locates every hunk on the original lines: the (position, hunk index)
/// pairs in hunk order, or the index of the first hunk that cannot be located.
pub open spec fn locate_all(file: Seq<Seq<char>>, hs: Seq<HunkSpec>) -> Result<
    Seq<(usize, usize)>,
    int,
>
    decreases hs.len(),
{
    if hs.len() == 0 {
        Ok(seq![])
    } else {
        match locate_all(file, hs.drop_last()) {
            Err(i) => Err(i),
            Ok(ps) => match locate(file, hs.last()) {
                None => Err(hs.len() - 1),
                Some(p) => Ok(ps.push((p as usize, (hs.len() - 1) as usize))),
            },
        }
    }
}

/// Inserts `x` after every entry whose position is not below its own.
pub open spec fn insert_desc(s: Seq<(usize, usize)>, x: (usize, usize)) -> Seq<(usize, usize)>
    decreases s.len(),
{
    if s.len() == 0 {
        seq![x]
    } else if s[0].0 < x.0 {
        seq![x] + s
    } else {
        seq![s[0]] + insert_desc(s.drop_first(), x)
    }
}

/// Stable sort by position, highest first.
pub open spec fn sort_desc(s: Seq<(usize, usize)>) -> Seq<(usize, usize)>
    decreases s.len(),
{
    if s.len() == 0 {
        seq![]
    } else {
        insert_desc(sort_desc(s.drop_last()), s.last())
    }
}

/// Applies the hunks in `order` one after another.
pub open spec fn apply_all(file: Seq<Seq<char>>, hs: Seq<HunkSpec>, order: Seq<(usize, usize)>) -> Seq<
    Seq<char>,
>
    decreases order.len(),
{
    if order.len() == 0 {
        file
    } else {
        apply_spec(apply_all(file, hs, order.drop_last()), hs[order.last().1 as int], order.last().0 as int)
    }
}

pub open spec fn ends_with_nl(s: Seq<char>) -> bool {
    s.len() > 0 && s.last() == '\n'
}

pub open spec fn unlocated_msg(header: Seq<char>) -> Seq<char> {
    "无法定位 hunk '"@ + header + "'：文件中未找到匹配的上下文行。请确认文件内容是否与 diff 预期一致。"@
}

/// The new content of a file once a patch is applied, with the number of
/// hunks applied: all hunks are located on the original lines, then applied
/// from the last position to the first, the lines joined by "\n" and a final
/// "\n" kept when the original had one. Fails, naming the hunk, when any hunk
/// cannot be located.
pub open spec fn patch_spec(original: Seq<char>, hs: Seq<HunkSpec>) -> Result<(Seq<char>, nat), Seq<char>> {
    let fl = lines(original);
    match locate_all(fl, hs) {
        Err(i) => Err(unlocated_msg(hs[i].header)),
        Ok(loc) => {
            let joined = join_lines(apply_all(fl, hs, sort_desc(loc)), "\n"@);
            Ok(
                (
                    if ends_with_nl(original) {
                        joined + "\n"@
                    } else {
                        joined
                    },
                    loc.len(),
                ),
            )
        },
    }
}

/// First index whose position is below `v`.
pub open spec fn first_lt(s: Seq<(usize, usize)>, v: usize) -> int
    decreases s.len(),
{
    if s.len() == 0 {
        0
    } else if s[0].0 < v {
        0
    } else {
        1 + first_lt(s.drop_first(), v)
    }
}

proof fn lemma_first_lt_unique(s: Seq<(usize, usize)>, v: usize, k: int)
    requires
        0 <= k <= s.len(),
        forall|i: int| 0 <= i < k ==> s[i].0 >= v,
        k < s.len() ==> s[k].0 < v,
    ensures
        first_lt(s, v) == k,
    decreases s.len(),
{
    if s.len() > 0 && k > 0 {
        assert forall|i: int| 0 <= i < k - 1 implies s.drop_first()[i].0 >= v by {
            assert(s.drop_first()[i] == s[i + 1]);
        }
        lemma_first_lt_unique(s.drop_first(), v, k - 1);
    }
}

proof fn lemma_insert_desc_index(s: Seq<(usize, usize)>, x: (usize, usize))
    ensures
        0 <= first_lt(s, x.0) <= s.len(),
        insert_desc(s, x) == s.insert(first_lt(s, x.0), x),
    decreases s.len(),
{
    if s.len() == 0 {
        assert(insert_desc(s, x) =~= s.insert(0, x));
    } else if s[0].0 < x.0 {
        assert(insert_desc(s, x) =~= s.insert(0, x));
    } else {
        lemma_insert_desc_index(s.drop_first(), x);
        assert(insert_desc(s, x) =~= s.insert(first_lt(s, x.0), x));
    }
}

pub open spec fn is_desc(s: Seq<(usize, usize)>) -> bool {
    forall|i: int, j: int| 0 <= i < j < s.len() ==> s[i].0 >= s[j].0
}

pub open spec fn bounded(s: Seq<(usize, usize)>, n: int, m: int) -> bool {
    forall|i: int| 0 <= i < s.len() ==> (#[trigger] s[i]).0 <= n && s[i].1 < m
}

proof fn lemma_sort_desc_props(s: Seq<(usize, usize)>, n: int, m: int)
    requires
        bounded(s, n, m),
    ensures
        is_desc(sort_desc(s)),
        bounded(sort_desc(s), n, m),
        sort_desc(s).len() == s.len(),
    decreases s.len(),
{
    if s.len() > 0 {
        let t = sort_desc(s.drop_last());
        assert(bounded(s.drop_last(), n, m)) by {
            assert forall|i: int| 0 <= i < s.drop_last().len() implies (
            #[trigger] s.drop_last()[i]).0 <= n && s.drop_last()[i].1 < m by {
                assert(s.drop_last()[i] == s[i]);
            }
        }
        lemma_sort_desc_props(s.drop_last(), n, m);
        let x = s.last();
        assert(x == s[s.len() - 1]);
        lemma_insert_desc_index(t, x);
        let k = first_lt(t, x.0);
        lemma_first_lt_props(t, x.0);
        let r = t.insert(k, x);
        assert(is_desc(r)) by {
            assert forall|i: int, j: int| 0 <= i < j < r.len() implies r[i].0 >= r[j].0 by {
                if j < k {
                } else if j == k {
                    assert(r[i] == t[i]);
                } else if i < k {
                    assert(r[j] == t[j - 1]);
                    assert(r[i] == t[i]);
                    if k < t.len() {
                        assert(t[k].0 < x.0);
                    }
                } else if i == k {
                    assert(r[j] == t[j - 1]);
                    assert(t[k].0 < x.0);
                } else {
                    assert(r[j] == t[j - 1]);
                    assert(r[i] == t[i - 1]);
                }
            }
        }
        assert(bounded(r, n, m)) by {
            assert forall|i: int| 0 <= i < r.len() implies (#[trigger] r[i]).0 <= n && r[i].1 < m by {
                if i < k {
                    assert(r[i] == t[i]);
                } else if i > k {
                    assert(r[i] == t[i - 1]);
                }
            }
        }
    }
}

proof fn lemma_first_lt_props(s: Seq<(usize, usize)>, v: usize)
    ensures
        0 <= first_lt(s, v) <= s.len(),
        forall|i: int| 0 <= i < first_lt(s, v) ==> s[i].0 >= v,
        first_lt(s, v) < s.len() ==> s[first_lt(s, v)].0 < v,
    decreases s.len(),
{
    if s.len() > 0 && s[0].0 >= v {
        lemma_first_lt_props(s.drop_first(), v);
        assert forall|i: int| 0 <= i < first_lt(s, v) implies s[i].0 >= v by {
            if i > 0 {
                assert(s[i] == s.drop_first()[i - 1]);
            }
        }
    }
}

proof fn lemma_locate_all_ok(file: Seq<Seq<char>>, hs: Seq<HunkSpec>)
    ensures
        locate_all(file, hs) matches Ok(loc) ==> loc.len() == hs.len() && bounded(
            loc,
            file.len() as int,
            hs.len() as int,
        ),
    decreases hs.len(),
{
    if hs.len() > 0 {
        lemma_locate_all_ok(file, hs.drop_last());
        if let Ok(loc) = locate_all(file, hs) {
            let ps = locate_all(file, hs.drop_last())->Ok_0;
            let p = locate(file, hs.last())->Some_0;
            lemma_locate_bound(file, hs.last());
            assert forall|i: int| 0 <= i < loc.len() implies (#[trigger] loc[i]).0 <= file.len()
                && loc[i].1 < hs.len() by {
                if i < ps.len() {
                    assert(loc[i] == ps[i]);
                }
            }
        }
    }
}

proof fn lemma_probe_bound(file: Seq<Seq<char>>, ctx: Seq<Seq<char>>, ss: int, d: int)
    ensures
        probe(file, ctx, ss, d) matches Some(p) ==> 0 <= p <= file.len(),
    decreases 6 - d,
{
    if 0 <= d <= 5 {
        lemma_probe_bound(file, ctx, ss, d + 1);
    }
}

proof fn lemma_locate_bound(file: Seq<Seq<char>>, h: HunkSpec)
    ensures
        locate(file, h) matches Some(p) ==> 0 <= p <= file.len(),
{
    lemma_probe_bound(file, old_side(h.lines), search_start(h, file.len() as int), 0);
}

/// Applies parsed hunks to a file's text: every hunk is located on the
/// original lines first, then they are applied from the last position to the
/// first so that earlier positions stay valid. Returns the new text and the
/// number of hunks applied, or an error naming the first hunk that could not
/// be located (the text is then left as it was).
pub fn patch_file_content(original: &str, hunks: &Vec<Hunk>) -> (r: Result<(String, usize), String>)
    ensures
        r is Ok <==> patch_spec(original@, hunk_views(hunks@)) is Ok,
        r matches Ok((c, k)) ==> patch_spec(original@, hunk_views(hunks@)) == Ok::<
            (Seq<char>, nat),
            Seq<char>,
        >((c@, k as nat)),
        r matches Err(e) ==> patch_spec(original@, hunk_views(hunks@)) == Err::<
            (Seq<char>, nat),
            Seq<char>,
        >(e@),
{
    let ghost hs = hunk_views(hunks@);
    let mut file_lines = lines_strings(original);
    let ghost fl = str_views(file_lines@);
    let mut located: Vec<(usize, usize)> = Vec::new();
    let mut i: usize = 0;
    while i < hunks.len()
        invariant
            i <= hunks@.len(),
            hs == hunk_views(hunks@),
            fl == str_views(file_lines@),
            fl == lines(original@),
            locate_all(fl, hs.take(i as int)) == Ok::<Seq<(usize, usize)>, int>(located@),
        decreases hunks@.len() - i,
    {
        assert(hs.take(i + 1).drop_last() =~= hs.take(i as int));
        assert(hs.take(i + 1).last() == hunks@[i as int]@);
        match find_hunk_position(&file_lines, &hunks[i]) {
            Some(p) => {
                located.push((p, i));
            },
            None => {
                let mut msg = chars_of("无法定位 hunk '");
                let hc = chars_of(hunks[i].header.as_str());
                push_all(&mut msg, &hc);
                push_str(&mut msg, "'：文件中未找到匹配的上下文行。请确认文件内容是否与 diff 预期一致。");
                proof {
                    assert(hs[i as int] == hunks@[i as int]@);
                    lemma_locate_all_err(fl, hs, i + 1);
                }
                return Err(string_of(&msg));
            },
        }
        i = i + 1;
    }
    assert(hs.take(i as int) =~= hs);
    let ghost loc = located@;
    proof {
        lemma_locate_all_ok(fl, hs);
    }
    // Stable sort by position, highest first.
    let mut order: Vec<(usize, usize)> = Vec::new();
    let mut j: usize = 0;
    while j < located.len()
        invariant
            j <= located@.len(),
            located@ == loc,
            order@ == sort_desc(loc.take(j as int)),
        decreases located@.len() - j,
    {
        let x = located[j];
        assert(loc.take(j + 1).drop_last() =~= loc.take(j as int));
        assert(loc.take(j + 1).last() == x);
        let mut k: usize = 0;
        while k < order.len() && order[k].0 >= x.0
            invariant
                k <= order@.len(),
                forall|t: int| 0 <= t < k ==> order@[t].0 >= x.0,
            decreases order@.len() - k,
        {
            k = k + 1;
        }
        proof {
            lemma_first_lt_unique(order@, x.0, k as int);
            lemma_insert_desc_index(order@, x);
        }
        order.insert(k, x);
        j = j + 1;
    }
    assert(loc.take(j as int) =~= loc);
    proof {
        lemma_sort_desc_props(loc, fl.len() as int, hs.len() as int);
    }
    let ghost ord = order@;
    let mut t: usize = 0;
    while t < order.len()
        invariant
            t <= order@.len(),
            ord == order@,
            is_desc(ord),
            bounded(ord, fl.len() as int, hs.len() as int),
            hs == hunk_views(hunks@),
            str_views(file_lines@) == apply_all(fl, hs, ord.take(t as int)),
            t < ord.len() ==> ord[t as int].0 <= file_lines@.len(),
        decreases order@.len() - t,
    {
        let (p, hi) = order[t];
        assert(ord.take(t + 1).drop_last() =~= ord.take(t as int));
        assert(ord.take(t + 1).last() == ord[t as int]);
        assert(hs[hi as int] == hunks@[hi as int]@);
        let ghost before = str_views(file_lines@);
        apply_hunk(&mut file_lines, &hunks[hi], p);
        assert(str_views(file_lines@).len() == file_lines@.len());
        assert(apply_spec(before, hs[hi as int], p as int).len() >= p);
        t = t + 1;
        if t < order.len() {
            assert(ord[t as int].0 <= ord[t - 1].0);
        }
    }
    assert(ord.take(t as int) =~= ord);
    let mut out = join_strings(&file_lines);
    let oc = chars_of(original);
    if oc.len() > 0 && oc[oc.len() - 1] == '\n' {
        push_str(&mut out, "\n");
    }
    Ok((string_of(&out), located.len()))
}

proof fn lemma_locate_all_err(file: Seq<Seq<char>>, hs: Seq<HunkSpec>, j: int)
    requires
        0 < j <= hs.len(),
        locate_all(file, hs.take(j - 1)) is Ok,
        locate(file, hs[j - 1]) is None,
    ensures
        locate_all(file, hs) == Err::<Seq<(usize, usize)>, int>(j - 1),
{
    assert(hs.take(j).drop_last() =~= hs.take(j - 1));
    assert(hs.take(j).last() == hs[j - 1]);
    assert(locate_all(file, hs.take(j)) == Err::<Seq<(usize, usize)>, int>(j - 1));
    lemma_locate_all_err_prefix(file, hs, j);
}

proof fn lemma_locate_all_err_prefix(file: Seq<Seq<char>>, hs: Seq<HunkSpec>, j: int)
    requires
        0 < j <= hs.len(),
        locate_all(file, hs.take(j)) is Err,
    ensures
        locate_all(file, hs) == locate_all(file, hs.take(j)),
    decreases hs.len() - j,
{
    if j == hs.len() {
        assert(hs.take(j) =~= hs);
    } else {
        assert(hs.take(j + 1).drop_last() =~= hs.take(j));
        lemma_locate_all_err_prefix(file, hs, j + 1);
    }
}

// ─── Laws ──────────────────────────────────────────────────────────────

pub open spec fn dist(q: int, ss: int) -> int {
    if q >= ss {
        q - ss
    } else {
        ss - q
    }
}

/// `q` comes before `p` in the search order around `ss`: nearer, or as near
/// and earlier.
pub open spec fn searched_before(q: int, p: int, ss: int) -> bool {
    dist(q, ss) < dist(p, ss) || (dist(q, ss) == dist(p, ss) && q < p)
}

/// A position the search looks at: within 5 lines of `ss` and inside the file.
pub open spec fn in_window(q: int, ss: int, n: int) -> bool {
    0 <= q <= n && dist(q, ss) <= 5
}

proof fn lemma_probe_first(file: Seq<Seq<char>>, ctx: Seq<Seq<char>>, ss: int, d: int)
    requires
        0 <= d <= 6,
        0 <= ss <= file.len(),
        forall|q: int|
            in_window(q, ss, file.len() as int) && dist(q, ss) < d ==> !ctx_matches(file, ctx, q),
    ensures
        probe(file, ctx, ss, d) matches Some(p) ==> {
            &&& ctx_matches(file, ctx, p)
            &&& in_window(p, ss, file.len() as int)
            &&& forall|q: int|
                in_window(q, ss, file.len() as int) && searched_before(q, p, ss) ==> !ctx_matches(
                    file,
                    ctx,
                    q,
                )
        },
        probe(file, ctx, ss, d) is None ==> forall|q: int|
            in_window(q, ss, file.len() as int) ==> !ctx_matches(file, ctx, q),
    decreases 6 - d,
{
    if d <= 5 {
        if d <= ss && ctx_matches(file, ctx, ss - d) {
        } else if d > 0 && ss + d <= file.len() && ctx_matches(file, ctx, ss + d) {
        } else {
            lemma_probe_first(file, ctx, ss, d + 1);
        }
    }
}

/// A hunk with an old side is placed at the matching position nearest to
/// the line its header names (the earlier of two equally near ones), at most
/// 5 lines away; when no position in that window matches, it is not placed.
pub proof fn law_hunk_position_nearest(file: Seq<Seq<char>>, h: HunkSpec)
    requires
        old_side(h.lines).len() > 0,
    ensures
        locate(file, h) matches Some(p) ==> {
            &&& ctx_matches(file, old_side(h.lines), p)
            &&& in_window(p, search_start(h, file.len() as int), file.len() as int)
            &&& forall|q: int|
                in_window(q, search_start(h, file.len() as int), file.len() as int)
                    && searched_before(q, p, search_start(h, file.len() as int)) ==> !ctx_matches(
                    file,
                    old_side(h.lines),
                    q,
                )
        },
        locate(file, h) is None ==> forall|q: int|
            in_window(q, search_start(h, file.len() as int), file.len() as int) ==> !ctx_matches(
                file,
                old_side(h.lines),
                q,
            ),
{
    lemma_probe_first(file, old_side(h.lines), search_start(h, file.len() as int), 0);
}

/// When the old side matches exactly where the header says, the hunk is
/// placed there.
pub proof fn law_hunk_position_exact(file: Seq<Seq<char>>, h: HunkSpec)
    requires
        old_side(h.lines).len() > 0,
        ctx_matches(file, old_side(h.lines), search_start(h, file.len() as int)),
    ensures
        locate(file, h) == Some(search_start(h, file.len() as int)),
{
}

proof fn lemma_locate_all_result(file: Seq<Seq<char>>, hs: Seq<HunkSpec>)
    ensures
        locate_all(file, hs) matches Err(i) ==> 0 <= i < hs.len() && locate(file, hs[i]) is None
            && forall|j: int| 0 <= j < i ==> locate(file, #[trigger] hs[j]) is Some,
        locate_all(file, hs) is Ok ==> forall|i: int|
            0 <= i < hs.len() ==> locate(file, #[trigger] hs[i]) is Some,
    decreases hs.len(),
{
    if hs.len() > 0 {
        lemma_locate_all_result(file, hs.drop_last());
        assert forall|i: int| 0 <= i < hs.len() - 1 implies #[trigger] hs[i] == hs.drop_last()[i] by {
        }
    }
}

/// A patch is all or nothing: it fails exactly when some hunk cannot be
/// located, and then no line is changed; the error names the first hunk
/// that cannot be located.
pub proof fn law_patch_all_or_nothing(original: Seq<char>, hs: Seq<HunkSpec>)
    ensures
        patch_spec(original, hs) is Err <==> exists|i: int|
            0 <= i < hs.len() && locate(lines(original), #[trigger] hs[i]) is None,
        patch_spec(original, hs) matches Err(e) ==> exists|i: int|
            0 <= i < hs.len() && locate(lines(original), #[trigger] hs[i]) is None
            && (forall|j: int| 0 <= j < i ==> locate(lines(original), #[trigger] hs[j]) is Some)
            && e == unlocated_msg(hs[i].header),
{
    lemma_locate_all_result(lines(original), hs);
}

/// Applying a hunk at `pos` leaves the lines before `pos` and the lines after
/// the block it covers as they were, with its new side in between.
pub proof fn law_apply_keeps_surroundings(file: Seq<Seq<char>>, h: HunkSpec, pos: int)
    requires
        0 <= pos <= file.len(),
    ensures
        ({
            let r = apply_spec(file, h, pos);
            let end = if pos + old_len(h.lines) < file.len() {
                pos + old_len(h.lines)
            } else {
                file.len() as int
            };
            &&& r.len() == pos + new_side(h.lines).len() + (file.len() - end)
            &&& forall|i: int| 0 <= i < pos ==> r[i] == file[i]
            &&& forall|k: int|
                0 <= k < new_side(h.lines).len() ==> r[pos + k] == #[trigger] new_side(h.lines)[k]
            &&& forall|k: int|
                0 <= k < file.len() - end ==> r[pos + new_side(h.lines).len() + k] == #[trigger] file[end + k]
        }),
{
}

// ─── The apply_patch tool ──────────────────────────────────────────────

/// Applies unified diffs to files (asks for approval).
pub struct ApplyPatchTool;

impl ApplyPatchTool {
    /// The description shown to the model.
    pub fn description(&self) -> (r: &'static str)
        ensures
            r@ == "Apply a unified diff patch to a file. Supports standard unified diff format with @@ -line,count +line,count @@ hunks. Tolerates minor line-number drift via context-line fuzzy matching. This is preferred over edit for multi-block changes or when exact string matching is unreliable (e.g., whitespace-sensitive edits)."@,
    {
        "Apply a unified diff patch to a file. Supports standard unified diff format with @@ -line,count +line,count @@ hunks. Tolerates minor line-number drift via context-line fuzzy matching. This is preferred over edit for multi-block changes or when exact string matching is unreliable (e.g., whitespace-sensitive edits)."
    }

    pub fn name(&self) -> (r: &'static str)
        ensures
            r@ == "apply_patch"@,
    {
        "apply_patch"
    }

    pub fn is_dangerous(&self) -> (r: bool)
        ensures
            r,
    {
        true
    }
}

/// What the tool's arguments come to: the diff is parsed, and the file is
/// the `path` argument, or else the path of the diff's "+++ " header.
pub open spec fn patch_request(patch: Option<Seq<char>>, path: Option<Seq<char>>) -> Result<(Seq<char>, Seq<HunkSpec>), Seq<char>> {
    match patch {
        None => Err("缺少必要参数: patch"@),
        Some(p) => match parse_unified_diff_spec(p) {
            Err(e) => Err("解析 diff 失败: "@ + e),
            Ok((target, hs)) => match path {
                Some(q) => Ok((q, hs)),
                None => match target {
                    Some(t) => Ok((t, hs)),
                    None => Err("未指定目标文件路径：请在 path 参数中提供，或在 diff 中包含 +++ 文件头"@),
                },
            },
        },
    }
}

/// Reads the tool's arguments: the file to patch and the parsed hunks, or
/// the failure to report.
pub fn plan_patch(patch: Option<&str>, path: Option<String>) -> (r: Result<(String, Vec<Hunk>), ToolResult>)
    ensures
        match r {
            Ok((p, hs)) => patch_request(
                match patch { Some(x) => Some(x@), None => None },
                match path { Some(x) => Some(x@), None => None },
            ) == Ok::<(Seq<char>, Seq<HunkSpec>), Seq<char>>((p@, hunk_views(hs@))),
            Err(t) => patch_request(
                match patch { Some(x) => Some(x@), None => None },
                match path { Some(x) => Some(x@), None => None },
            ) matches Err(e) && t@ == crate::tool::err_v(e),
        },
{
    let text = match patch {
        None => return Err(crate::tool::ToolResult::err(String::from_str("缺少必要参数: patch"))),
        Some(t) => t,
    };
    let (target, hunks) = match parse_unified_diff(text) {
        Err(e) => return Err(crate::tool::failure("解析 diff 失败: ", e.as_str())),
        Ok(x) => x,
    };
    match path {
        Some(p) => Ok((p, hunks)),
        None => match target {
            Some(t) => Ok((t, hunks)),
            None => Err(crate::tool::ToolResult::err(String::from_str("未指定目标文件路径：请在 path 参数中提供，或在 diff 中包含 +++ 文件头"))),
        },
    }
}

/// The report of a patch that was written.
pub fn patch_success(applied: usize, path: &str) -> (r: crate::tool::ToolResult)
    ensures
        r@ == crate::tool::ok_v("成功应用 "@ + crate::num::dec(applied as nat) + " 个 hunk 到 '"@ + path@ + "'。"@),
{
    let mut v: Vec<char> = Vec::new();
    push_str(&mut v, "成功应用 ");
    let d = crate::num::dec_chars(applied as u64);
    push_all(&mut v, &d);
    push_str(&mut v, " 个 hunk 到 '");
    push_str(&mut v, path);
    push_str(&mut v, "'。");
    crate::tool::ToolResult::ok(string_of(&v))
}

// ─── Applying located hunks ────────────────────────────────────────────

/// The file with the hunks from `k` on put in place, read from line
/// `from`: the lines up to hunk `k`'s position are kept, its old side is
/// replaced by its new side, and so on for the later hunks; the lines after
/// the last hunk are kept.
pub open spec fn spliced(file: Seq<Seq<char>>, hs: Seq<HunkSpec>, pos: Seq<int>, k: int, from: int) -> Seq<Seq<char>>
    decreases hs.len() - k,
{
    if k < 0 || k >= hs.len() {
        file.subrange(from, file.len() as int)
    } else {
        file.subrange(from, pos[k]) + new_side(hs[k].lines) + spliced(file, hs, pos, k + 1, pos[k] + old_len(hs[k].lines))
    }
}

/// The hunks are located at `pos`, in increasing order, each block ending
/// before the next one begins and the last one within the file.
pub open spec fn placed_in_order(file: Seq<Seq<char>>, hs: Seq<HunkSpec>, pos: Seq<int>) -> bool {
    &&& pos.len() == hs.len()
    &&& hs.len() <= usize::MAX
    &&& file.len() <= usize::MAX
    &&& forall|i: int| 0 <= i < hs.len() ==> 0 <= #[trigger] pos[i] && locate(file, hs[i]) == Some(pos[i])
    &&& forall|i: int, j: int| 0 <= i < j < hs.len() ==> #[trigger] pos[i] < #[trigger] pos[j]
        && pos[i] + old_len(hs[i].lines) <= pos[j]
    &&& hs.len() > 0 ==> pos[hs.len() - 1] + old_len(hs[hs.len() - 1].lines) <= file.len()
}

/// The located entries as the patch lists them: (position, hunk index).
pub open spec fn located_entries(pos: Seq<int>) -> Seq<(usize, usize)> {
    Seq::new(pos.len(), |i: int| (pos[i] as usize, i as usize))
}

/// The entries from `k` on, last first.
pub open spec fn desc_from(ps: Seq<(usize, usize)>, k: int) -> Seq<(usize, usize)>
    decreases ps.len() - k,
{
    if k < 0 || k >= ps.len() {
        seq![]
    } else {
        desc_from(ps, k + 1).push(ps[k])
    }
}

proof fn lemma_locate_all_placed(file: Seq<Seq<char>>, hs: Seq<HunkSpec>, pos: Seq<int>)
    requires
        pos.len() == hs.len(),
        forall|i: int| 0 <= i < hs.len() ==> locate(file, #[trigger] hs[i]) == Some(pos[i]),
    ensures
        locate_all(file, hs) == Ok::<Seq<(usize, usize)>, int>(located_entries(pos)),
    decreases hs.len(),
{
    if hs.len() > 0 {
        let hd = hs.drop_last();
        let pd = pos.drop_last();
        assert forall|i: int| 0 <= i < hd.len() implies locate(file, #[trigger] hd[i]) == Some(pd[i]) by {
            assert(hd[i] == hs[i]);
        }
        lemma_locate_all_placed(file, hd, pd);
        assert(hs.last() == hs[hs.len() - 1]);
        assert(locate(file, hs.last()) == Some(pos[pos.len() - 1]));
        assert(located_entries(pd).push(((pos[pos.len() - 1]) as usize, (hs.len() - 1) as usize)) =~= located_entries(pos));
    } else {
        assert(located_entries(pos) =~= Seq::<(usize, usize)>::empty());
    }
}

proof fn lemma_desc_from_front(ps: Seq<(usize, usize)>, k: int)
    requires
        0 <= k < ps.len(),
    ensures
        desc_from(ps, k) == seq![ps.last()] + desc_from(ps.drop_last(), k),
    decreases ps.len() - k,
{
    if k == ps.len() - 1 {
        assert(desc_from(ps, k + 1) == Seq::<(usize, usize)>::empty());
        assert(desc_from(ps.drop_last(), k) == Seq::<(usize, usize)>::empty());
        assert(desc_from(ps, k) =~= seq![ps[k]]);
    } else {
        lemma_desc_from_front(ps, k + 1);
        assert(ps.drop_last()[k] == ps[k]);
        assert(desc_from(ps, k) =~= seq![ps.last()] + desc_from(ps.drop_last(), k + 1).push(ps[k]));
    }
}

proof fn lemma_sort_desc_ascending(ps: Seq<(usize, usize)>)
    requires
        forall|i: int, j: int| 0 <= i < j < ps.len() ==> (#[trigger] ps[i]).0 < (#[trigger] ps[j]).0,
    ensures
        sort_desc(ps) == desc_from(ps, 0),
    decreases ps.len(),
{
    if ps.len() > 0 {
        let dl = ps.drop_last();
        assert forall|i: int, j: int| 0 <= i < j < dl.len() implies (#[trigger] dl[i]).0 < (#[trigger] dl[j]).0 by {
            assert(dl[i] == ps[i] && dl[j] == ps[j]);
        }
        lemma_sort_desc_ascending(dl);
        lemma_desc_from_front(ps, 0);
        if dl.len() > 0 {
            lemma_desc_from_front(dl, 0);
            assert(dl.last() == ps[ps.len() - 2]);
            assert(ps.last() == ps[ps.len() - 1]);
            assert(desc_from(dl, 0)[0] == dl.last());
            assert(insert_desc(desc_from(dl, 0), ps.last()) == seq![ps.last()] + desc_from(dl, 0));
        } else {
            assert(desc_from(dl, 0) == Seq::<(usize, usize)>::empty());
        }
    }
}

proof fn lemma_apply_desc(file: Seq<Seq<char>>, hs: Seq<HunkSpec>, pos: Seq<int>, k: int)
    requires
        placed_in_order(file, hs, pos),
        0 <= k <= hs.len(),
    ensures
        apply_all(file, hs, desc_from(located_entries(pos), k)) == spliced(file, hs, pos, k, 0),
    decreases hs.len() - k,
{
    let ps = located_entries(pos);
    let n = hs.len() as int;
    if k == n {
        assert(file.subrange(0, file.len() as int) =~= file);
    } else {
        lemma_apply_desc(file, hs, pos, k + 1);
        let a = apply_all(file, hs, desc_from(ps, k + 1));
        let pk = pos[k];
        let ok = old_len(hs[k].lines);
        assert(ps[k] == (pk as usize, k as usize));
        assert(pos[n - 1] + old_len(hs[n - 1].lines) <= file.len());
        if k < n - 1 {
            assert(pk < pos[n - 1]);
        }
        assert(pk <= file.len());
        assert((pk as usize) as int == pk);
        assert((k as usize) as int == k);
        assert(desc_from(ps, k).drop_last() == desc_from(ps, k + 1));
        assert(desc_from(ps, k).last() == ps[k]);
        let rest = spliced(file, hs, pos, k + 1, pk + ok);
        if k + 1 == n {
            assert(a == file);
            assert(apply_spec(a, hs[k], pk) =~= file.subrange(0, pk) + new_side(hs[k].lines) + rest);
        } else {
            let p1 = pos[k + 1];
            assert(pk < p1 && pk + ok <= p1);
            if k + 1 < n - 1 {
                assert(p1 < pos[n - 1]);
            }
            let r1 = new_side(hs[k + 1].lines) + spliced(file, hs, pos, k + 2, p1 + old_len(hs[k + 1].lines));
            assert(a == file.subrange(0, p1) + r1);
            assert(a.subrange(0, pk) =~= file.subrange(0, pk));
            assert(a.subrange(pk + ok, a.len() as int) =~= file.subrange(pk + ok, p1) + r1);
            assert(rest == file.subrange(pk + ok, p1) + r1);
            assert(apply_spec(a, hs[k], pk) =~= file.subrange(0, pk) + new_side(hs[k].lines) + rest);
        }
    }
}

/// Hunks in file order are applied as if spliced in one pass: the lines
/// before, between and after the located blocks are kept in order, and
/// each block's old side is replaced exactly by its hunk's new side, no
/// matter that the hunks are applied from the last to the first.
pub proof fn law_patch_splices_in_order(original: Seq<char>, hs: Seq<HunkSpec>, pos: Seq<int>)
    requires
        placed_in_order(lines(original), hs, pos),
    ensures
        patch_spec(original, hs) == Ok::<(Seq<char>, nat), Seq<char>>((
            join_lines(spliced(lines(original), hs, pos, 0, 0), "\n"@) + (if ends_with_nl(original) { "\n"@ } else { seq![] }),
            hs.len(),
        )),
{
    let fl = lines(original);
    lemma_locate_all_placed(fl, hs, pos);
    let ps = located_entries(pos);
    assert forall|i: int, j: int| 0 <= i < j < ps.len() implies (#[trigger] ps[i]).0 < (#[trigger] ps[j]).0 by {
        assert(pos[i] < pos[j]);
        assert(pos[hs.len() - 1] + old_len(hs[hs.len() - 1].lines) <= fl.len());
        if j < hs.len() - 1 {
            assert(pos[j] < pos[hs.len() - 1]);
        }
    }
    lemma_sort_desc_ascending(ps);
    lemma_apply_desc(fl, hs, pos, 0);
    if ends_with_nl(original) {
    } else {
        assert(join_lines(spliced(fl, hs, pos, 0, 0), "\n"@) + Seq::<char>::empty() =~= join_lines(spliced(fl, hs, pos, 0, 0), "\n"@));
    }
}

} // verus!
