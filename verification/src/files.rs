//! The file tools: `read_file`, `write_file` and `list_dir`.
use vstd::prelude::*;
use crate::text::{chars_of, join_lines, join_strings, lines, lines_chars, push_all, push_str, str_views, string_of, views};
use crate::num::{dec, dec_chars, space_pad, space_pad_chars};
use crate::order::{sort_strings, string_le};
use crate::extract::utf8_len;
use crate::tool::{ToolResult, ResultV, ok_v};

verus! {

/// Each line as "<number right-aligned in 6>\t<line>", numbered from 1.
pub open spec fn numbered_lines(ls: Seq<Seq<char>>) -> Seq<Seq<char>>
    decreases ls.len(),
{
    if ls.len() == 0 {
        seq![]
    } else {
        numbered_lines(ls.drop_last()).push(space_pad(ls.len(), 6) + "\t"@ + ls.last())
    }
}

/// A file's text as `read_file` shows it: its lines numbered and joined by
/// "\n".
pub open spec fn numbered(content: Seq<char>) -> Seq<char> {
    join_lines(numbered_lines(lines(content)), "\n"@)
}

/// Numbers the lines of a file's text.
pub fn number_lines(content: &str) -> (r: String)
    ensures
        r@ == numbered(content@),
{
    let c = chars_of(content);
    let ls = lines_chars(&c);
    let ghost lv = views(ls@);
    let mut out: Vec<Vec<char>> = Vec::new();
    let mut i: usize = 0;
    while i < ls.len()
        invariant
            i <= ls@.len(),
            lv == views(ls@),
            views(out@) == numbered_lines(lv.take(i as int)),
        decreases ls@.len() - i,
    {
        assert(lv.take(i + 1).drop_last() =~= lv.take(i as int));
        assert(lv.take(i + 1).last() == ls@[i as int]@);
        let mut item = space_pad_chars((i + 1) as u64, 6);
        push_str(&mut item, "\t");
        push_all(&mut item, &ls[i]);
        let ghost before = out@;
        out.push(item);
        proof {
            crate::text::lemma_views_push(before, out@.last());
        }
        i = i + 1;
    }
    assert(lv.take(i as int) =~= lv);
    let nl = chars_of("\n");
    let j = crate::text::join_chars(&out, &nl);
    string_of(&j)
}

/// The report of a successful write: the size in UTF-8 bytes and the path.
pub fn write_success(path: &str, content: &str) -> (r: ToolResult)
    requires
        utf8_len(content@) <= usize::MAX,
    ensures
        r@ == ok_v("Successfully wrote "@ + dec(utf8_len(content@)) + " bytes to "@ + path@),
{
    let bytes = content.len();
    proof {
        crate::extract::lemma_utf8_len_encoding(content@);
    }
    let mut v: Vec<char> = Vec::new();
    push_str(&mut v, "Successfully wrote ");
    let d = dec_chars(bytes as u64);
    push_all(&mut v, &d);
    push_str(&mut v, " bytes to ");
    push_str(&mut v, path);
    ToolResult::ok(string_of(&v))
}

/// One directory entry as listed: a folder or a file icon, a space, the
/// name.
pub open spec fn entry_line(name: Seq<char>, is_dir: bool) -> Seq<char> {
    (if is_dir {
        "📁"@
    } else {
        "📄"@
    }) + " "@ + name
}

pub open spec fn entry_lines(entries: Seq<(Seq<char>, bool)>) -> Seq<Seq<char>> {
    entries.map_values(|e: (Seq<char>, bool)| entry_line(e.0, e.1))
}

/// A directory's listing: one line per entry, sorted, joined by "\n".
pub open spec fn listing(entries: Seq<(Seq<char>, bool)>) -> Seq<char> {
    join_lines(entry_lines(entries).sort_by(string_le()), "\n"@)
}

/// Lists directory entries given as (name, is a directory).
pub fn list_entries(entries: &Vec<(String, bool)>) -> (r: String)
    ensures
        r@ == listing(entries@.map_values(|e: (String, bool)| (e.0@, e.1))),
{
    let ghost ev = entries@.map_values(|e: (String, bool)| (e.0@, e.1));
    let mut items: Vec<String> = Vec::new();
    let mut i: usize = 0;
    while i < entries.len()
        invariant
            i <= entries@.len(),
            ev == entries@.map_values(|e: (String, bool)| (e.0@, e.1)),
            str_views(items@) == entry_lines(ev.take(i as int)),
        decreases entries@.len() - i,
    {
        let mut v: Vec<char> = Vec::new();
        if entries[i].1 {
            push_str(&mut v, "📁");
        } else {
            push_str(&mut v, "📄");
        }
        push_str(&mut v, " ");
        push_str(&mut v, entries[i].0.as_str());
        let ghost before = items@;
        items.push(string_of(&v));
        proof {
            crate::text::lemma_str_views_push(before, items@.last());
            assert(entry_lines(ev.take(i + 1)) =~= entry_lines(ev.take(i as int)).push(
                entry_line(ev[i as int].0, ev[i as int].1),
            ));
        }
        i = i + 1;
    }
    assert(ev.take(i as int) =~= ev);
    let sorted = sort_strings(items);
    let j = join_strings(&sorted);
    string_of(&j)
}

/// Reads a file and shows it with line numbers.
pub struct ReadFileTool;

/// Writes (or overwrites) a file; asks for approval.
pub struct WriteFileTool;

/// Lists a directory.
pub struct ListDirTool;

impl ReadFileTool {
    pub fn name(&self) -> (r: &'static str)
        ensures
            r@ == "read_file"@,
    {
        "read_file"
    }

    pub fn description(&self) -> (r: &'static str)
        ensures
            r@ == "Read a file from the filesystem, returning its content with line numbers"@,
    {
        "Read a file from the filesystem, returning its content with line numbers"
    }

    pub fn is_dangerous(&self) -> (r: bool)
        ensures
            !r,
    {
        false
    }
}

impl WriteFileTool {
    pub fn name(&self) -> (r: &'static str)
        ensures
            r@ == "write_file"@,
    {
        "write_file"
    }

    pub fn description(&self) -> (r: &'static str)
        ensures
            r@ == "Write or overwrite a file"@,
    {
        "Write or overwrite a file"
    }

    pub fn is_dangerous(&self) -> (r: bool)
        ensures
            r,
    {
        true
    }
}

impl ListDirTool {
    pub fn name(&self) -> (r: &'static str)
        ensures
            r@ == "list_dir"@,
    {
        "list_dir"
    }

    pub fn description(&self) -> (r: &'static str)
        ensures
            r@ == "List the contents of a directory"@,
    {
        "List the contents of a directory"
    }

    pub fn is_dangerous(&self) -> (r: bool)
        ensures
            !r,
    {
        false
    }
}

} // verus!
