//! Decisions of the agent loop: which tool definitions the model sees,
//! when and how the conversation is trimmed to its context window, what the
//! summary request says, and how tool calls and their results are recorded.
//! Talking to the model, running tools and asking the user are the
//! caller's; each of those steps hands its result to a function here.
use vstd::prelude::*;
use crate::text::{
    chars_of, eq_lit, find, find_chars, join_lines, join_strings, push_all, push_str, slice_of,
    starts_with, starts_with_chars, str_views, string_of, trim, trim_chars,
};
use crate::num::{dec, dec_chars};
use crate::mcp::{key_index, index_of_key, lemma_key_index_keys, lemma_key_index_found};
use crate::tool::{ToolResult, ResultV};
use crate::tokens::{Usage, StreamEvent};

verus! {

// ─── Tool definitions ──────────────────────────────────────────────────

/// What the loop knows of a registered tool when it lists them.
pub struct ToolInfo {
    pub name: String,
    pub description: String,
}

/// One definition sent to the model.
#[derive(Debug)]
pub enum ToolDefEntry {
    /// The tool at this index, with its parameter schema.
    Full { index: usize },
    /// The tool at this index, with an empty parameter object.
    Bare { index: usize },
    /// One line standing for all tools of an MCP server, with an empty
    /// object schema.
    ServerSummary { name: String, description: String },
}

/// Mathematical view of a [`ToolDefEntry`].
pub enum DefV {
    Full(int),
    Bare(int),
    ServerSummary(Seq<char>, Seq<char>),
}

impl View for ToolDefEntry {
    type V = DefV;

    open spec fn view(&self) -> DefV {
        match self {
            ToolDefEntry::Full { index } => DefV::Full(*index as int),
            ToolDefEntry::Bare { index } => DefV::Bare(*index as int),
            ToolDefEntry::ServerSummary { name, description } => DefV::ServerSummary(
                name@,
                description@,
            ),
        }
    }
}

pub open spec fn def_views(s: Seq<ToolDefEntry>) -> Seq<DefV> {
    s.map_values(|d: ToolDefEntry| d@)
}

/// Tools that come from an MCP server.
pub open spec fn is_mcp(name: Seq<char>) -> bool {
    starts_with(name, "mcp__"@)
}

/// The server part of an MCP tool name "mcp__<server>__<tool>".
pub open spec fn mcp_server(name: Seq<char>) -> Seq<char> {
    let rest = name.skip(5);
    match find(rest, "__"@) {
        Some(j) => rest.take(j),
        None => rest,
    }
}

/// The tool part of an MCP tool name (empty when there is none).
pub open spec fn mcp_tool(name: Seq<char>) -> Seq<char> {
    let rest = name.skip(5);
    match find(rest, "__"@) {
        Some(j) => rest.skip(j + 2),
        None => seq![],
    }
}

/// Indices (in order) of the tools that are, or are not, from MCP.
pub open spec fn indices_where(names: Seq<Seq<char>>, mcp: bool) -> Seq<int>
    decreases names.len(),
{
    if names.len() == 0 {
        seq![]
    } else {
        let prev = indices_where(names.drop_last(), mcp);
        if is_mcp(names.last()) == mcp {
            prev.push(names.len() - 1)
        } else {
            prev
        }
    }
}

/// MCP tools grouped by server, servers in order of first appearance.
pub open spec fn server_groups(names: Seq<Seq<char>>) -> Seq<(Seq<char>, Seq<Seq<char>>)>
    decreases names.len(),
{
    if names.len() == 0 {
        seq![]
    } else {
        let prev = server_groups(names.drop_last());
        let n = names.last();
        if is_mcp(n) {
            let s = mcp_server(n);
            match key_index(prev, s) {
                Some(i) => prev.update(i, (s, prev[i].1.push(mcp_tool(n)))),
                None => prev.push((s, seq![mcp_tool(n)])),
            }
        } else {
            prev
        }
    }
}

/// The summary line of a server's tools.
pub open spec fn server_summary(g: (Seq<char>, Seq<Seq<char>>)) -> DefV {
    DefV::ServerSummary(
        "mcp__"@ + g.0 + "__list_tools"@,
        "MCP Server '"@ + g.0 + "' 提供的工具: "@ + join_lines(g.1, ", "@),
    )
}

/// The definitions sent to the model: every built-in tool in full; then,
/// with up to 20 MCP tools, those in full; with 21 to 40, those without
/// their schemas; with more, one summary line per server.
pub open spec fn tool_defs(names: Seq<Seq<char>>) -> Seq<DefV> {
    let builtins = indices_where(names, false).map_values(|i: int| DefV::Full(i));
    let mcps = indices_where(names, true);
    if mcps.len() <= 20 {
        builtins + mcps.map_values(|i: int| DefV::Full(i))
    } else if mcps.len() <= 40 {
        builtins + mcps.map_values(|i: int| DefV::Bare(i))
    } else {
        builtins + server_groups(names).map_values(|g: (Seq<char>, Seq<Seq<char>>)| server_summary(g))
    }
}

proof fn lemma_server_groups(names: Seq<Seq<char>>)
    ensures
        crate::mcp::keys_unique(server_groups(names)),
        forall|j: int| 0 <= j < names.len() && is_mcp(#[trigger] names[j]) ==> key_index(server_groups(names), mcp_server(names[j])) is Some,
    decreases names.len(),
{
    if names.len() > 0 {
        let p = names.drop_last();
        lemma_server_groups(p);
        let prev = server_groups(p);
        let g = server_groups(names);
        lemma_key_index_found(prev, mcp_server(names.last()));
        assert forall|a: int, b: int| 0 <= a < b < g.len() implies g[a].0 != g[b].0 by {
            if b < prev.len() {
                assert(g[a].0 == prev[a].0 && g[b].0 == prev[b].0);
            } else {
                assert(g[a].0 == prev[a].0);
            }
        }
        assert forall|j: int| 0 <= j < names.len() && is_mcp(#[trigger] names[j]) implies key_index(g, mcp_server(names[j])) is Some by {
            let k = mcp_server(names[j]);
            lemma_key_index_found(g, k);
            if j < p.len() {
                assert(p[j] == names[j]);
                lemma_key_index_found(prev, k);
                let i = key_index(prev, k).unwrap();
                assert(g[i].0 == prev[i].0);
            } else {
                let last = g.len() - 1;
                if key_index(prev, k) is Some {
                    let i = key_index(prev, k).unwrap();
                    assert(g[i].0 == prev[i].0);
                } else {
                    assert(g[last].0 == k);
                }
            }
        }
    }
}

/// The definitions come in tiers: the built-in tools always in full and
/// first, in order; then the MCP tools in full (up to 20), without their
/// schemas (21 to 40), or, with more, one summary per server: every MCP
/// tool's server has exactly one summary.
pub proof fn law_tool_def_tiers(names: Seq<Seq<char>>)
    ensures
        ({
            let b = indices_where(names, false);
            let m = indices_where(names, true);
            let d = tool_defs(names);
            &&& forall|i: int| 0 <= i < b.len() ==> d[i] == DefV::Full(#[trigger] b[i])
            &&& m.len() <= 20 ==> d.len() == b.len() + m.len() && forall|i: int| 0 <= i < m.len() ==> d[b.len() + i] == DefV::Full(#[trigger] m[i])
            &&& 20 < m.len() <= 40 ==> d.len() == b.len() + m.len() && forall|i: int| 0 <= i < m.len() ==> d[b.len() + i] == DefV::Bare(#[trigger] m[i])
            &&& m.len() > 40 ==> d.len() == b.len() + server_groups(names).len()
                && crate::mcp::keys_unique(server_groups(names))
                && forall|j: int| 0 <= j < names.len() && is_mcp(#[trigger] names[j]) ==> key_index(server_groups(names), mcp_server(names[j])) is Some
        }),
{
    lemma_server_groups(names);
}

pub open spec fn tool_names(tools: Seq<ToolInfo>) -> Seq<Seq<char>> {
    tools.map_values(|t: ToolInfo| t.name@)
}

fn indices_of(tools: &Vec<ToolInfo>, mcp: bool) -> (r: Vec<usize>)
    ensures
        r@.map_values(|i: usize| i as int) == indices_where(tool_names(tools@), mcp),
        forall|k: int| 0 <= k < r@.len() ==> r@[k] < tools@.len(),
{
    let ghost names = tool_names(tools@);
    let pre = chars_of("mcp__");
    let mut r: Vec<usize> = Vec::new();
    let mut i: usize = 0;
    while i < tools.len()
        invariant
            i <= tools@.len(),
            names == tool_names(tools@),
            pre@ == "mcp__"@,
            r@.map_values(|i: usize| i as int) == indices_where(names.take(i as int), mcp),
            forall|k: int| 0 <= k < r@.len() ==> r@[k] < i,
        decreases tools@.len() - i,
    {
        assert(names.take(i + 1).drop_last() =~= names.take(i as int));
        assert(names.take(i + 1).last() == tools@[i as int].name@);
        let n = chars_of(tools[i].name.as_str());
        if starts_with_chars(&n, &pre) == mcp {
            let ghost before = r@;
            r.push(i);
            assert(r@.map_values(|i: usize| i as int) =~= before.map_values(|i: usize| i as int).push(
                i as int,
            ));
        }
        i = i + 1;
    }
    assert(names.take(i as int) =~= names);
    r
}

/// Splits an MCP tool name into its server and tool parts.
pub fn split_mcp_name(name: &str) -> (r: (String, String))
    requires
        is_mcp(name@),
    ensures
        r.0@ == mcp_server(name@),
        r.1@ == mcp_tool(name@),
{
    proof {
        reveal_strlit("mcp__");
        reveal_strlit("__");
    }
    let n = chars_of(name);
    let rest = slice_of(&n, 5, n.len());
    assert(rest@ =~= name@.skip(5));
    let sep = chars_of("__");
    match find_chars(&rest, &sep) {
        Some(j) => {
            proof {
                crate::text::lemma_find_from(rest@, sep@, 0);
            }
            let s = slice_of(&rest, 0, j);
            let t = slice_of(&rest, j + 2, rest.len());
            assert(s@ =~= rest@.take(j as int));
            assert(t@ =~= rest@.skip(j + 2));
            (string_of(&s), string_of(&t))
        },
        None => (string_of(&rest), String::new()),
    }
}

fn group_servers(tools: &Vec<ToolInfo>) -> (r: Vec<(String, Vec<String>)>)
    ensures
        r@.map_values(|p: (String, Vec<String>)| (p.0@, str_views(p.1@))) == server_groups(
            tool_names(tools@),
        ),
{
    let ghost names = tool_names(tools@);
    let pre = chars_of("mcp__");
    let mut groups: Vec<(String, Vec<String>)> = Vec::new();
    let mut i: usize = 0;
    while i < tools.len()
        invariant
            i <= tools@.len(),
            names == tool_names(tools@),
            pre@ == "mcp__"@,
            groups@.map_values(|p: (String, Vec<String>)| (p.0@, str_views(p.1@))) == server_groups(
                names.take(i as int),
            ),
        decreases tools@.len() - i,
    {
        assert(names.take(i + 1).drop_last() =~= names.take(i as int));
        assert(names.take(i + 1).last() == tools@[i as int].name@);
        let n = chars_of(tools[i].name.as_str());
        if starts_with_chars(&n, &pre) {
            let (s, t) = split_mcp_name(tools[i].name.as_str());
            let ghost gv = groups@.map_values(|p: (String, Vec<String>)| (p.0@, str_views(p.1@)));
            let ghost ks = groups@.map_values(|p: (String, Vec<String>)| (p.0@, ()));
            proof {
                lemma_key_index_keys(gv, ks, s@);
            }
            match index_of_key(&groups, &s) {
                Some(k) => {
                    proof {
                        lemma_key_index_found(ks, s@);
                        assert(ks[k as int].0 == groups@[k as int].0@);
                        assert(gv[k as int] == (groups@[k as int].0@, str_views(groups@[k as int].1@)));
                    }
                    let ghost g0 = groups@;
                    let (name, mut list) = groups.remove(k);
                    assert(name@ == s@);
                    assert(groups@ =~= g0.remove(k as int));
                    let ghost lv = str_views(list@);
                    list.push(t);
                    proof {
                        crate::text::lemma_str_views_push(list@.drop_last(), list@.last());
                        assert(list@.drop_last() =~= list@.take(list@.len() - 1));
                    }
                    assert(str_views(list@) =~= gv[k as int].1.push(mcp_tool(names[i as int])));
                    groups.insert(k, (name, list));
                    assert(groups@ =~= g0.update(k as int, groups@[k as int]));
                    assert(groups@.map_values(|p: (String, Vec<String>)| (p.0@, str_views(p.1@)))
                        =~= gv.update(k as int, (s@, gv[k as int].1.push(mcp_tool(names[i as int])))));
                },
                None => {
                    let mut list: Vec<String> = Vec::new();
                    list.push(t);
                    assert(str_views(list@) =~= seq![mcp_tool(names[i as int])]);
                    groups.push((s, list));
                    assert(groups@.map_values(|p: (String, Vec<String>)| (p.0@, str_views(p.1@)))
                        =~= gv.push((s@, seq![mcp_tool(names[i as int])])));
                },
            }
        }
        i = i + 1;
    }
    assert(names.take(i as int) =~= names);
    groups
}

/// Plans the tool definitions sent to the model.
pub fn build_tool_defs_with_truncation(tools: &Vec<ToolInfo>) -> (r: Vec<ToolDefEntry>)
    ensures
        def_views(r@) == tool_defs(tool_names(tools@)),
{
    let ghost names = tool_names(tools@);
    let builtins = indices_of(tools, false);
    let mcps = indices_of(tools, true);
    let mut defs: Vec<ToolDefEntry> = Vec::new();
    let ghost bv = builtins@.map_values(|i: usize| i as int);
    let mut k: usize = 0;
    while k < builtins.len()
        invariant
            k <= builtins@.len(),
            bv == builtins@.map_values(|i: usize| i as int),
            defs@.len() == k,
            forall|j: int| 0 <= j < k ==> (#[trigger] defs@[j])@ == DefV::Full(bv[j]),
        decreases builtins@.len() - k,
    {
        defs.push(ToolDefEntry::Full { index: builtins[k] });
        k = k + 1;
    }
    assert(def_views(defs@) =~= bv.map_values(|i: int| DefV::Full(i)));
    let ghost base = def_views(defs@);
    let ghost mv = mcps@.map_values(|i: usize| i as int);
    if mcps.len() <= 40 {
        let full = mcps.len() <= 20;
        let mut k: usize = 0;
        while k < mcps.len()
            invariant
                k <= mcps@.len(),
                mv == mcps@.map_values(|i: usize| i as int),
                full == (mcps@.len() <= 20),
                defs@.len() == base.len() + k,
                forall|j: int| 0 <= j < base.len() ==> (#[trigger] defs@[j])@ == base[j],
                forall|j: int| 0 <= j < k ==> (#[trigger] defs@[base.len() + j])@ == (if full {
                    DefV::Full(mv[j])
                } else {
                    DefV::Bare(mv[j])
                }),
            decreases mcps@.len() - k,
        {
            if full {
                defs.push(ToolDefEntry::Full { index: mcps[k] });
            } else {
                defs.push(ToolDefEntry::Bare { index: mcps[k] });
            }
            assert(defs@[base.len() + k]@ == (if full {
                DefV::Full(mv[k as int])
            } else {
                DefV::Bare(mv[k as int])
            }));
            k = k + 1;
        }
        assert forall|j: int| 0 <= j < mv.len() implies defs@[base.len() + j]@ == (if full {
            DefV::Full(mv[j])
        } else {
            DefV::Bare(mv[j])
        }) by {}
        if full {
            assert forall|x: int| base.len() <= x < defs@.len() implies def_views(defs@)[x] == (base + mv.map_values(|i: int| DefV::Full(i)))[x] by {
                assert(defs@[base.len() + (x - base.len())]@ == DefV::Full(mv[x - base.len()]));
            }
            assert(def_views(defs@) =~= base + mv.map_values(|i: int| DefV::Full(i)));
        } else {
            assert forall|x: int| base.len() <= x < defs@.len() implies def_views(defs@)[x] == (base + mv.map_values(|i: int| DefV::Bare(i)))[x] by {
                assert(defs@[base.len() + (x - base.len())]@ == DefV::Bare(mv[x - base.len()]));
            }
            assert(def_views(defs@) =~= base + mv.map_values(|i: int| DefV::Bare(i)));
        }
    } else {
        let groups = group_servers(tools);
        let ghost gv = groups@.map_values(|p: (String, Vec<String>)| (p.0@, str_views(p.1@)));
        let sep = chars_of(", ");
        let mut k: usize = 0;
        while k < groups.len()
            invariant
                k <= groups@.len(),
                gv == groups@.map_values(|p: (String, Vec<String>)| (p.0@, str_views(p.1@))),
                sep@ == ", "@,
                defs@.len() == base.len() + k,
                forall|j: int| 0 <= j < base.len() ==> (#[trigger] defs@[j])@ == base[j],
                forall|j: int| 0 <= j < k ==> (#[trigger] defs@[base.len() + j])@ == server_summary(gv[j]),
            decreases groups@.len() - k,
        {
            let mut name: Vec<char> = Vec::new();
            push_str(&mut name, "mcp__");
            push_str(&mut name, groups[k].0.as_str());
            push_str(&mut name, "__list_tools");
            let mut desc: Vec<char> = Vec::new();
            push_str(&mut desc, "MCP Server '");
            push_str(&mut desc, groups[k].0.as_str());
            push_str(&mut desc, "' 提供的工具: ");
            let mut parts: Vec<Vec<char>> = Vec::new();
            let mut j: usize = 0;
            while j < groups[k].1.len()
                invariant
                    j <= groups@[k as int].1@.len(),
                    k < groups@.len(),
                    crate::text::views(parts@) == str_views(groups@[k as int].1@).take(j as int),
                decreases groups@[k as int].1@.len() - j,
            {
                let c = chars_of(groups[k].1[j].as_str());
                let ghost before = parts@;
                parts.push(c);
                proof {
                    crate::text::lemma_views_push(before, parts@.last());
                }
                assert(str_views(groups@[k as int].1@).take(j + 1) =~= str_views(groups@[k as int].1@).take(j as int).push(groups@[k as int].1@[j as int]@));
                j = j + 1;
            }
            assert(str_views(groups@[k as int].1@).take(j as int) =~= str_views(groups@[k as int].1@));
            let joined = crate::text::join_chars(&parts, &sep);
            push_all(&mut desc, &joined);
            defs.push(ToolDefEntry::ServerSummary { name: string_of(&name), description: string_of(&desc) });
            assert(defs@[base.len() + k]@ == server_summary(gv[k as int]));
            k = k + 1;
        }
        assert forall|x: int| base.len() <= x < defs@.len() implies def_views(defs@)[x] == (base + gv.map_values(
            |g: (Seq<char>, Seq<Seq<char>>)| server_summary(g),
        ))[x] by {
            assert(defs@[base.len() + (x - base.len())]@ == server_summary(gv[x - base.len()]));
        }
        assert(def_views(defs@) =~= base + gv.map_values(
            |g: (Seq<char>, Seq<Seq<char>>)| server_summary(g),
        ));
    }
    defs
}

// ─── Trimming the conversation ─────────────────────────────────────────

/// `a * b`, or `u32::MAX` when it does not fit (`saturating_mul`).
pub open spec fn sat_mul(a: u32, b: u32) -> int {
    if a * b > u32::MAX {
        u32::MAX as int
    } else {
        a * b
    }
}

/// Trimming starts at 80% of the context window.
pub fn sat_mul_u32(a: u32, b: u32) -> (r: u32)
    ensures
        r == sat_mul(a, b),
{
    assert((a as int) * (b as int) <= 0xFFFF_FFFF * 0xFFFF_FFFF) by (nonlinear_arith)
        requires
            a <= 0xFFFF_FFFF,
            b <= 0xFFFF_FFFF,
    ;
    let p: u64 = (a as u64) * (b as u64);
    if p > 0xFFFF_FFFFu64 {
        0xFFFF_FFFFu32
    } else {
        p as u32
    }
}

pub open spec fn trim_threshold(window: u32) -> int {
    sat_mul(window, 80) / 100
}

/// Trimming goes on until usage is under 60% of the context window.
pub open spec fn trim_target(window: u32) -> int {
    sat_mul(window, 60) / 100
}

/// The sum of `t[a..b]`.
pub open spec fn sum_range(t: Seq<u32>, a: int, b: int) -> int
    decreases b - a,
{
    if b <= a {
        0
    } else {
        sum_range(t, a, b - 1) + t[b - 1]
    }
}

/// Where the messages after the leading system messages begin: the first
/// message that is not a system message (0 when there is none).
pub open spec fn first_non_system(roles: Seq<Seq<char>>, i: int) -> int
    decreases roles.len() - i,
{
    if i < 0 || i >= roles.len() {
        0
    } else if roles[i] != "system"@ {
        i
    } else {
        first_non_system(roles, i + 1)
    }
}

/// Where the turns among the first `n` messages begin: the first message
/// after the system messages, and every later user message.
pub open spec fn turn_starts(roles: Seq<Seq<char>>, s: int, n: int) -> Seq<int>
    decreases n - s,
{
    if n <= s {
        seq![]
    } else {
        let prev = turn_starts(roles, s, n - 1);
        if n - 1 == s || roles[n - 1] == "user"@ {
            prev.push(n - 1)
        } else {
            prev
        }
    }
}

/// The turns of a conversation (by the index of their first message).
pub open spec fn turns_of(roles: Seq<Seq<char>>) -> Seq<int> {
    turn_starts(roles, first_non_system(roles, 0), roles.len() as int)
}

/// Whether trimming happens, and then how many turns may go: all but the
/// last `min_turns`. It does not happen while usage is under 80% of the
/// window, or when there are no more than `min_turns` turns.
pub open spec fn droppable(roles: Seq<Seq<char>>, tokens: Seq<u32>, window: u32, min_turns: u32) -> Option<int> {
    let t = turns_of(roles);
    if sum_range(tokens, 0, tokens.len() as int) < trim_threshold(window) || t.len() <= min_turns {
        None
    } else {
        Some(t.len() - min_turns)
    }
}

/// Where the kept messages begin once `r` turns are dropped.
pub open spec fn kept_from(roles: Seq<Seq<char>>, r: int) -> int {
    let t = turns_of(roles);
    if r < t.len() {
        t[r]
    } else {
        roles.len() as int
    }
}

/// Dropping turns one at a time, oldest first: it stops at the first
/// count after which the whole conversation (the system messages and the
/// remaining turns) uses less than the target, or when only `min_turns`
/// turns are left (`limit` drops).
pub open spec fn drop_count(roles: Seq<Seq<char>>, tokens: Seq<u32>, target: int, limit: int, r: int) -> int
    decreases limit - r,
{
    if r >= limit {
        limit
    } else if sum_range(tokens, 0, first_non_system(roles, 0)) + sum_range(tokens, kept_from(roles, r), tokens.len() as int) < target {
        r
    } else {
        drop_count(roles, tokens, target, limit, r + 1)
    }
}

/// Usage in percent of the window, at most 100 (0 for an empty window).
pub open spec fn usage_percent(tokens: int, window: u32) -> int {
    if window > 0 {
        if tokens * 100 / (window as int) > 100 {
            100
        } else {
            tokens * 100 / (window as int)
        }
    } else {
        0
    }
}

/// What dropping turns amounts to: where the kept turns begin, how many
/// turns went, how many tokens were freed (those of the whole conversation
/// before, less those of the new conversation: the tokens of the dropped
/// turns) and the usage after, in percent.
pub open spec fn drop_outcome(roles: Seq<Seq<char>>, tokens: Seq<u32>, window: u32, min_turns: u32) -> (int, int, int, int) {
    let t = turns_of(roles);
    let s = first_non_system(roles, 0);
    let limit = t.len() - min_turns;
    let r = drop_count(roles, tokens, trim_target(window), limit, 1);
    let k = kept_from(roles, r);
    let before = sum_range(tokens, 0, tokens.len() as int);
    let after = sum_range(tokens, 0, s) + sum_range(tokens, k, tokens.len() as int);
    (k, r, if before > after { before - after } else { 0 }, usage_percent(after, window))
}

pub proof fn lemma_sum_range_split(t: Seq<u32>, a: int, m: int, b: int)
    requires
        a <= m <= b,
    ensures
        sum_range(t, a, b) == sum_range(t, a, m) + sum_range(t, m, b),
    decreases b - m,
{
    if m < b {
        lemma_sum_range_split(t, a, m, b - 1);
    }
}

pub proof fn lemma_sum_range_nonneg(t: Seq<u32>, a: int, b: int)
    ensures
        sum_range(t, a, b) >= 0,
    decreases b - a,
{
    if a < b {
        lemma_sum_range_nonneg(t, a, b - 1);
    }
}

proof fn lemma_sum_range_mono(t: Seq<u32>, a: int, b: int, c: int)
    requires
        a <= b <= c,
    ensures
        sum_range(t, b, c) <= sum_range(t, a, c),
        sum_range(t, a, b) <= sum_range(t, a, c),
{
    lemma_sum_range_split(t, a, b, c);
    lemma_sum_range_nonneg(t, a, b);
    lemma_sum_range_nonneg(t, b, c);
}

proof fn lemma_first_non_system_range(roles: Seq<Seq<char>>, i: int)
    ensures
        0 <= first_non_system(roles, i) <= roles.len(),
    decreases roles.len() - i,
{
    if i >= 0 && i < roles.len() && roles[i] == "system"@ {
        lemma_first_non_system_range(roles, i + 1);
    }
}

proof fn lemma_turn_starts_sorted(roles: Seq<Seq<char>>, s: int, n: int)
    ensures
        forall|i: int| 0 <= i < turn_starts(roles, s, n).len() ==> s <= #[trigger] turn_starts(roles, s, n)[i] < n,
        forall|i: int, j: int|
            0 <= i < j < turn_starts(roles, s, n).len() ==> turn_starts(roles, s, n)[i] < turn_starts(roles, s, n)[j],
    decreases n - s,
{
    if n > s {
        lemma_turn_starts_sorted(roles, s, n - 1);
        let prev = turn_starts(roles, s, n - 1);
        let cur = turn_starts(roles, s, n);
        if n - 1 == s || roles[n - 1] == "user"@ {
            assert(cur == prev.push(n - 1));
            assert forall|i: int| 0 <= i < cur.len() implies s <= #[trigger] cur[i] < n by {
                if i < prev.len() {
                    assert(cur[i] == prev[i]);
                }
            }
            assert forall|i: int, j: int| 0 <= i < j < cur.len() implies cur[i] < cur[j] by {
                assert(cur[i] == prev[i]);
                if j < prev.len() {
                    assert(cur[j] == prev[j]);
                }
            }
        } else {
            assert(cur == prev);
        }
    }
}

proof fn lemma_drop_count_range(roles: Seq<Seq<char>>, tokens: Seq<u32>, target: int, limit: int, r: int)
    requires
        r <= limit,
    ensures
        r <= drop_count(roles, tokens, target, limit, r) <= limit,
    decreases limit - r,
{
    if r < limit && sum_range(tokens, 0, first_non_system(roles, 0)) + sum_range(tokens, kept_from(roles, r), tokens.len() as int) >= target {
        lemma_drop_count_range(roles, tokens, target, limit, r + 1);
    }
}

proof fn lemma_kept_from_mono(roles: Seq<Seq<char>>, a: int, b: int)
    requires
        0 <= a <= b,
    ensures
        first_non_system(roles, 0) <= kept_from(roles, a) <= kept_from(roles, b) <= roles.len(),
{
    let t = turns_of(roles);
    let s = first_non_system(roles, 0);
    lemma_first_non_system_range(roles, 0);
    lemma_turn_starts_sorted(roles, s, roles.len() as int);
    if b < t.len() {
        if a < b {
            assert(t[a] < t[b]);
        }
    }
}

proof fn lemma_turn_starts_roles(roles: Seq<Seq<char>>, s: int, n: int)
    requires
        0 <= s,
        n <= roles.len(),
    ensures
        s < n ==> turn_starts(roles, s, n).len() > 0 && turn_starts(roles, s, n)[0] == s,
        forall|k: int| 0 < k < turn_starts(roles, s, n).len() ==> roles[#[trigger] turn_starts(roles, s, n)[k]] == "user"@,
        forall|j: int| s < j < n && roles[j] == "user"@ ==> turn_starts(roles, s, n).contains(j),
    decreases n - s,
{
    if n > s {
        lemma_turn_starts_roles(roles, s, n - 1);
        lemma_turn_starts_sorted(roles, s, n - 1);
        let prev = turn_starts(roles, s, n - 1);
        let cur = turn_starts(roles, s, n);
        if n - 1 == s || roles[n - 1] == "user"@ {
            assert(cur == prev.push(n - 1));
            if n - 1 == s {
                assert(prev.len() == 0);
            }
            assert forall|k: int| 0 < k < cur.len() implies roles[#[trigger] cur[k]] == "user"@ by {
                if k < prev.len() {
                    assert(cur[k] == prev[k]);
                }
            }
            assert forall|j: int| s < j < n && roles[j] == "user"@ implies cur.contains(j) by {
                if j < n - 1 {
                    let i = choose|i: int| 0 <= i < prev.len() && prev[i] == j;
                    assert(cur[i] == j);
                } else {
                    assert(cur[cur.len() - 1] == j);
                }
            }
            if s < n - 1 {
                assert(cur[0] == prev[0]);
            }
        }
    }
}

/// Turns are whole: the first begins at the first message after the
/// system messages, every later one begins at a user message, and every
/// user message after that first message begins a turn; assistant and tool
/// messages stay in the turn of the user message before them.
pub proof fn law_turns_begin_at_user_messages(roles: Seq<Seq<char>>)
    ensures
        ({
            let t = turns_of(roles);
            let s = first_non_system(roles, 0);
            &&& s < roles.len() ==> t.len() > 0 && t[0] == s
            &&& forall|k: int| 0 < k < t.len() ==> roles[#[trigger] t[k]] == "user"@
            &&& forall|j: int| s < j < roles.len() && roles[j] == "user"@ ==> t.contains(j)
            &&& forall|a: int, b: int| 0 <= a < b < t.len() ==> t[a] < t[b]
        }),
{
    lemma_first_non_system_range(roles, 0);
    let s = first_non_system(roles, 0);
    lemma_turn_starts_roles(roles, s, roles.len() as int);
    lemma_turn_starts_sorted(roles, s, roles.len() as int);
}

/// Dropping turns never touches the leading system messages nor the last
/// `min_turns` turns: when trimming happens, at least one turn and at most
/// all but the last `min_turns` go, the kept messages start at or before
/// the first protected turn, after the system messages, and the tokens
/// freed are those of the dropped turns.
pub proof fn law_trim_keeps_recent_turns(roles: Seq<Seq<char>>, tokens: Seq<u32>, window: u32, min_turns: u32)
    requires
        tokens.len() == roles.len(),
        droppable(roles, tokens, window, min_turns) is Some,
    ensures
        ({
            let limit = turns_of(roles).len() - min_turns;
            let o = drop_outcome(roles, tokens, window, min_turns);
            &&& droppable(roles, tokens, window, min_turns) == Some(limit)
            &&& 1 <= o.1 <= limit
            &&& o.0 == kept_from(roles, o.1)
            &&& first_non_system(roles, 0) <= o.0 <= kept_from(roles, limit) <= roles.len()
            &&& o.2 == sum_range(tokens, first_non_system(roles, 0), o.0)
        }),
{
    let limit = turns_of(roles).len() - min_turns;
    lemma_drop_count_range(roles, tokens, trim_target(window), limit, 1);
    let r = drop_count(roles, tokens, trim_target(window), limit, 1);
    lemma_kept_from_mono(roles, r, limit);
    let s = first_non_system(roles, 0);
    let k = kept_from(roles, r);
    let n = tokens.len() as int;
    lemma_first_non_system_range(roles, 0);
    lemma_sum_range_split(tokens, 0, s, n);
    lemma_sum_range_split(tokens, s, k, n);
    lemma_sum_range_nonneg(tokens, s, k);
}

/// Trimming leaves a conversation alone while it uses less than 80% of the
/// window, or while it has no more turns than are protected.
pub proof fn law_no_trim_below_threshold(roles: Seq<Seq<char>>, tokens: Seq<u32>, window: u32, min_turns: u32)
    requires
        sum_range(tokens, 0, tokens.len() as int) < trim_threshold(window) || turns_of(roles).len() <= min_turns,
    ensures
        droppable(roles, tokens, window, min_turns) is None,
{
}

pub open spec fn role_views(roles: Seq<String>) -> Seq<Seq<char>> {
    str_views(roles)
}

/// How the conversation divides: system messages end at `system_end`;
/// the turns begin at `starts`.
pub struct TurnLayout {
    pub system_end: usize,
    pub starts: Vec<usize>,
}

/// Divides a conversation (its messages' roles) into turns.
pub fn layout_turns(roles: &Vec<String>) -> (r: TurnLayout)
    ensures
        r.system_end == first_non_system(str_views(roles@), 0),
        r.starts@.map_values(|i: usize| i as int) == turns_of(str_views(roles@)),
        forall|k: int| 0 <= k < r.starts@.len() ==> r.starts@[k] < roles@.len(),
        forall|a: int, b: int| 0 <= a < b < r.starts@.len() ==> r.starts@[a] < r.starts@[b],
        r.starts@.len() > 0 ==> r.starts@[0] == r.system_end,
        r.system_end <= roles@.len(),
{
    let ghost rv = str_views(roles@);
    let mut s: usize = 0;
    while s < roles.len() && eq_lit(&chars_of(roles[s].as_str()), "system")
        invariant
            s <= roles@.len(),
            rv == str_views(roles@),
            first_non_system(rv, 0) == first_non_system(rv, s as int) || (forall|j: int| 0 <= j < s ==> rv[j] == "system"@),
            forall|j: int| 0 <= j < s ==> rv[j] == "system"@,
        decreases roles@.len() - s,
    {
        s = s + 1;
    }
    proof {
        assert forall|j: int| 0 <= j <= s implies first_non_system(rv, j) == first_non_system(rv, s as int) by {
            lemma_fns_skip(rv, j, s as int);
        }
    }
    let system_end = if s == roles.len() {
        0
    } else {
        s
    };
    let mut starts: Vec<usize> = Vec::new();
    let mut i: usize = system_end;
    while i < roles.len()
        invariant
            system_end <= i <= roles@.len(),
            rv == str_views(roles@),
            starts@.map_values(|x: usize| x as int) == turn_starts(rv, system_end as int, i as int),
            forall|k: int| 0 <= k < starts@.len() ==> system_end <= #[trigger] starts@[k] < i,
            forall|a: int, b: int| 0 <= a < b < starts@.len() ==> starts@[a] < starts@[b],
            starts@.len() > 0 ==> starts@[0] == system_end,
            i == system_end ==> starts@.len() == 0,
            i > system_end ==> starts@.len() > 0,
        decreases roles@.len() - i,
    {
        if i == system_end || eq_lit(&chars_of(roles[i].as_str()), "user") {
            let ghost before = starts@;
            starts.push(i);
            assert(starts@.map_values(|x: usize| x as int) =~= before.map_values(|x: usize| x as int).push(i as int));
        }
        i = i + 1;
    }
    TurnLayout { system_end, starts }
}

proof fn lemma_fns_skip(rv: Seq<Seq<char>>, j: int, s: int)
    requires
        0 <= j <= s <= rv.len(),
        forall|q: int| 0 <= q < s ==> rv[q] == "system"@,
    ensures
        first_non_system(rv, j) == first_non_system(rv, s),
    decreases s - j,
{
    if j < s {
        lemma_fns_skip(rv, j + 1, s);
    }
}

proof fn lemma_increasing_len(s: Seq<usize>, n: int)
    requires
        n >= 0,
        forall|k: int| 0 <= k < s.len() ==> s[k] < n,
        forall|a: int, b: int| 0 <= a < b < s.len() ==> s[a] < s[b],
    ensures
        s.len() <= n,
    decreases s.len(),
{
    if s.len() > 0 {
        let p = s.drop_last();
        assert forall|k: int| 0 <= k < p.len() implies p[k] < s[s.len() - 1] by {
            assert(p[k] == s[k]);
        }
        assert forall|a: int, b: int| 0 <= a < b < p.len() implies p[a] < p[b] by {
            assert(p[a] == s[a] && p[b] == s[b]);
        }
        lemma_increasing_len(p, s[s.len() - 1] as int);
        assert(s[s.len() - 1] < n);
    }
}

fn sum_tokens(tokens: &Vec<u32>, a: usize, b: usize) -> (r: u64)
    requires
        a <= b <= tokens@.len(),
        tokens@.len() <= u32::MAX,
    ensures
        r == sum_range(tokens@, a as int, b as int),
{
    let mut acc: u64 = 0;
    let mut i: usize = a;
    while i < b
        invariant
            a <= i <= b <= tokens@.len(),
            tokens@.len() <= u32::MAX,
            acc == sum_range(tokens@, a as int, i as int),
            acc <= (i - a) * (u32::MAX as int),
        decreases b - i,
    {
        assert((i - a) * (u32::MAX as int) + (u32::MAX as int) == (i + 1 - a) * (u32::MAX as int)) by (nonlinear_arith);
        assert((i + 1 - a) * (u32::MAX as int) <= (u32::MAX as int) * (u32::MAX as int)) by (nonlinear_arith)
            requires
                i + 1 - a <= u32::MAX,
        ;
        acc = acc + tokens[i] as u64;
        i = i + 1;
    }
    acc
}

/// Decides whether to trim: `None`, or how many turns may be dropped.
/// `tokens` holds the estimated size of each message.
pub fn decide_trim(roles: &Vec<String>, tokens: &Vec<u32>, window: u32, min_turns: u32) -> (r: Option<usize>)
    requires
        tokens@.len() == roles@.len(),
        tokens@.len() <= u32::MAX,
    ensures
        match r {
            Some(n) => droppable(str_views(roles@), tokens@, window, min_turns) == Some(n as int),
            None => droppable(str_views(roles@), tokens@, window, min_turns) is None,
        },
{
    let total = sum_tokens(tokens, 0, tokens.len());
    let threshold = sat_mul_u32(window, 80) / 100;
    if total < threshold as u64 {
        return None;
    }
    let layout = layout_turns(roles);
    assert(layout.starts@.len() == turns_of(str_views(roles@)).len());
    if layout.starts.len() <= min_turns as usize {
        return None;
    }
    Some(layout.starts.len() - min_turns as usize)
}

/// The result of dropping turns.
#[derive(Debug)]
pub struct DropOutcome {
    /// The kept messages are the system messages and those from here on.
    pub keep_from: usize,
    pub removed: u32,
    pub tokens_freed: u32,
    pub usage_percent: u32,
}

/// Drops the oldest turns (see `drop_outcome`); only called when
/// `decide_trim` allows it.
pub fn plan_drop(roles: &Vec<String>, tokens: &Vec<u32>, window: u32, min_turns: u32) -> (r: DropOutcome)
    requires
        tokens@.len() == roles@.len(),
        tokens@.len() <= u32::MAX,
        sum_range(tokens@, 0, tokens@.len() as int) <= u32::MAX,
        droppable(str_views(roles@), tokens@, window, min_turns) is Some,
    ensures
        drop_outcome(str_views(roles@), tokens@, window, min_turns) == (
            r.keep_from as int,
            r.removed as int,
            r.tokens_freed as int,
            r.usage_percent as int,
        ),
{
    let ghost rv = str_views(roles@);
    let layout = layout_turns(roles);
    let ghost t = turns_of(rv);
    assert(layout.starts@.len() == t.len());
    let n = tokens.len();
    let total_turns = layout.starts.len();
    proof {
        lemma_increasing_len(layout.starts@, n as int);
    }
    let limit = total_turns - min_turns as usize;
    let target: u64 = (sat_mul_u32(window, 60) / 100) as u64;
    proof {
        lemma_sum_range_nonneg(tokens@, 0, n as int);
        lemma_first_non_system_range(rv, 0);
        lemma_sum_range_mono(tokens@, 0, layout.system_end as int, n as int);
    }
    let sys = sum_tokens(tokens, 0, layout.system_end);
    // drop turns one by one
    let mut r: usize = 1;
    loop
        invariant
            1 <= r <= limit,
            limit == t.len() - min_turns,
            limit <= total_turns,
            total_turns == layout.starts@.len(),
            n == tokens@.len(),
            tokens@.len() <= u32::MAX,
            layout.starts@.map_values(|i: usize| i as int) == t,
            t == turns_of(rv),
            n == rv.len(),
            forall|k: int| 0 <= k < layout.starts@.len() ==> layout.starts@[k] < n,
            target == trim_target(window),
            sys == sum_range(tokens@, 0, first_non_system(rv, 0)),
            sys <= u32::MAX,
            sum_range(tokens@, 0, n as int) <= u32::MAX,
            drop_count(rv, tokens@, target as int, limit as int, 1) == drop_count(rv, tokens@, target as int, limit as int, r as int),
        ensures
            1 <= r <= limit,
            drop_count(rv, tokens@, target as int, limit as int, 1) == r,
        decreases limit - r,
    {
        if r >= limit {
            break;
        }
        let k = if r < total_turns {
            layout.starts[r]
        } else {
            n
        };
        assert(k as int == kept_from(rv, r as int)) by {
            if r < total_turns {
                assert(layout.starts@.map_values(|i: usize| i as int)[r as int] == layout.starts@[r as int] as int);
            }
        }
        let cur = sum_tokens(tokens, k, n);
        proof {
            lemma_sum_range_mono(tokens@, 0, k as int, n as int);
        }
        if sys + cur < target {
            break;
        }
        r = r + 1;
    }
    assert(layout.starts@.map_values(|i: usize| i as int) == t);
    assert(total_turns == t.len());
    assert(n == rv.len());
    assert(t == turns_of(rv));
    let k = if r < total_turns {
        layout.starts[r]
    } else {
        n
    };
    assert(k as int == kept_from(rv, r as int)) by {
        if r < total_turns {
            assert(layout.starts@.map_values(|i: usize| i as int)[r as int] == layout.starts@[r as int] as int);
        }
    }
    let s = layout.system_end;
    proof {
        if t.len() > 0 {
            assert(layout.starts@.map_values(|i: usize| i as int)[0] == layout.starts@[0] as int);
        }
        if r < total_turns {
            assert(s <= k);
        }
        lemma_sum_range_mono(tokens@, 0, s as int, n as int);
        lemma_sum_range_mono(tokens@, s as int, k as int, n as int);
        lemma_sum_range_mono(tokens@, 0, k as int, n as int);
        lemma_sum_range_split(tokens@, 0, s as int, n as int);
    }
    let before = sum_tokens(tokens, 0, n);
    let after = sum_tokens(tokens, 0, s) + sum_tokens(tokens, k, n);
    let freed: u64 = if before > after {
        before - after
    } else {
        0
    };
    let percent: u64 = if window > 0 {
        let p = after * 100 / (window as u64);
        if p > 100 {
            100
        } else {
            p
        }
    } else {
        0
    };
    DropOutcome { keep_from: k, removed: r as u32, tokens_freed: freed as u32, usage_percent: percent as u32 }
}

/// What a summary amounts to when the summarized conversation uses
/// `current` tokens: a report (turns summarized, tokens freed, usage in
/// percent) only when it is under the target.
pub fn summary_outcome(estimated: u32, current: u32, window: u32, summarized: u32) -> (r: Option<(u32, u32, u32)>)
    ensures
        current < trim_target(window) ==> r == Some((
            summarized,
            (if estimated > current { (estimated - current) as u32 } else { 0u32 }),
            usage_percent(current as int, window) as u32,
        )),
        current >= trim_target(window) ==> r is None,
{
    let target = sat_mul_u32(window, 60) / 100;
    if current < target {
        let percent: u64 = if window > 0 {
            let p = (current as u64) * 100 / (window as u64);
            if p > 100 {
                100
            } else {
                p
            }
        } else {
            0
        };
        Some((summarized, estimated.saturating_sub(current), percent as u32))
    } else {
        None
    }
}

// ─── Summaries of dropped turns ────────────────────────────────────────

/// One message offered for a summary: its role and its text (when it has
/// content).
pub struct SummaryItem {
    pub role: String,
    pub text: Option<String>,
}

/// A message's text as quoted in the transcript: when it is longer than
/// 500 bytes, its longest prefix of at most 500 bytes (cut at a character
/// boundary) with "...".
pub open spec fn excerpt(text: Seq<char>) -> Seq<char> {
    if crate::extract::utf8_len(text) > 500 {
        text.take(crate::extract::fit_count(text, 500) as int) + "..."@
    } else {
        text
    }
}

/// The transcript lines: "用户: <excerpt>" for user messages and
/// "助手: <excerpt>" for assistant messages with content, each followed
/// by "\n"; other messages are left out.
pub open spec fn transcript(items: Seq<(Seq<char>, Option<Seq<char>>)>) -> Seq<char>
    decreases items.len(),
{
    if items.len() == 0 {
        seq![]
    } else {
        let prev = transcript(items.drop_last());
        let (role, text) = items.last();
        let label = if role == "user"@ {
            Some("用户"@)
        } else if role == "assistant"@ {
            Some("助手"@)
        } else {
            None
        };
        match (label, text) {
            (Some(l), Some(t)) => prev + l + ": "@ + excerpt(t) + "\n"@,
            _ => prev,
        }
    }
}

pub open spec fn item_views(items: Seq<SummaryItem>) -> Seq<(Seq<char>, Option<Seq<char>>)> {
    items.map_values(|m: SummaryItem| (m.role@, match m.text {
        Some(t) => Some(t@),
        None => None,
    }))
}

/// The request for a summary: nothing when the transcript is blank;
/// otherwise a request to condense it, or to merge it with the summary
/// kept so far.
pub open spec fn summary_request(items: Seq<(Seq<char>, Option<Seq<char>>)>, old_summary: Seq<char>) -> Option<Seq<char>> {
    let tr = transcript(items);
    if trim(tr).len() == 0 {
        None
    } else if old_summary.len() == 0 {
        Some(
            "请用中文将以下对话片段压缩为一段简洁的摘要（最多 200 字），保留关键决策、代码变更内容和用户的核心意图：\n\n"@
                + tr + "\n\n摘要："@,
        )
    } else {
        Some(
            "已有的历史摘要：\n"@ + old_summary + "\n\n请将以下新对话与已有摘要合并为一段摘要（最多 300 字）：\n\n"@
                + tr + "\n\n合并后的摘要："@,
        )
    }
}

/// The instruction given to the model that writes summaries.
pub const SUMMARIZER_PROMPT: &'static str = "你是一个对话摘要助手。输出纯文本摘要，不含前缀、标签或格式标记。";

/// Builds the summary request for the messages of the dropped turns.
pub fn build_summary_request(items: &Vec<SummaryItem>, old_summary: &str) -> (r: Option<String>)
    ensures
        match r {
            Some(s) => summary_request(item_views(items@), old_summary@) == Some(s@),
            None => summary_request(item_views(items@), old_summary@) is None,
        },
{
    let ghost iv = item_views(items@);
    let mut tr: Vec<char> = Vec::new();
    let mut i: usize = 0;
    while i < items.len()
        invariant
            i <= items@.len(),
            iv == item_views(items@),
            tr@ == transcript(iv.take(i as int)),
        decreases items@.len() - i,
    {
        assert(iv.take(i + 1).drop_last() =~= iv.take(i as int));
        let item = &items[i];
        let rc = chars_of(item.role.as_str());
        let label: Option<&str> = if eq_lit(&rc, "user") {
            Some("用户")
        } else if eq_lit(&rc, "assistant") {
            Some("助手")
        } else {
            None
        };
        match (label, &item.text) {
            (Some(l), Some(text)) => {
                let tc = chars_of(text.as_str());
                push_str(&mut tr, l);
                push_str(&mut tr, ": ");
                let (k, _) = crate::extract::fit_prefix(&tc, 500);
                if k < tc.len() {
                    proof {
                        crate::extract::lemma_fit_count_bound(tc@, 500);
                    }
                    let cut = slice_of(&tc, 0, k);
                    push_all(&mut tr, &cut);
                    push_str(&mut tr, "...");
                } else {
                    push_all(&mut tr, &tc);
                }
                push_str(&mut tr, "\n");
            },
            _ => {},
        }
        i = i + 1;
    }
    assert(iv.take(i as int) =~= iv);
    let t = trim_chars(&tr);
    if t.len() == 0 {
        return None;
    }
    let old = chars_of(old_summary);
    let mut v: Vec<char> = Vec::new();
    if old.len() == 0 {
        push_str(&mut v, "请用中文将以下对话片段压缩为一段简洁的摘要（最多 200 字），保留关键决策、代码变更内容和用户的核心意图：\n\n");
        push_all(&mut v, &tr);
        push_str(&mut v, "\n\n摘要：");
    } else {
        push_str(&mut v, "已有的历史摘要：\n");
        push_all(&mut v, &old);
        push_str(&mut v, "\n\n请将以下新对话与已有摘要合并为一段摘要（最多 300 字）：\n\n");
        push_all(&mut v, &tr);
        push_str(&mut v, "\n\n合并后的摘要：");
    }
    Some(string_of(&v))
}

/// What the model's reply gives: the trimmed text, unless it is empty.
pub fn finish_summary(reply: &str) -> (r: Option<String>)
    ensures
        trim(reply@).len() == 0 ==> r is None,
        trim(reply@).len() > 0 ==> (r matches Some(s) && s@ == trim(reply@)),
{
    let c = chars_of(reply);
    let t = trim_chars(&c);
    if t.len() == 0 {
        None
    } else {
        Some(string_of(&t))
    }
}

/// The message that stands for the dropped turns.
pub fn summary_message(summary: &str) -> (r: String)
    ensures
        r@ == "[历史对话摘要]\n"@ + summary@,
{
    let mut v: Vec<char> = Vec::new();
    push_str(&mut v, "[历史对话摘要]\n");
    push_str(&mut v, summary);
    string_of(&v)
}

// ─── Rounds and tool calls ─────────────────────────────────────────────

/// At most this many rounds of tool calls answer one user message.
pub const MAX_TOOL_ROUNDS: usize = 30;

/// How many of the latest turns trimming keeps by default.
pub const DEFAULT_MIN_USER_TURNS: u32 = 3;

/// The settings of an agent loop.
#[derive(Debug)]
pub struct AgentSettings {
    pub context_window: u32,
    pub min_user_turns: u32,
    pub summarization: bool,
}

impl AgentSettings {
    /// The defaults for a model: its context window, 3 protected turns,
    /// summaries on.
    pub fn new(model: &str) -> (r: AgentSettings)
        ensures
            r.context_window == 128_000,
            r.min_user_turns == 3,
            r.summarization,
    {
        AgentSettings {
            context_window: crate::tokens::default_context_window(model),
            min_user_turns: DEFAULT_MIN_USER_TURNS,
            summarization: true,
        }
    }

    /// Sets the number of protected turns (at least 1).
    pub fn set_min_user_turns(&mut self, n: u32)
        ensures
            final(self).min_user_turns == if n > 1 { n } else { 1 },
            final(self).context_window == old(self).context_window,
            final(self).summarization == old(self).summarization,
    {
        self.min_user_turns = if n > 1 {
            n
        } else {
            1
        };
    }

    /// Sets the context window.
    pub fn set_context_window(&mut self, window: u32)
        ensures
            final(self).context_window == window,
            final(self).min_user_turns == old(self).min_user_turns,
            final(self).summarization == old(self).summarization,
    {
        self.context_window = window;
    }
}

/// Whether a tool needs approval: some registered tool of that name is
/// dangerous.
pub open spec fn needs_approval(tools: Seq<(Seq<char>, bool)>, name: Seq<char>) -> bool {
    exists|i: int| 0 <= i < tools.len() && tools[i].0 == name && tools[i].1
}

/// Looks up whether the tool `name` needs approval, among the registered
/// tools given as (name, dangerous).
pub fn tool_needs_approval(tools: &Vec<(String, bool)>, name: &String) -> (r: bool)
    ensures
        r == needs_approval(tools@.map_values(|t: (String, bool)| (t.0@, t.1)), name@),
{
    let ghost tv = tools@.map_values(|t: (String, bool)| (t.0@, t.1));
    let mut i: usize = 0;
    while i < tools.len()
        invariant
            i <= tools@.len(),
            tv == tools@.map_values(|t: (String, bool)| (t.0@, t.1)),
            forall|j: int| 0 <= j < i ==> !(tv[j].0 == name@ && tv[j].1),
        decreases tools@.len() - i,
    {
        if tools[i].1 && tools[i].0 == *name {
            assert(tv[i as int].0 == name@ && tv[i as int].1);
            return true;
        }
        i = i + 1;
    }
    false
}

/// What the user's refusal records for a tool call.
pub fn denied_message(tool: &str) -> (r: String)
    ensures
        r@ == "Tool execution denied by user: "@ + tool@,
{
    let mut v: Vec<char> = Vec::new();
    push_str(&mut v, "Tool execution denied by user: ");
    push_str(&mut v, tool);
    string_of(&v)
}

/// What arguments that are not JSON record for a tool call.
pub fn bad_arguments_message(error: &str) -> (r: String)
    ensures
        r@ == "Failed to parse tool arguments: "@ + error@,
{
    let mut v: Vec<char> = Vec::new();
    push_str(&mut v, "Failed to parse tool arguments: ");
    push_str(&mut v, error);
    string_of(&v)
}

/// The result of calling a tool that is not registered.
pub fn unknown_tool(tool: &str) -> (r: ToolResult)
    ensures
        r@ == crate::tool::err_v("Unknown tool: "@ + tool@),
{
    crate::tool::failure("Unknown tool: ", tool)
}

/// What the front end is shown of a tool's result: its content, or
/// "Error: " and its error ("unknown error" when there is none).
pub open spec fn shown_result(r: ResultV) -> Seq<char> {
    if r.success {
        r.content
    } else {
        "Error: "@ + match r.error {
            Some(e) => e,
            None => "unknown error"@,
        }
    }
}

/// The text shown for a tool's result.
pub fn result_text(result: &ToolResult) -> (r: String)
    ensures
        r@ == shown_result(result@),
{
    if result.success {
        result.content.clone()
    } else {
        let mut v: Vec<char> = Vec::new();
        push_str(&mut v, "Error: ");
        match &result.error {
            Some(e) => push_str(&mut v, e.as_str()),
            None => push_str(&mut v, "unknown error"),
        }
        string_of(&v)
    }
}

/// A round ends the run when the model called no tool or reported an
/// error.
pub fn round_ends_run(tool_calls: usize, had_error: bool) -> (r: bool)
    ensures
        r == (tool_calls == 0 || had_error),
{
    tool_calls == 0 || had_error
}

/// Adds a round's usage to the total.
pub fn add_usage(total: Usage, round: Usage) -> (r: Usage)
    requires
        total.prompt_tokens + round.prompt_tokens <= u32::MAX,
        total.completion_tokens + round.completion_tokens <= u32::MAX,
        total.total_tokens + round.total_tokens <= u32::MAX,
    ensures
        r.prompt_tokens == total.prompt_tokens + round.prompt_tokens,
        r.completion_tokens == total.completion_tokens + round.completion_tokens,
        r.total_tokens == total.total_tokens + round.total_tokens,
{
    Usage {
        prompt_tokens: total.prompt_tokens + round.prompt_tokens,
        completion_tokens: total.completion_tokens + round.completion_tokens,
        total_tokens: total.total_tokens + round.total_tokens,
    }
}

/// The usage report: before a request ("before") or after it ("after",
/// with the tokens reported so far); the room left is the window less the
/// larger of the estimate and the tokens reported so far, never below 0.
pub fn usage_event(after: bool, estimated: u32, actual_total: u32, window: u32) -> (r: StreamEvent)
    ensures
        r matches StreamEvent::TokenUsage { phase, estimated: e, actual, context_window, context_remaining }
            && phase@ == (if after { "after"@ } else { "before"@ })
            && e == estimated
            && actual == (if after { Some(actual_total) } else { None })
            && context_window == window
            && context_remaining == (if window > (if actual_total > estimated { actual_total } else { estimated }) {
                window - (if actual_total > estimated { actual_total } else { estimated })
            } else {
                0
            }),
{
    let used = if actual_total > estimated {
        actual_total
    } else {
        estimated
    };
    let remaining = if window > used {
        window - used
    } else {
        0
    };
    StreamEvent::TokenUsage {
        phase: String::from_str(if after { "after" } else { "before" }),
        estimated,
        actual: if after { Some(actual_total) } else { None },
        context_window: window,
        context_remaining: remaining,
    }
}

/// What one round of a run gathers from the backend's events.
pub struct RoundState {
    /// The tool calls, as (id, name, arguments), in the order they came.
    pub tool_calls: Vec<(String, String, String)>,
    /// The usage of the request (its `Done` event).
    pub usage: Usage,
    pub had_error: bool,
}

pub open spec fn call_triples(s: Seq<(String, String, String)>) -> Seq<(Seq<char>, Seq<char>, Seq<char>)> {
    s.map_values(|c: (String, String, String)| (c.0@, c.1@, c.2@))
}

impl RoundState {
    pub fn new() -> (r: RoundState)
        ensures
            r.tool_calls@.len() == 0,
            r.usage.prompt_tokens == 0 && r.usage.completion_tokens == 0 && r.usage.total_tokens == 0,
            !r.had_error,
    {
        RoundState {
            tool_calls: Vec::new(),
            usage: Usage { prompt_tokens: 0, completion_tokens: 0, total_tokens: 0 },
            had_error: false,
        }
    }

    /// Takes in one event of the backend; the result says whether it goes
    /// on to the caller: all do but `Done`, whose usage is kept. Tool calls
    /// are collected and an error is remembered.
    pub fn observe(&mut self, ev: &StreamEvent) -> (forward: bool)
        ensures
            forward == !(*ev is Done),
            match *ev {
                StreamEvent::ToolCall { id, name, arguments } => call_triples(final(self).tool_calls@)
                    == call_triples(old(self).tool_calls@).push((id@, name@, arguments@)),
                _ => final(self).tool_calls == old(self).tool_calls,
            },
            final(self).usage == (match *ev {
                StreamEvent::Done { usage } => usage,
                _ => old(self).usage,
            }),
            final(self).had_error == (old(self).had_error || *ev is Error),
    {
        match ev {
            StreamEvent::ToolCall { id, name, arguments } => {
                let ghost before = self.tool_calls@;
                self.tool_calls.push((id.clone(), name.clone(), arguments.clone()));
                assert(call_triples(self.tool_calls@) =~= call_triples(before).push((id@, name@, arguments@)));
                true
            },
            StreamEvent::Done { usage } => {
                self.usage = *usage;
                false
            },
            StreamEvent::Error { .. } => {
                self.had_error = true;
                true
            },
            _ => true,
        }
    }
}

/// The error shown when a message needs more than `MAX_TOOL_ROUNDS` rounds.
pub fn max_rounds_message() -> (r: String)
    ensures
        r@ == "已达到最大工具调用轮数 (30)。任务可能过于复杂，建议拆分为多个步骤逐一完成。"@,
{
    String::from_str("已达到最大工具调用轮数 (30)。任务可能过于复杂，建议拆分为多个步骤逐一完成。")
}

// ─── Approval ──────────────────────────────────────────────────────────

/// Decides whether a dangerous tool may run (a terminal prompt, a dialog,
/// a script callback, ...).
pub trait ApprovalHandler {
    /// Whether the call of `tool` with `params` is approved.
    fn approve(&self, tool: &str, params: &str) -> bool;
}

/// Refuses every call (used when no handler is configured).
pub struct DenyAllHandler;

impl ApprovalHandler for DenyAllHandler {
    fn approve(&self, tool: &str, params: &str) -> (r: bool)
        ensures
            !r,
    {
        false
    }
}

// ─── Conversation titles ───────────────────────────────────────────────

/// The instruction given to the model that writes titles.
pub const TITLE_SYSTEM_PROMPT: &'static str = "You are a title generator. Generate a concise, descriptive title (max 30 characters) for the conversation. Return ONLY the title — no quotes, no explanations, no prefixes.";

/// A message's content in a title prompt: when it is longer than 300
/// bytes, its longest prefix of at most 300 bytes (cut at a character
/// boundary) with "...".
pub open spec fn title_excerpt(text: Seq<char>) -> Seq<char> {
    if crate::extract::utf8_len(text) > 300 {
        text.take(crate::extract::fit_count(text, 300) as int) + "..."@
    } else {
        text
    }
}

/// The conversation lines of a title prompt: "User: ..." and
/// "Assistant: ...", each followed by "\n".
pub open spec fn title_lines(msgs: Seq<(Seq<char>, Seq<char>)>) -> Seq<char>
    decreases msgs.len(),
{
    if msgs.len() == 0 {
        seq![]
    } else {
        let prev = title_lines(msgs.drop_last());
        let (role, content) = msgs.last();
        if role == "user"@ {
            prev + "User: "@ + title_excerpt(content) + "\n"@
        } else if role == "assistant"@ {
            prev + "Assistant: "@ + title_excerpt(content) + "\n"@
        } else {
            prev
        }
    }
}

/// The user messages among the messages.
pub open spec fn user_contents(msgs: Seq<(Seq<char>, Seq<char>)>) -> Seq<Seq<char>>
    decreases msgs.len(),
{
    if msgs.len() == 0 {
        seq![]
    } else {
        let prev = user_contents(msgs.drop_last());
        if msgs.last().0 == "user"@ {
            prev.push(msgs.last().1)
        } else {
            prev
        }
    }
}

/// The request for a title: an error without user messages; with one, a
/// title for its query; with more, a title for the whole conversation.
pub open spec fn title_request(msgs: Seq<(Seq<char>, Seq<char>)>) -> Result<Seq<char>, Seq<char>> {
    let users = user_contents(msgs);
    if users.len() == 0 {
        Err("No user messages found"@)
    } else if users.len() == 1 {
        Ok("Generate a short title (max 30 chars) for a conversation that starts with this query:\n\n"@
            + trim(users[0]) + "\n\nTitle:"@)
    } else {
        Ok("Generate a short title (max 30 chars) that captures the main topic of this conversation:\n\n"@
            + title_lines(msgs) + "\nTitle:"@)
    }
}

pub open spec fn msg_views(msgs: Seq<(String, String)>) -> Seq<(Seq<char>, Seq<char>)> {
    msgs.map_values(|m: (String, String)| (m.0@, m.1@))
}

/// Builds the title request from the conversation's (role, content)
/// pairs.
pub fn build_title_request(msgs: &Vec<(String, String)>) -> (r: Result<String, String>)
    ensures
        match r {
            Ok(s) => title_request(msg_views(msgs@)) == Ok::<Seq<char>, Seq<char>>(s@),
            Err(e) => title_request(msg_views(msgs@)) == Err::<Seq<char>, Seq<char>>(e@),
        },
{
    let ghost mv = msg_views(msgs@);
    let mut user_count: usize = 0;
    let mut first_user: usize = 0;
    let mut lines: Vec<char> = Vec::new();
    let mut i: usize = 0;
    while i < msgs.len()
        invariant
            i <= msgs@.len(),
            mv == msg_views(msgs@),
            user_count == user_contents(mv.take(i as int)).len(),
            user_count <= i,
            user_count > 0 ==> first_user < i && mv[first_user as int].1 == user_contents(mv.take(i as int))[0],
            lines@ == title_lines(mv.take(i as int)),
        decreases msgs@.len() - i,
    {
        assert(mv.take(i + 1).drop_last() =~= mv.take(i as int));
        assert(mv.take(i + 1).last() == mv[i as int]);
        assert(mv[i as int].0 == msgs@[i as int].0@);
        let rc = chars_of(msgs[i].0.as_str());
        let is_user = eq_lit(&rc, "user");
        let is_assistant = eq_lit(&rc, "assistant");
        if is_user || is_assistant {
            if is_user {
                push_str(&mut lines, "User: ");
            } else {
                push_str(&mut lines, "Assistant: ");
            }
            let cc = chars_of(msgs[i].1.as_str());
            let (k, _) = crate::extract::fit_prefix(&cc, 300);
            if k < cc.len() {
                proof {
                    crate::extract::lemma_fit_count_bound(cc@, 300);
                }
                let cut = slice_of(&cc, 0, k);
                push_all(&mut lines, &cut);
                push_str(&mut lines, "...");
            } else {
                push_all(&mut lines, &cc);
            }
            push_str(&mut lines, "\n");
        }
        let ghost uc = user_contents(mv.take(i as int));
        if is_user {
            assert(user_contents(mv.take(i + 1)) == uc.push(mv[i as int].1));
            if user_count == 0 {
                first_user = i;
            }
            user_count = user_count + 1;
        } else {
            assert(user_contents(mv.take(i + 1)) == uc);
        }
        i = i + 1;
    }
    assert(mv.take(i as int) =~= mv);
    if user_count == 0 {
        return Err(String::from_str("No user messages found"));
    }
    let mut v: Vec<char> = Vec::new();
    if user_count == 1 {
        let c = chars_of(msgs[first_user].1.as_str());
        let t = trim_chars(&c);
        push_str(&mut v, "Generate a short title (max 30 chars) for a conversation that starts with this query:\n\n");
        push_all(&mut v, &t);
        push_str(&mut v, "\n\nTitle:");
    } else {
        push_str(&mut v, "Generate a short title (max 30 chars) that captures the main topic of this conversation:\n\n");
        push_all(&mut v, &lines);
        push_str(&mut v, "\nTitle:");
    }
    Ok(string_of(&v))
}

} // verus!
