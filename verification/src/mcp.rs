//! MCP (Model Context Protocol) configuration and client decisions.
//!
//! Configuration comes from two files, a global one and a project one
//! (`xuflow.json`); entries of the project file replace global entries of
//! the same name, disabled entries are dropped, and a missing file is not an
//! error. The client side holds the connection state machine: what a tool
//! call does in each state, how a JSON-RPC reply becomes a result or an
//! error, and when reconnecting gives up.
use vstd::prelude::*;
use crate::text::{chars_of, find, find_chars, push_all, push_str, str_views, string_of};
use crate::num::{dec, dec_chars, dec_int, dec_i64_chars};
use crate::tool::{ToolResult, ResultV, ok_v, err_v};

verus! {

// ─── Configuration ─────────────────────────────────────────────────────

/// What is needed to start (and restart) one MCP server process.
#[derive(Debug)]
pub struct McpServerConfig {
    pub command: String,
    pub args: Vec<String>,
    pub env: Vec<(String, String)>,
}

/// One server entry of a configuration file.
#[derive(Debug)]
pub struct McpServerEntry {
    /// Executable path or command name ("npx", "node", "python", ...).
    pub command: String,
    pub args: Vec<String>,
    pub env: Vec<(String, String)>,
    /// A disabled server is left out.
    pub disabled: bool,
    /// Names of the server's tools that need no approval.
    pub safe_tools: Vec<String>,
}

/// A configuration file: its `mcpServers` entries, by server name.
#[derive(Debug)]
pub struct McpServersFile {
    pub mcp_servers: Vec<(String, McpServerEntry)>,
}

/// The merged runtime configuration, by server name.
#[derive(Debug)]
pub struct MergedMcpConfig {
    pub servers: Vec<(String, McpServerConfig)>,
    /// For each server, the tools that need no approval.
    pub safe_tools: Vec<(String, Vec<String>)>,
}

/// Mathematical view of a server configuration.
pub struct ServerV {
    pub command: Seq<char>,
    pub args: Seq<Seq<char>>,
    pub env: Seq<(Seq<char>, Seq<char>)>,
}

pub open spec fn pair_views(s: Seq<(String, String)>) -> Seq<(Seq<char>, Seq<char>)> {
    s.map_values(|p: (String, String)| (p.0@, p.1@))
}

impl View for McpServerConfig {
    type V = ServerV;

    open spec fn view(&self) -> ServerV {
        ServerV { command: self.command@, args: str_views(self.args@), env: pair_views(self.env@) }
    }
}

/// Mathematical view of a configuration entry.
pub struct EntryV {
    pub server: ServerV,
    pub disabled: bool,
    pub safe_tools: Seq<Seq<char>>,
}

impl View for McpServerEntry {
    type V = EntryV;

    open spec fn view(&self) -> EntryV {
        EntryV {
            server: ServerV {
                command: self.command@,
                args: str_views(self.args@),
                env: pair_views(self.env@),
            },
            disabled: self.disabled,
            safe_tools: str_views(self.safe_tools@),
        }
    }
}

pub open spec fn entry_views(s: Seq<(String, McpServerEntry)>) -> Seq<(Seq<char>, EntryV)> {
    s.map_values(|p: (String, McpServerEntry)| (p.0@, p.1@))
}

/// Mathematical view of the merged configuration: servers and safe tools,
/// each a list of (name, value) pairs.
pub struct MergedV {
    pub servers: Seq<(Seq<char>, ServerV)>,
    pub safe_tools: Seq<(Seq<char>, Seq<Seq<char>>)>,
}

impl View for MergedMcpConfig {
    type V = MergedV;

    open spec fn view(&self) -> MergedV {
        MergedV {
            servers: self.servers@.map_values(|p: (String, McpServerConfig)| (p.0@, p.1@)),
            safe_tools: self.safe_tools@.map_values(
                |p: (String, Vec<String>)| (p.0@, str_views(p.1@)),
            ),
        }
    }
}

/// The position of the first pair with key `k`.
pub open spec fn key_index<V>(s: Seq<(Seq<char>, V)>, k: Seq<char>) -> Option<int>
    decreases s.len(),
{
    if s.len() == 0 {
        None
    } else {
        match key_index(s.drop_last(), k) {
            Some(i) => Some(i),
            None => if s.last().0 == k {
                Some(s.len() - 1)
            } else {
                None
            },
        }
    }
}

/// Sets key `k` to `v`: in place where the key is present, else at the end.
pub open spec fn put<V>(s: Seq<(Seq<char>, V)>, k: Seq<char>, v: V) -> Seq<(Seq<char>, V)> {
    match key_index(s, k) {
        Some(i) => s.update(i, (k, v)),
        None => s.push((k, v)),
    }
}

/// The warning for a server that a later file replaces.
pub open spec fn override_warning(name: Seq<char>) -> Seq<char> {
    "MCP Server '"@ + name + "' 被项目级配置覆盖"@
}

/// Merging one file entry by entry: a disabled entry is skipped; otherwise
/// the server and its safe tools are set under its name, with a warning
/// when the name was already configured.
pub open spec fn merge_fold(m: MergedV, w: Seq<Seq<char>>, entries: Seq<(Seq<char>, EntryV)>) -> (
    MergedV,
    Seq<Seq<char>>,
)
    decreases entries.len(),
{
    if entries.len() == 0 {
        (m, w)
    } else {
        let prev = merge_fold(m, w, entries.drop_last());
        let name = entries.last().0;
        let e = entries.last().1;
        if e.disabled {
            prev
        } else {
            (
                MergedV {
                    servers: put(prev.0.servers, name, e.server),
                    safe_tools: put(prev.0.safe_tools, name, e.safe_tools),
                },
                if key_index(prev.0.servers, name) is Some {
                    prev.1.push(override_warning(name))
                } else {
                    prev.1
                },
            )
        }
    }
}

/// No name occurs twice.
pub open spec fn keys_unique<V>(s: Seq<(Seq<char>, V)>) -> bool {
    forall|i: int, j: int| 0 <= i < j < s.len() ==> s[i].0 != s[j].0
}

pub(crate) fn index_of_key<V>(s: &Vec<(String, V)>, k: &String) -> (r: Option<usize>)
    ensures
        match r {
            Some(i) => i < s@.len() && key_index(
                s@.map_values(|p: (String, V)| (p.0@, ())),
                k@,
            ) == Some(i as int),
            None => key_index(s@.map_values(|p: (String, V)| (p.0@, ())), k@) is None,
        },
{
    let ghost ks = s@.map_values(|p: (String, V)| (p.0@, ()));
    let mut i: usize = 0;
    while i < s.len()
        invariant
            i <= s@.len(),
            ks == s@.map_values(|p: (String, V)| (p.0@, ())),
            key_index(ks.take(i as int), k@) is None,
        decreases s@.len() - i,
    {
        assert(ks.take(i + 1).drop_last() =~= ks.take(i as int));
        if s[i].0 == *k {
            proof {
                lemma_key_index_prefix(ks, k@, i + 1);
            }
            return Some(i);
        }
        i = i + 1;
    }
    assert(ks.take(i as int) =~= ks);
    None
}

/// `key_index` depends only on the keys.
pub proof fn lemma_key_index_keys<V, W>(a: Seq<(Seq<char>, V)>, b: Seq<(Seq<char>, W)>, k: Seq<char>)
    requires
        a.len() == b.len(),
        forall|i: int| 0 <= i < a.len() ==> a[i].0 == b[i].0,
    ensures
        key_index(a, k) == key_index(b, k),
    decreases a.len(),
{
    if a.len() > 0 {
        lemma_key_index_keys(a.drop_last(), b.drop_last(), k);
    }
}

/// A key found in a prefix is found at the same place in the whole.
pub proof fn lemma_key_index_prefix<V>(s: Seq<(Seq<char>, V)>, k: Seq<char>, n: int)
    requires
        0 <= n <= s.len(),
        key_index(s.take(n), k) is Some,
    ensures
        key_index(s, k) == key_index(s.take(n), k),
    decreases s.len() - n,
{
    if n < s.len() {
        assert(s.take(n + 1).drop_last() =~= s.take(n));
        lemma_key_index_prefix(s, k, n + 1);
    } else {
        assert(s.take(n) =~= s);
    }
}

pub proof fn lemma_key_index_found<V>(s: Seq<(Seq<char>, V)>, k: Seq<char>)
    ensures
        key_index(s, k) matches Some(i) ==> 0 <= i < s.len() && s[i].0 == k && forall|j: int|
            0 <= j < i ==> s[j].0 != k,
        key_index(s, k) is None ==> forall|j: int| 0 <= j < s.len() ==> s[j].0 != k,
    decreases s.len(),
{
    if s.len() > 0 {
        let p = s.drop_last();
        lemma_key_index_found(p, k);
        assert forall|j: int| 0 <= j < p.len() implies p[j] == s[j] by {}
        match key_index(p, k) {
            Some(i) => {
                assert(p[i] == s[i]);
            },
            None => {
                assert forall|j: int| 0 <= j < s.len() - 1 implies s[j].0 != k by {
                    assert(p[j] == s[j]);
                }
            },
        }
    }
}

/// Putting a key keeps keys unique.
pub proof fn lemma_put_unique<V>(s: Seq<(Seq<char>, V)>, k: Seq<char>, v: V)
    requires
        keys_unique(s),
    ensures
        keys_unique(put(s, k, v)),
        key_index(put(s, k, v), k) is Some,
{
    lemma_key_index_found(s, k);
    let r = put(s, k, v);
    assert forall|i: int, j: int| 0 <= i < j < r.len() implies r[i].0 != r[j].0 by {
        if key_index(s, k) is None {
            if j == s.len() {
                assert(s[i].0 != k);
            }
        }
    }
    lemma_key_index_found(r, k);
    assert(r[key_index(s, k).unwrap_or(s.len() as int)].0 == k);
}

/// The value under key `k`: that of its first pair.
pub open spec fn lookup<V>(s: Seq<(Seq<char>, V)>, k: Seq<char>) -> Option<V> {
    match key_index(s, k) {
        Some(i) => Some(s[i].1),
        None => None,
    }
}

proof fn lemma_key_index_is<V>(s: Seq<(Seq<char>, V)>, k: Seq<char>, i: int)
    requires
        0 <= i < s.len(),
        s[i].0 == k,
        forall|j: int| 0 <= j < i ==> s[j].0 != k,
    ensures
        key_index(s, k) == Some(i),
{
    lemma_key_index_found(s, k);
    match key_index(s, k) {
        Some(i2) => {
            if i2 < i {
                assert(s[i2].0 != k);
            } else if i2 > i {
                assert(s[i].0 != k);
            }
        },
        None => {
            assert(s[i].0 != k);
        },
    }
}

proof fn lemma_lookup_put<V>(s: Seq<(Seq<char>, V)>, k: Seq<char>, v: V, k2: Seq<char>)
    ensures
        lookup(put(s, k, v), k2) == (if k2 == k {
            Some(v)
        } else {
            lookup(s, k2)
        }),
{
    lemma_key_index_found(s, k);
    lemma_key_index_found(s, k2);
    let r = put(s, k, v);
    match key_index(s, k) {
        Some(i) => {
            assert(r == s.update(i, (k, v)));
            if k2 == k {
                lemma_key_index_is(r, k, i);
            } else {
                match key_index(s, k2) {
                    Some(j) => {
                        assert forall|q: int| 0 <= q < j implies r[q].0 != k2 by {
                            if q != i {
                                assert(r[q] == s[q]);
                            }
                        }
                        lemma_key_index_is(r, k2, j);
                    },
                    None => {
                        lemma_key_index_found(r, k2);
                        if key_index(r, k2) is Some {
                            let j = key_index(r, k2)->0;
                            if j != i {
                                assert(r[j] == s[j]);
                            }
                        }
                    },
                }
            }
        },
        None => {
            assert(r == s.push((k, v)));
            if k2 == k {
                assert forall|q: int| 0 <= q < s.len() implies r[q].0 != k2 by {
                    assert(r[q] == s[q]);
                }
                lemma_key_index_is(r, k, s.len() as int);
            } else {
                match key_index(s, k2) {
                    Some(j) => {
                        assert forall|q: int| 0 <= q < j implies r[q].0 != k2 by {
                            assert(r[q] == s[q]);
                        }
                        assert(r[j] == s[j]);
                        lemma_key_index_is(r, k2, j);
                    },
                    None => {
                        lemma_key_index_found(r, k2);
                        if key_index(r, k2) is Some {
                            let j = key_index(r, k2)->0;
                            if j < s.len() {
                                assert(r[j] == s[j]);
                            }
                        }
                    },
                }
            }
        },
    }
}

/// The last entry named `k` that is not disabled.
pub open spec fn last_enabled(entries: Seq<(Seq<char>, EntryV)>, k: Seq<char>) -> Option<EntryV>
    decreases entries.len(),
{
    if entries.len() == 0 {
        None
    } else if entries.last().0 == k && !entries.last().1.disabled {
        Some(entries.last().1)
    } else {
        last_enabled(entries.drop_last(), k)
    }
}

/// Merging a file: a name gets the server and safe tools of the last entry
/// of that name that is not disabled, and keeps what it had when there is
/// none; no name ends up configured twice.
pub proof fn law_merge_later_entry_wins(
    m: MergedV,
    w: Seq<Seq<char>>,
    entries: Seq<(Seq<char>, EntryV)>,
    k: Seq<char>,
)
    ensures
        lookup(merge_fold(m, w, entries).0.servers, k) == (match last_enabled(entries, k) {
            Some(e) => Some(e.server),
            None => lookup(m.servers, k),
        }),
        lookup(merge_fold(m, w, entries).0.safe_tools, k) == (match last_enabled(entries, k) {
            Some(e) => Some(e.safe_tools),
            None => lookup(m.safe_tools, k),
        }),
        keys_unique(m.servers) ==> keys_unique(merge_fold(m, w, entries).0.servers),
        keys_unique(m.safe_tools) ==> keys_unique(merge_fold(m, w, entries).0.safe_tools),
    decreases entries.len(),
{
    if entries.len() > 0 {
        law_merge_later_entry_wins(m, w, entries.drop_last(), k);
        let prev = merge_fold(m, w, entries.drop_last());
        let name = entries.last().0;
        let e = entries.last().1;
        if !e.disabled {
            lemma_lookup_put(prev.0.servers, name, e.server, k);
            lemma_lookup_put(prev.0.safe_tools, name, e.safe_tools, k);
            if keys_unique(prev.0.servers) {
                lemma_put_unique(prev.0.servers, name, e.server);
            }
            if keys_unique(prev.0.safe_tools) {
                lemma_put_unique(prev.0.safe_tools, name, e.safe_tools);
            }
        }
    }
}

fn put_server(s: &mut Vec<(String, McpServerConfig)>, k: String, v: McpServerConfig) -> (was:
    bool)
    ensures
        final(s)@.map_values(|p: (String, McpServerConfig)| (p.0@, p.1@)) == put(
            old(s)@.map_values(|p: (String, McpServerConfig)| (p.0@, p.1@)),
            k@,
            v@,
        ),
        was == key_index(old(s)@.map_values(|p: (String, McpServerConfig)| (p.0@, p.1@)), k@) is Some,
{
    let ghost sv = s@.map_values(|p: (String, McpServerConfig)| (p.0@, p.1@));
    let ghost ks = s@.map_values(|p: (String, McpServerConfig)| (p.0@, ()));
    proof {
        lemma_key_index_keys(sv, ks, k@);
    }
    match index_of_key(s, &k) {
        Some(i) => {
            s.set(i, (k, v));
            assert(s@.map_values(|p: (String, McpServerConfig)| (p.0@, p.1@)) =~= sv.update(
                i as int,
                (k@, v@),
            ));
            true
        },
        None => {
            s.push((k, v));
            assert(s@.map_values(|p: (String, McpServerConfig)| (p.0@, p.1@)) =~= sv.push(
                (k@, v@),
            ));
            false
        },
    }
}

fn put_tools(s: &mut Vec<(String, Vec<String>)>, k: String, v: Vec<String>)
    ensures
        final(s)@.map_values(|p: (String, Vec<String>)| (p.0@, str_views(p.1@))) == put(
            old(s)@.map_values(|p: (String, Vec<String>)| (p.0@, str_views(p.1@))),
            k@,
            str_views(v@),
        ),
{
    let ghost sv = s@.map_values(|p: (String, Vec<String>)| (p.0@, str_views(p.1@)));
    let ghost ks = s@.map_values(|p: (String, Vec<String>)| (p.0@, ()));
    proof {
        lemma_key_index_keys(sv, ks, k@);
    }
    let ghost vv = str_views(v@);
    match index_of_key(s, &k) {
        Some(i) => {
            s.set(i, (k, v));
            assert(s@.map_values(|p: (String, Vec<String>)| (p.0@, str_views(p.1@))) =~= sv.update(
                i as int,
                (k@, vv),
            ));
        },
        None => {
            s.push((k, v));
            assert(s@.map_values(|p: (String, Vec<String>)| (p.0@, str_views(p.1@))) =~= sv.push(
                (k@, vv),
            ));
        },
    }
}

/// Merges the entries of one configuration file into `merged`, in the
/// file's order, adding a warning for each server it replaces.
pub fn merge_entries(merged: &mut MergedMcpConfig, file: McpServersFile, warnings: &mut Vec<String>)
    ensures
        final(merged)@ == merge_fold(
            old(merged)@,
            str_views(old(warnings)@),
            entry_views(file.mcp_servers@),
        ).0,
        str_views(final(warnings)@) == merge_fold(
            old(merged)@,
            str_views(old(warnings)@),
            entry_views(file.mcp_servers@),
        ).1,
{
    let ghost ev = entry_views(file.mcp_servers@);
    let ghost m0 = merged@;
    let ghost w0 = str_views(warnings@);
    let mut rest = file.mcp_servers;
    let ghost n = rest@.len();
    while rest.len() > 0
        invariant
            rest@.len() <= n,
            n == ev.len(),
            entry_views(rest@) == ev.skip(n - rest@.len()),
            merged@ == merge_fold(m0, w0, ev.take(n - rest@.len())).0,
            str_views(warnings@) == merge_fold(m0, w0, ev.take(n - rest@.len())).1,
        decreases rest@.len(),
    {
        let ghost i = n - rest@.len();
        let ghost r0 = rest@;
        assert(ev.take(i + 1).drop_last() =~= ev.take(i));
        assert(entry_views(r0)[0] == ev.skip(i)[0]);
        assert(ev.take(i + 1).last() == ev[i]);
        let (name, entry) = rest.remove(0);
        assert(entry_views(rest@) =~= ev.skip(n - rest@.len())) by {
            assert(entry_views(rest@) =~= entry_views(r0).drop_first());
        }
        if !entry.disabled {
            let cfg = McpServerConfig { command: entry.command, args: entry.args, env: entry.env };
            let was = put_server(&mut merged.servers, name.clone(), cfg);
            if was {
                let mut msg: Vec<char> = Vec::new();
                push_str(&mut msg, "MCP Server '");
                let nc = chars_of(name.as_str());
                push_all(&mut msg, &nc);
                push_str(&mut msg, "' 被项目级配置覆盖");
                let ghost ws = warnings@;
                warnings.push(string_of(&msg));
                proof {
                    crate::text::lemma_str_views_push(ws, warnings@.last());
                }
            }
            put_tools(&mut merged.safe_tools, name, entry.safe_tools);
        }
    }
    assert(ev.take(n as int) =~= ev);
}

// ─── Loading ───────────────────────────────────────────────────────────

/// The outcome of reading and parsing one configuration file: the path it
/// was read from (for messages), the parsed file or the error text, and
/// whether the read failed because no file exists at the path.
#[derive(Debug)]
pub struct ConfigSource {
    pub path: String,
    pub loaded: Result<McpServersFile, String>,
    pub missing: bool,
}

/// Mathematical view of a [`ConfigSource`].
pub struct SourceV {
    pub path: Seq<char>,
    pub loaded: Result<Seq<(Seq<char>, EntryV)>, Seq<char>>,
    pub missing: bool,
}

impl View for ConfigSource {
    type V = SourceV;

    open spec fn view(&self) -> SourceV {
        SourceV {
            path: self.path@,
            loaded: match self.loaded {
                Ok(f) => Ok(entry_views(f.mcp_servers@)),
                Err(e) => Err(e@),
            },
            missing: self.missing,
        }
    }
}

/// An error that only says the file does not exist.
pub open spec fn missing_file(e: Seq<char>) -> bool {
    find(e, "not found"@) is Some || find(e, "NotFound"@) is Some || find(e, "找不到"@) is Some
}

/// One file's contribution: its entries merged, or, when it could not be
/// read and not merely because it is missing (no file at the path, or an
/// error text saying so), a warning "<what> (<path>): <error>".
pub open spec fn load_step(st: (MergedV, Seq<Seq<char>>), src: Option<SourceV>, what: Seq<char>) -> (
    MergedV,
    Seq<Seq<char>>,
) {
    match src {
        None => st,
        Some(s) => match s.loaded {
            Ok(entries) => merge_fold(st.0, st.1, entries),
            Err(e) => if s.missing || missing_file(e) {
                st
            } else {
                (st.0, st.1.push(what + " ("@ + s.path + "): "@ + e))
            },
        },
    }
}

/// The merged configuration and the warnings: the global file first, then
/// the project file.
pub open spec fn loaded_config(global: Option<SourceV>, project: Option<SourceV>) -> (
    MergedV,
    Seq<Seq<char>>,
) {
    let empty = MergedV { servers: seq![], safe_tools: seq![] };
    load_step(
        load_step((empty, seq![]), global, "读取全局 MCP 配置失败"@),
        project,
        "读取项目 MCP 配置失败"@,
    )
}

/// The entries a configuration source contributes (none when it is absent
/// or could not be read).
pub open spec fn source_entries(src: Option<SourceV>) -> Seq<(Seq<char>, EntryV)> {
    match src {
        Some(s) => match s.loaded {
            Ok(entries) => entries,
            Err(_) => seq![],
        },
        None => seq![],
    }
}

proof fn lemma_load_step_servers(st: (MergedV, Seq<Seq<char>>), src: Option<SourceV>, what: Seq<char>, k: Seq<char>)
    ensures
        lookup(load_step(st, src, what).0.servers, k) == (match last_enabled(source_entries(src), k) {
            Some(e) => Some(e.server),
            None => lookup(st.0.servers, k),
        }),
        lookup(load_step(st, src, what).0.safe_tools, k) == (match last_enabled(source_entries(src), k) {
            Some(e) => Some(e.safe_tools),
            None => lookup(st.0.safe_tools, k),
        }),
        keys_unique(st.0.servers) ==> keys_unique(load_step(st, src, what).0.servers),
        keys_unique(st.0.safe_tools) ==> keys_unique(load_step(st, src, what).0.safe_tools),
{
    law_merge_later_entry_wins(st.0, st.1, source_entries(src), k);
    match src {
        Some(s) => match s.loaded {
            Ok(entries) => {},
            Err(e) => {
                assert(last_enabled(source_entries(src), k) is None);
            },
        },
        None => {
            assert(last_enabled(source_entries(src), k) is None);
        },
    }
}

/// The project file overrides the global one: a server name gets the
/// configuration and the safe tools of its last enabled entry in the
/// project file, else of its last enabled entry in the global file, else
/// none; no name is configured, or given safe tools, twice.
pub proof fn law_project_config_overrides_global(global: Option<SourceV>, project: Option<SourceV>, k: Seq<char>)
    ensures
        lookup(loaded_config(global, project).0.servers, k) == (match last_enabled(source_entries(project), k) {
            Some(e) => Some(e.server),
            None => match last_enabled(source_entries(global), k) {
                Some(e) => Some(e.server),
                None => None,
            },
        }),
        lookup(loaded_config(global, project).0.safe_tools, k) == (match last_enabled(source_entries(project), k) {
            Some(e) => Some(e.safe_tools),
            None => match last_enabled(source_entries(global), k) {
                Some(e) => Some(e.safe_tools),
                None => None,
            },
        }),
        keys_unique(loaded_config(global, project).0.servers),
        keys_unique(loaded_config(global, project).0.safe_tools),
{
    let empty = MergedV { servers: seq![], safe_tools: seq![] };
    let st1 = load_step((empty, seq![]), global, "读取全局 MCP 配置失败"@);
    lemma_load_step_servers((empty, seq![]), global, "读取全局 MCP 配置失败"@, k);
    lemma_load_step_servers(st1, project, "读取项目 MCP 配置失败"@, k);
    assert(key_index(empty.servers, k) is None);
    assert(key_index(empty.safe_tools, k) is None);
    assert(keys_unique(empty.safe_tools));
}

/// A name that is configured before a file is merged, and that the file
/// enables, is reported as overridden.
proof fn lemma_merge_warns_override(m: MergedV, w: Seq<Seq<char>>, entries: Seq<(Seq<char>, EntryV)>, k: Seq<char>)
    requires
        key_index(m.servers, k) is Some,
        last_enabled(entries, k) is Some,
    ensures
        merge_fold(m, w, entries).1.contains(override_warning(k)),
    decreases entries.len(),
{
    let prev = merge_fold(m, w, entries.drop_last());
    let name = entries.last().0;
    let e = entries.last().1;
    if name == k && !e.disabled {
        law_merge_later_entry_wins(m, w, entries.drop_last(), k);
        let r = prev.1.push(override_warning(k));
        assert(r[r.len() - 1] == override_warning(k));
    } else {
        lemma_merge_warns_override(m, w, entries.drop_last(), k);
        if !e.disabled {
            let i = choose|i: int| 0 <= i < prev.1.len() && prev.1[i] == override_warning(k);
            assert(prev.1.push(override_warning(name))[i] == override_warning(k));
        }
    }
}

/// When both files enable a server of the same name, the warnings say that
/// the project's entry overrides it.
pub proof fn law_override_is_reported(global: Option<SourceV>, project: Option<SourceV>, k: Seq<char>)
    requires
        last_enabled(source_entries(global), k) is Some,
        last_enabled(source_entries(project), k) is Some,
    ensures
        loaded_config(global, project).1.contains(override_warning(k)),
{
    let empty = MergedV { servers: seq![], safe_tools: seq![] };
    let st1 = load_step((empty, seq![]), global, "读取全局 MCP 配置失败"@);
    lemma_load_step_servers((empty, seq![]), global, "读取全局 MCP 配置失败"@, k);
    lemma_merge_warns_override(st1.0, st1.1, source_entries(project), k);
}

pub open spec fn source_view(o: Option<ConfigSource>) -> Option<SourceV> {
    match o {
        Some(s) => Some(s@),
        None => None,
    }
}

fn load_one(
    merged: &mut MergedMcpConfig,
    warnings: &mut Vec<String>,
    src: Option<ConfigSource>,
    what: &str,
)
    ensures
        (final(merged)@, str_views(final(warnings)@)) == load_step(
            (old(merged)@, str_views(old(warnings)@)),
            match src {
                Some(s) => Some(s@),
                None => None,
            },
            what@,
        ),
{
    match src {
        None => {},
        Some(s) => {
            let path = s.path;
            let absent = s.missing;
            match s.loaded {
                Ok(file) => merge_entries(merged, file, warnings),
                Err(e) => {
                    let ec = chars_of(e.as_str());
                    let a = chars_of("not found");
                    let b = chars_of("NotFound");
                    let c = chars_of("找不到");
                    let missing = absent || find_chars(&ec, &a).is_some() || find_chars(&ec, &b).is_some()
                        || find_chars(&ec, &c).is_some();
                    if !missing {
                        let mut msg: Vec<char> = Vec::new();
                        push_str(&mut msg, what);
                        push_str(&mut msg, " (");
                        push_str(&mut msg, path.as_str());
                        push_str(&mut msg, "): ");
                        push_all(&mut msg, &ec);
                        let ghost ws = warnings@;
                        warnings.push(string_of(&msg));
                        proof {
                            crate::text::lemma_str_views_push(ws, warnings@.last());
                        }
                    }
                },
            }
        },
    }
}

/// Merges the global and then the project configuration, as read by the
/// caller; returns the configuration and the warnings met on the way.
pub fn load_mcp_config(global: Option<ConfigSource>, project: Option<ConfigSource>) -> (r: (
    MergedMcpConfig,
    Vec<String>,
))
    ensures
        (r.0@, str_views(r.1@)) == loaded_config(
            match global {
                Some(s) => Some(s@),
                None => None,
            },
            match project {
                Some(s) => Some(s@),
                None => None,
            },
        ),
        keys_unique(r.0@.servers),
        keys_unique(r.0@.safe_tools),
{
    proof {
        law_project_config_overrides_global(source_view(global), source_view(project), seq![]);
    }
    let mut merged = MergedMcpConfig { servers: Vec::new(), safe_tools: Vec::new() };
    let mut warnings: Vec<String> = Vec::new();
    assert(merged@.servers =~= seq![]);
    assert(merged@.safe_tools =~= seq![]);
    assert(str_views(warnings@) =~= seq![]);
    load_one(&mut merged, &mut warnings, global, "读取全局 MCP 配置失败");
    load_one(&mut merged, &mut warnings, project, "读取项目 MCP 配置失败");
    (merged, warnings)
}

/// Whether a tool of a server needs approval: unless the server lists it
/// among its safe tools, it does.
pub open spec fn mcp_tool_dangerous(safe: Seq<(Seq<char>, Seq<Seq<char>>)>, server: Seq<char>, tool: Seq<char>) -> bool {
    match key_index(safe, server) {
        Some(i) => !safe[i].1.contains(tool),
        None => true,
    }
}

/// Whether `list` holds `x`.
pub fn contains_string(list: &Vec<String>, x: &String) -> (r: bool)
    ensures
        r == str_views(list@).contains(x@),
{
    let ghost lv = str_views(list@);
    let mut j: usize = 0;
    while j < list.len()
        invariant
            j <= list@.len(),
            lv == str_views(list@),
            forall|q: int| 0 <= q < j ==> lv[q] != x@,
        decreases list@.len() - j,
    {
        if list[j] == *x {
            assert(lv[j as int] == x@);
            return true;
        }
        j = j + 1;
    }
    false
}

/// Decides whether a discovered tool is dangerous under the configuration.
pub fn tool_is_dangerous(config: &MergedMcpConfig, server: &String, tool: &String) -> (r: bool)
    ensures
        r == mcp_tool_dangerous(config@.safe_tools, server@, tool@),
{
    let ghost sv = config@.safe_tools;
    let ghost ks = config.safe_tools@.map_values(|p: (String, Vec<String>)| (p.0@, ()));
    proof {
        lemma_key_index_keys(sv, ks, server@);
    }
    match index_of_key(&config.safe_tools, server) {
        Some(i) => {
            let list = &config.safe_tools[i].1;
            assert(sv[i as int].1 == str_views(list@));
            !contains_string(list, tool)
        },
        None => true,
    }
}

// ─── Client state and errors ───────────────────────────────────────────

/// The state of the connection to one server.
#[derive(Debug)]
pub enum McpConnectionState {
    /// Working.
    Connected,
    /// Lost; a reconnection is under way.
    Reconnecting,
    /// Reconnecting failed; the server's tools are unavailable.
    Failed(String),
}

/// Errors of the MCP layer.
#[derive(Debug)]
pub enum McpError {
    Transport(String),
    Protocol(String),
    ToolCall(String),
    ConnectionFailed { retries: u32, reason: String },
    Timeout(u64),
}

/// Mathematical view of an [`McpError`].
pub enum ErrV {
    Transport(Seq<char>),
    Protocol(Seq<char>),
    ToolCall(Seq<char>),
    ConnectionFailed(nat, Seq<char>),
    Timeout(nat),
}

impl View for McpError {
    type V = ErrV;

    open spec fn view(&self) -> ErrV {
        match self {
            McpError::Transport(s) => ErrV::Transport(s@),
            McpError::Protocol(s) => ErrV::Protocol(s@),
            McpError::ToolCall(s) => ErrV::ToolCall(s@),
            McpError::ConnectionFailed { retries, reason } => ErrV::ConnectionFailed(
                *retries as nat,
                reason@,
            ),
            McpError::Timeout(s) => ErrV::Timeout(*s as nat),
        }
    }
}

/// The text of an error, as it is shown.
pub open spec fn error_text(e: ErrV) -> Seq<char> {
    match e {
        ErrV::Transport(s) => "Transport error: "@ + s,
        ErrV::Protocol(s) => "Protocol error: "@ + s,
        ErrV::ToolCall(s) => "Tool call error: "@ + s,
        ErrV::ConnectionFailed(n, r) => "Connection failed after "@ + dec(n) + " retries: "@ + r,
        ErrV::Timeout(s) => "Timeout ("@ + dec(s) + "s)"@,
    }
}

impl McpError {
    /// The text of the error.
    pub fn message(&self) -> (r: String)
        ensures
            r@ == error_text(self@),
    {
        let mut v: Vec<char> = Vec::new();
        match self {
            McpError::Transport(s) => {
                push_str(&mut v, "Transport error: ");
                push_str(&mut v, s.as_str());
            },
            McpError::Protocol(s) => {
                push_str(&mut v, "Protocol error: ");
                push_str(&mut v, s.as_str());
            },
            McpError::ToolCall(s) => {
                push_str(&mut v, "Tool call error: ");
                push_str(&mut v, s.as_str());
            },
            McpError::ConnectionFailed { retries, reason } => {
                push_str(&mut v, "Connection failed after ");
                let d = dec_chars(*retries as u64);
                push_all(&mut v, &d);
                push_str(&mut v, " retries: ");
                push_str(&mut v, reason.as_str());
            },
            McpError::Timeout(s) => {
                push_str(&mut v, "Timeout (");
                let d = dec_chars(*s);
                push_all(&mut v, &d);
                push_str(&mut v, "s)");
            },
        }
        string_of(&v)
    }
}

/// The error object of a JSON-RPC reply.
#[derive(Debug)]
pub struct RpcError {
    pub code: i32,
    pub message: String,
}

/// What a tool call does in each connection state: only a connected server
/// is asked; otherwise the call fails at once.
pub open spec fn gate(state_failed: Option<Seq<char>>, reconnecting: bool, server: Seq<char>) -> Option<ErrV> {
    match state_failed {
        Some(reason) => Some(ErrV::ToolCall("MCP Server '"@ + server + "' 不可用: "@ + reason)),
        None => if reconnecting {
            Some(ErrV::ToolCall("MCP Server '"@ + server + "' 正在重连中，请稍后重试"@))
        } else {
            None
        },
    }
}

pub open spec fn failed_reason(s: McpConnectionState) -> Option<Seq<char>> {
    match s {
        McpConnectionState::Failed(r) => Some(r@),
        _ => None,
    }
}

/// Checks the connection state before a tool call.
pub fn call_gate(state: &McpConnectionState, server: &str) -> (r: Result<(), McpError>)
    ensures
        match r {
            Ok(()) => gate(failed_reason(*state), *state is Reconnecting, server@) is None,
            Err(e) => gate(failed_reason(*state), *state is Reconnecting, server@) == Some(e@),
        },
{
    match state {
        McpConnectionState::Failed(reason) => {
            let mut v: Vec<char> = Vec::new();
            push_str(&mut v, "MCP Server '");
            push_str(&mut v, server);
            push_str(&mut v, "' 不可用: ");
            push_str(&mut v, reason.as_str());
            Err(McpError::ToolCall(string_of(&v)))
        },
        McpConnectionState::Reconnecting => {
            let mut v: Vec<char> = Vec::new();
            push_str(&mut v, "MCP Server '");
            push_str(&mut v, server);
            push_str(&mut v, "' 正在重连中，请稍后重试");
            Err(McpError::ToolCall(string_of(&v)))
        },
        McpConnectionState::Connected => Ok(()),
    }
}

/// What a registered MCP tool answers before calling its server: the
/// server is unavailable, or reconnecting; `None` when it is connected.
pub fn adapter_gate(state: &McpConnectionState, server: &str) -> (r: Option<ToolResult>)
    ensures
        match *state {
            McpConnectionState::Failed(reason) => (r matches Some(t) && t@ == err_v(
                "MCP Server '"@ + server@ + "' 不可用: "@ + reason@,
            )),
            McpConnectionState::Reconnecting => (r matches Some(t) && t@ == err_v(
                "MCP Server '"@ + server@ + "' 正在重连，请稍后重试"@,
            )),
            McpConnectionState::Connected => r is None,
        },
{
    match state {
        McpConnectionState::Failed(reason) => {
            let mut v: Vec<char> = Vec::new();
            push_str(&mut v, "MCP Server '");
            push_str(&mut v, server);
            push_str(&mut v, "' 不可用: ");
            push_str(&mut v, reason.as_str());
            Some(ToolResult::err(string_of(&v)))
        },
        McpConnectionState::Reconnecting => {
            let mut v: Vec<char> = Vec::new();
            push_str(&mut v, "MCP Server '");
            push_str(&mut v, server);
            push_str(&mut v, "' 正在重连，请稍后重试");
            Some(ToolResult::err(string_of(&v)))
        },
        McpConnectionState::Connected => None,
    }
}

/// What a `tools/call` reply means: an error object makes a tool error, a
/// reply without a result a protocol error; otherwise the result is to be
/// parsed.
pub open spec fn reply_outcome(error: Option<(int, Seq<char>)>, has_result: bool) -> Option<ErrV> {
    match error {
        Some(e) => Some(ErrV::ToolCall("工具执行错误: "@ + e.1 + " (code: "@ + dec_int(e.0) + ")"@)),
        None => if has_result {
            None
        } else {
            Some(ErrV::Protocol("tools/call 响应缺少 result"@))
        },
    }
}

/// Reads a `tools/call` reply.
pub fn call_reply(error: Option<RpcError>, has_result: bool) -> (r: Result<(), McpError>)
    ensures
        match r {
            Ok(()) => reply_outcome(
                match error {
                    Some(e) => Some((e.code as int, e.message@)),
                    None => None,
                },
                has_result,
            ) is None,
            Err(x) => reply_outcome(
                match error {
                    Some(e) => Some((e.code as int, e.message@)),
                    None => None,
                },
                has_result,
            ) == Some(x@),
        },
{
    match error {
        Some(e) => {
            let mut v: Vec<char> = Vec::new();
            push_str(&mut v, "工具执行错误: ");
            push_str(&mut v, e.message.as_str());
            push_str(&mut v, " (code: ");
            let d = dec_i64_chars(e.code as i64);
            push_all(&mut v, &d);
            push_str(&mut v, ")");
            Err(McpError::ToolCall(string_of(&v)))
        },
        None => {
            if has_result {
                Ok(())
            } else {
                Err(McpError::Protocol(String::from_str("tools/call 响应缺少 result")))
            }
        },
    }
}

/// Most reconnection attempts before a server is given up.
pub const MAX_RECONNECT_ATTEMPTS: u32 = 3;

/// What reconnecting does after `attempts` failed attempts in a row.
#[derive(Debug)]
pub enum ReconnectPlan {
    /// Stop: the server is marked failed with `reason` and the error returned.
    GiveUp { reason: String, error: McpError },
    /// Wait `delay_secs` seconds (1, 2, 4, ...) and reconnect.
    Retry { delay_secs: u64 },
}

pub open spec fn give_up_reason(server: Seq<char>) -> Seq<char> {
    "MCP Server '"@ + server + "' 重连失败（已尝试 3 次），工具已不可用"@
}

/// Plans the next reconnection: after 3 failed attempts it gives up,
/// otherwise it waits 2^attempts seconds.
pub fn reconnect_plan(attempts: u32, server: &str) -> (r: ReconnectPlan)
    ensures
        attempts >= 3 ==> (r matches ReconnectPlan::GiveUp { reason, error } && reason@
            == give_up_reason(server@) && error@ == ErrV::ConnectionFailed(3, give_up_reason(server@))),
        attempts < 3 ==> (r matches ReconnectPlan::Retry { delay_secs } && delay_secs == (if attempts
            == 0 {
            1u64
        } else if attempts == 1 {
            2u64
        } else {
            4u64
        })),
{
    if attempts >= MAX_RECONNECT_ATTEMPTS {
        let mut v: Vec<char> = Vec::new();
        push_str(&mut v, "MCP Server '");
        push_str(&mut v, server);
        push_str(&mut v, "' 重连失败（已尝试 3 次），工具已不可用");
        let reason = string_of(&v);
        let again = string_of(&v);
        ReconnectPlan::GiveUp {
            reason,
            error: McpError::ConnectionFailed { retries: MAX_RECONNECT_ATTEMPTS, reason: again },
        }
    } else {
        let delay: u64 = if attempts == 0 {
            1
        } else if attempts == 1 {
            2
        } else {
            4
        };
        ReconnectPlan::Retry { delay_secs: delay }
    }
}

// ─── Tool adapter ──────────────────────────────────────────────────────

/// The name under which a server's tool is registered.
pub open spec fn adapter_name(server: Seq<char>, tool: Seq<char>) -> Seq<char> {
    "mcp__"@ + server + "__"@ + tool
}

/// The description under which a server's tool is registered.
pub open spec fn adapter_description(server: Seq<char>, desc: Seq<char>) -> Seq<char> {
    "[MCP:"@ + server + "] "@ + desc
}

/// Registered name of a server's tool: "mcp__<server>__<tool>".
pub fn mcp_tool_name(server: &str, tool: &str) -> (r: String)
    ensures
        r@ == adapter_name(server@, tool@),
{
    let mut v: Vec<char> = Vec::new();
    push_str(&mut v, "mcp__");
    push_str(&mut v, server);
    push_str(&mut v, "__");
    push_str(&mut v, tool);
    string_of(&v)
}

/// Registered description of a server's tool: "[MCP:<server>] <description>".
pub fn mcp_tool_description(server: &str, desc: &str) -> (r: String)
    ensures
        r@ == adapter_description(server@, desc@),
{
    let mut v: Vec<char> = Vec::new();
    push_str(&mut v, "[MCP:");
    push_str(&mut v, server);
    push_str(&mut v, "] ");
    push_str(&mut v, desc);
    string_of(&v)
}

/// One content item of a tool call result.
#[derive(Debug)]
pub struct ToolContent {
    pub content_type: String,
    pub text: Option<String>,
    pub data: Option<String>,
    pub mime_type: Option<String>,
}

/// The result of `tools/call`.
#[derive(Debug)]
pub struct ToolsCallResult {
    pub content: Vec<ToolContent>,
    pub is_error: Option<bool>,
}

/// The texts of the "text" items, in order.
pub open spec fn call_texts(c: Seq<ToolContent>) -> Seq<Seq<char>>
    decreases c.len(),
{
    if c.len() == 0 {
        seq![]
    } else {
        let prev = call_texts(c.drop_last());
        let x = c.last();
        if x.content_type@ == "text"@ {
            match x.text {
                Some(t) => prev.push(t@),
                None => prev,
            }
        } else {
            prev
        }
    }
}

/// What the agent sees of a tool call: the text items joined by "\n"; when
/// the server flags an error the call fails with "MCP Server 返回错误" and
/// still carries the text; a call that could not be made fails with
/// "MCP 工具调用失败 [<server>::<tool>]: <error>".
pub open spec fn adapter_outcome(server: Seq<char>, tool: Seq<char>, r: Result<(Seq<Seq<char>>, bool), ErrV>) -> ResultV {
    match r {
        Ok((texts, is_error)) => ResultV {
            success: !is_error,
            content: crate::text::join_lines(texts, "\n"@),
            error: if is_error {
                Some("MCP Server 返回错误"@)
            } else {
                None
            },
        },
        Err(e) => err_v("MCP 工具调用失败 ["@ + server + "::"@ + tool + "]: "@ + error_text(e)),
    }
}

/// Turns the outcome of a tool call into the result the agent sees.
pub fn adapter_result(server: &str, tool: &str, outcome: Result<ToolsCallResult, McpError>) -> (r:
    ToolResult)
    ensures
        r@ == adapter_outcome(
            server@,
            tool@,
            match outcome {
                Ok(c) => Ok(
                    (
                        call_texts(c.content@),
                        match c.is_error {
                            Some(b) => b,
                            None => false,
                        },
                    ),
                ),
                Err(e) => Err(e@),
            },
        ),
{
    match outcome {
        Ok(c) => {
            let is_error = match c.is_error {
                Some(b) => b,
                None => false,
            };
            let ghost cv = c.content@;
            let mut texts: Vec<String> = Vec::new();
            let mut i: usize = 0;
            while i < c.content.len()
                invariant
                    i <= c.content@.len(),
                    cv == c.content@,
                    str_views(texts@) == call_texts(cv.take(i as int)),
                decreases c.content@.len() - i,
            {
                assert(cv.take(i + 1).drop_last() =~= cv.take(i as int));
                let item = &c.content[i];
                let tc = chars_of(item.content_type.as_str());
                if crate::text::eq_lit(&tc, "text") {
                    match &item.text {
                        Some(t) => {
                            let ghost ts = texts@;
                            texts.push(t.clone());
                            proof {
                                crate::text::lemma_str_views_push(ts, texts@.last());
                            }
                        },
                        None => {},
                    }
                }
                i = i + 1;
            }
            assert(cv.take(i as int) =~= cv);
            let joined = crate::text::join_strings(&texts);
            ToolResult {
                success: !is_error,
                content: string_of(&joined),
                error: if is_error {
                    Some(String::from_str("MCP Server 返回错误"))
                } else {
                    None
                },
            }
        },
        Err(e) => {
            let mut v: Vec<char> = Vec::new();
            push_str(&mut v, "MCP 工具调用失败 [");
            push_str(&mut v, server);
            push_str(&mut v, "::");
            push_str(&mut v, tool);
            push_str(&mut v, "]: ");
            let m = e.message();
            push_str(&mut v, m.as_str());
            ToolResult::err(string_of(&v))
        },
    }
}

// ─── Handshake and status ──────────────────────────────────────────────

/// The client's own name and version, sent in `initialize`.
#[derive(Debug)]
pub struct ClientInfo {
    pub name: String,
    pub version: String,
}

/// A server's name and version.
#[derive(Debug)]
pub struct ServerInfo {
    pub name: String,
    pub version: String,
}

/// Whether the server announces changes to its tool list.
#[derive(Debug)]
pub struct ToolsCapability {
    pub list_changed: Option<bool>,
}

/// What the server can do.
#[derive(Debug)]
pub struct ServerCapabilities {
    pub tools: Option<ToolsCapability>,
}

/// The result of `initialize`.
#[derive(Debug)]
pub struct InitializeResult {
    pub protocol_version: String,
    pub server_info: ServerInfo,
    pub capabilities: ServerCapabilities,
}

/// What a reply to `initialize` or `tools/list` (the `method`) means: an
/// error object or a missing result is a protocol error.
pub open spec fn setup_outcome(method: Seq<char>, error: Option<(int, Seq<char>)>, has_result: bool) -> Option<ErrV> {
    match error {
        Some(e) => Some(ErrV::Protocol(method + " 失败: "@ + e.1 + " (code: "@ + dec_int(e.0) + ")"@)),
        None => if has_result {
            None
        } else {
            Some(ErrV::Protocol(method + " 响应缺少 result"@))
        },
    }
}

/// Reads a reply to `initialize` or `tools/list`.
pub fn setup_reply(method: &str, error: Option<RpcError>, has_result: bool) -> (r: Result<(), McpError>)
    ensures
        match r {
            Ok(()) => setup_outcome(
                method@,
                match error {
                    Some(e) => Some((e.code as int, e.message@)),
                    None => None,
                },
                has_result,
            ) is None,
            Err(x) => setup_outcome(
                method@,
                match error {
                    Some(e) => Some((e.code as int, e.message@)),
                    None => None,
                },
                has_result,
            ) == Some(x@),
        },
{
    match error {
        Some(e) => {
            let mut v: Vec<char> = Vec::new();
            push_str(&mut v, method);
            push_str(&mut v, " 失败: ");
            push_str(&mut v, e.message.as_str());
            push_str(&mut v, " (code: ");
            let d = dec_i64_chars(e.code as i64);
            push_all(&mut v, &d);
            push_str(&mut v, ")");
            Err(McpError::Protocol(string_of(&v)))
        },
        None => {
            if has_result {
                Ok(())
            } else {
                let mut v: Vec<char> = Vec::new();
                push_str(&mut v, method);
                push_str(&mut v, " 响应缺少 result");
                Err(McpError::Protocol(string_of(&v)))
            }
        },
    }
}

/// A server that could not be set up (an empty name: a configuration
/// warning).
#[derive(Debug)]
pub struct McpInitError {
    pub server_name: String,
    pub message: String,
}

/// The setup error reported for a server whose initialization failed.
pub fn init_failure(server: String, e: &McpError) -> (r: McpInitError)
    ensures
        r.server_name@ == server@,
        r.message@ == "MCP Server 初始化失败: "@ + error_text(e@),
{
    let mut v: Vec<char> = Vec::new();
    push_str(&mut v, "MCP Server 初始化失败: ");
    let m = e.message();
    push_str(&mut v, m.as_str());
    McpInitError { server_name: server, message: string_of(&v) }
}

/// Configuration warnings as setup errors without a server name, in order.
pub fn warnings_as_errors(warnings: Vec<String>) -> (r: Vec<McpInitError>)
    ensures
        r@.len() == warnings@.len(),
        forall|i: int| 0 <= i < r@.len() ==> (#[trigger] r@[i]).server_name@ == Seq::<char>::empty() && r@[i].message@ == warnings@[i]@,
{
    let mut r: Vec<McpInitError> = Vec::new();
    let mut rest = warnings;
    let ghost w0 = rest@;
    while rest.len() > 0
        invariant
            r@.len() + rest@.len() == w0.len(),
            rest@ == w0.skip(r@.len() as int),
            w0 == warnings@,
            forall|i: int| 0 <= i < r@.len() ==> (#[trigger] r@[i]).server_name@ == Seq::<char>::empty() && r@[i].message@ == w0[i]@,
        decreases rest@.len(),
    {
        let ghost k: int = r@.len() as int;
        assert(rest@[0] == w0[k as int]);
        let w = rest.remove(0);
        assert(rest@ =~= w0.skip(k + 1 as int));
        let ghost r0 = r@;
        let empty = String::new();
        let item = McpInitError { server_name: empty, message: w };
        assert(item.server_name@ == Seq::<char>::empty());
        assert(item.message@ == w0[k]@);
        r.push(item);
        assert(r@[k] == item);
        assert forall|i: int| 0 <= i < r@.len() implies (#[trigger] r@[i]).server_name@ == Seq::<char>::empty() && r@[i].message@ == w0[i]@ by {
            if i < k {
                assert(r@[i] == r0[i]);
            }
        }
    }
    r
}

/// A server's line in the status summary.
#[derive(Debug)]
pub struct McpServerStatus {
    pub name: String,
    pub tool_count: usize,
    pub connected: bool,
}

/// The status line of a server: connected only in the `Connected` state.
pub fn server_status(name: String, tool_count: usize, state: &McpConnectionState) -> (r: McpServerStatus)
    ensures
        r.name@ == name@,
        r.tool_count == tool_count,
        r.connected == (*state is Connected),
{
    let connected = match state {
        McpConnectionState::Connected => true,
        _ => false,
    };
    McpServerStatus { name, tool_count, connected }
}

// ─── Calling a tool, with one retry ────────────────────────────────────

/// Where a tool call stands: the first request, reconnecting after it
/// failed (keeping its error), the retry after reconnecting, or done.
pub enum CallPhase {
    First,
    Reconnecting(McpError),
    Retry,
    Done,
}

/// What came of the last step of a tool call.
pub enum CallEvent {
    /// The request got a reply.
    Sent,
    /// The request failed with this error.
    SendFailed(McpError),
    /// Reconnecting succeeded or not.
    Reconnected(bool),
}

/// What the caller does next.
pub enum CallAction {
    /// Send the request (again).
    Send,
    /// Try to reconnect to the server.
    Reconnect,
    /// Read the reply that came.
    ReadReply,
    /// End the call with this error.
    Return(McpError),
    /// Nothing (the event did not fit the phase).
    Nothing,
}

/// The decisions of a tool call: a failed first request leads to one
/// reconnection; when that succeeds the request is sent once more, and its
/// failure is final; when it fails, the first error is returned.
pub fn call_step(phase: CallPhase, event: CallEvent) -> (r: (CallPhase, CallAction))
    ensures
        match (phase, event) {
            (CallPhase::First, CallEvent::Sent) => r.0 is Done && r.1 is ReadReply,
            (CallPhase::First, CallEvent::SendFailed(e)) => (r.0 matches CallPhase::Reconnecting(k) && k@ == e@) && r.1 is Reconnect,
            (CallPhase::Reconnecting(_), CallEvent::Reconnected(true)) => r.0 is Retry && r.1 is Send,
            (CallPhase::Reconnecting(e), CallEvent::Reconnected(false)) => r.0 is Done && (r.1 matches CallAction::Return(k) && k@ == e@),
            (CallPhase::Retry, CallEvent::Sent) => r.0 is Done && r.1 is ReadReply,
            (CallPhase::Retry, CallEvent::SendFailed(e)) => r.0 is Done && (r.1 matches CallAction::Return(k) && k@ == e@),
            (CallPhase::Done, _) => r.0 is Done && r.1 is Nothing,
            _ => r.1 is Nothing,
        },
{
    match (phase, event) {
        (CallPhase::First, CallEvent::Sent) => (CallPhase::Done, CallAction::ReadReply),
        (CallPhase::First, CallEvent::SendFailed(e)) => (CallPhase::Reconnecting(e), CallAction::Reconnect),
        (CallPhase::Reconnecting(_), CallEvent::Reconnected(true)) => (CallPhase::Retry, CallAction::Send),
        (CallPhase::Reconnecting(e), CallEvent::Reconnected(false)) => (CallPhase::Done, CallAction::Return(e)),
        (CallPhase::Retry, CallEvent::Sent) => (CallPhase::Done, CallAction::ReadReply),
        (CallPhase::Retry, CallEvent::SendFailed(e)) => (CallPhase::Done, CallAction::Return(e)),
        (CallPhase::Done, _) => (CallPhase::Done, CallAction::Nothing),
        (p, _) => (p, CallAction::Nothing),
    }
}

} // verus!
