//! Reading a streamed chat completion (server-sent events of an
//! OpenAI-compatible API).
//!
//! Bytes arrive in chunks; complete lines are taken from a buffer, and the
//! payload of each "data:" line is handed back to be parsed as JSON (up to
//! a "[DONE]" line, which ends the lines of that chunk). Each parsed
//! payload updates the reply: text and reasoning deltas are passed on, a
//! reasoning block ends when its deltas stop, and tool calls are assembled
//! by their index and emitted, in index order, when the model finishes.
use vstd::prelude::*;
use crate::text::{chars_of, eq_lit, push_all, slice_of, starts_with, string_of, trim, trim_chars};
use crate::tokens::{StreamEvent, Usage};

verus! {

// ─── Lines ─────────────────────────────────────────────────────────────

/// The payload of an event line: what follows "data: " or "data:".
pub open spec fn data_payload(line: Seq<char>) -> Option<Seq<char>> {
    if starts_with(line, "data: "@) {
        Some(line.skip(6))
    } else if starts_with(line, "data:"@) {
        Some(line.skip(5))
    } else {
        None
    }
}

/// Taking complete lines from `buf`: the payloads found (empty lines and
/// lines without "data:" are skipped) and what is left in the buffer; a
/// "[DONE]" payload stops the taking, after its line is removed.
pub open spec fn drain(buf: Seq<char>) -> (Seq<Seq<char>>, Seq<char>)
    decreases buf.len(),
{
    match crate::text::find(buf, "\n"@) {
        None => (seq![], buf),
        Some(p) => {
            proof {
                crate::text::lemma_find_from(buf, "\n"@, 0);
                reveal_strlit("\n");
            }
            let line = trim(buf.take(p));
            let rest = buf.skip(p + 1);
            if line.len() == 0 {
                drain(rest)
            } else {
                match data_payload(line) {
                    None => drain(rest),
                    Some(d) => if d == "[DONE]"@ {
                        (seq![], rest)
                    } else {
                        let r = drain(rest);
                        (seq![d] + r.0, r.1)
                    },
                }
            }
        },
    }
}

/// Whether taking lines from `buf` stops at a "[DONE]" payload.
pub open spec fn stops_at_done(buf: Seq<char>) -> bool
    decreases buf.len(),
{
    match crate::text::find(buf, "\n"@) {
        None => false,
        Some(p) => {
            proof {
                crate::text::lemma_find_from(buf, "\n"@, 0);
                reveal_strlit("\n");
            }
            let line = trim(buf.take(p));
            let rest = buf.skip(p + 1);
            if line.len() == 0 {
                stops_at_done(rest)
            } else {
                match data_payload(line) {
                    None => stops_at_done(rest),
                    Some(d) => d == "[DONE]"@ || stops_at_done(rest),
                }
            }
        },
    }
}

proof fn lemma_find_from_first(s: Seq<char>, p: Seq<char>, i: int, k: int)
    requires
        0 <= i <= k,
        crate::text::occurs_at(s, p, k),
        forall|j: int| i <= j < k ==> !crate::text::occurs_at(s, p, j),
    ensures
        crate::text::find_from(s, p, i) == Some(k),
    decreases k - i,
{
    if i < k {
        lemma_find_from_first(s, p, i + 1, k);
    }
}

proof fn lemma_find_nl_concat(a: Seq<char>, b: Seq<char>, p: int)
    requires
        crate::text::find(a, "\n"@) == Some(p),
    ensures
        crate::text::find(a + b, "\n"@) == Some(p),
        0 <= p < a.len(),
{
    reveal_strlit("\n");
    crate::text::lemma_find_from(a, "\n"@, 0);
    let ab = a + b;
    assert(ab.subrange(p, p + 1) =~= a.subrange(p, p + 1));
    assert forall|j: int| 0 <= j < p implies !crate::text::occurs_at(ab, "\n"@, j) by {
        assert(ab.subrange(j, j + 1) =~= a.subrange(j, j + 1));
        assert(!crate::text::occurs_at(a, "\n"@, j));
    }
    lemma_find_from_first(ab, "\n"@, 0, p);
}

/// Chunk boundaries do not matter: taking lines from `a`, then from what
/// is left followed by `b`, gives the payloads and the rest that taking
/// lines from `a + b` gives (unless a "[DONE]" line in `a` stopped it).
pub proof fn law_drain_chunks(a: Seq<char>, b: Seq<char>)
    requires
        !stops_at_done(a),
    ensures
        drain(a).0 + drain(drain(a).1 + b).0 == drain(a + b).0,
        drain(drain(a).1 + b).1 == drain(a + b).1,
    decreases a.len(),
{
    reveal_strlit("\n");
    match crate::text::find(a, "\n"@) {
        None => {
            assert(drain(a).0 + drain(drain(a).1 + b).0 =~= drain(a + b).0);
        },
        Some(p) => {
            lemma_find_nl_concat(a, b, p);
            let ab = a + b;
            assert(ab.take(p) =~= a.take(p));
            assert(ab.skip(p + 1) =~= a.skip(p + 1) + b);
            let rest = a.skip(p + 1);
            law_drain_chunks(rest, b);
            let line = trim(a.take(p));
            if line.len() != 0 {
                match data_payload(line) {
                    None => {},
                    Some(d) => {
                        let r = drain(rest);
                        assert(drain(a).0 == seq![d] + r.0);
                        assert(drain(ab).0 == seq![d] + drain(rest + b).0);
                        assert((seq![d] + r.0) + drain(r.1 + b).0 =~= seq![d] + (r.0 + drain(r.1 + b).0));
                    },
                }
            }
        },
    }
}

// ─── Deltas ────────────────────────────────────────────────────────────

/// A piece of a tool call: its index, and the parts of its id, name and
/// arguments (empty when absent).
pub struct ToolCallDelta {
    pub index: usize,
    pub id: String,
    pub name: String,
    pub arguments: String,
}

/// What a payload's first choice's `delta` holds.
pub struct DeltaBody {
    pub reasoning: Option<String>,
    pub content: Option<String>,
    pub tool_calls: Vec<ToolCallDelta>,
    pub finish_reason: Option<String>,
}

/// A parsed payload: the usage it reports (prompt, completion, total) and
/// its delta, `None` when it has no choice or no delta.
pub struct Payload {
    pub usage: Option<(u64, u64, u64)>,
    pub delta: Option<DeltaBody>,
}

/// The reply read so far.
pub struct ReplyState {
    pub buffer: Vec<char>,
    pub usage: Usage,
    /// Tool calls being assembled: (index, id, name, arguments), by index.
    pub calls: Vec<(usize, String, String, String)>,
    pub in_reasoning: bool,
}

pub open spec fn opt_text(o: Option<String>) -> Seq<char> {
    match o {
        Some(s) => s@,
        None => seq![],
    }
}

/// Mathematical view of the events this module emits.
pub enum OutV {
    Reasoning(Seq<char>),
    ReasoningDone,
    Text(Seq<char>),
    Call(Seq<char>, Seq<char>, Seq<char>),
    Other,
}

pub open spec fn out_view(e: StreamEvent) -> OutV {
    match e {
        StreamEvent::ReasoningDelta { delta } => OutV::Reasoning(delta@),
        StreamEvent::ReasoningDone => OutV::ReasoningDone,
        StreamEvent::TextDelta { delta } => OutV::Text(delta@),
        StreamEvent::ToolCall { id, name, arguments } => OutV::Call(id@, name@, arguments@),
        _ => OutV::Other,
    }
}

pub open spec fn out_views(s: Seq<StreamEvent>) -> Seq<OutV> {
    s.map_values(|e: StreamEvent| out_view(e))
}

pub type CallV = (int, Seq<char>, Seq<char>, Seq<char>);

pub open spec fn call_views(s: Seq<(usize, String, String, String)>) -> Seq<CallV> {
    s.map_values(|c: (usize, String, String, String)| (c.0 as int, c.1@, c.2@, c.3@))
}

/// Calls kept in increasing index order, each index once.
pub open spec fn calls_sorted(c: Seq<CallV>) -> bool {
    forall|a: int, b: int| 0 <= a < b < c.len() ==> c[a].0 < c[b].0
}

/// The first position from `j` whose index is at least `k` (the length
/// when there is none): where index `k` is, or would be inserted.
pub open spec fn slot_from(c: Seq<CallV>, k: int, j: int) -> int
    decreases c.len() - j,
{
    if j < 0 || j >= c.len() {
        c.len() as int
    } else if c[j].0 >= k {
        j
    } else {
        slot_from(c, k, j + 1)
    }
}

pub open spec fn call_slot(c: Seq<CallV>, k: int) -> int {
    slot_from(c, k, 0)
}

/// Adding one piece to the calls: a new index starts an empty call; a
/// non-empty id or name replaces the stored one; arguments are appended.
pub open spec fn add_piece(c: Seq<CallV>, k: int, id: Seq<char>, name: Seq<char>, args: Seq<char>) -> Seq<CallV> {
    let s = call_slot(c, k);
    let old = if s < c.len() && c[s].0 == k {
        c[s]
    } else {
        (k, seq![], seq![], seq![])
    };
    let new = (k, if id.len() > 0 { id } else { old.1 }, if name.len() > 0 { name } else { old.2 }, old.3 + args);
    if s < c.len() && c[s].0 == k {
        c.update(s, new)
    } else {
        c.insert(s, new)
    }
}

/// The finished calls that are emitted: those with a name, in index order.
pub open spec fn emitted_calls(c: Seq<CallV>) -> Seq<OutV>
    decreases c.len(),
{
    if c.len() == 0 {
        seq![]
    } else {
        emitted_calls(c.drop_last()) + if c.last().2.len() > 0 {
            seq![OutV::Call(c.last().1, c.last().2, c.last().3)]
        } else {
            seq![]
        }
    }
}

proof fn lemma_slot_from(c: Seq<CallV>, k: int, j: int)
    requires
        0 <= j <= c.len(),
        forall|i: int| 0 <= i < j ==> c[i].0 < k,
    ensures
        j <= slot_from(c, k, j) <= c.len(),
        forall|i: int| 0 <= i < slot_from(c, k, j) ==> c[i].0 < k,
        slot_from(c, k, j) < c.len() ==> c[slot_from(c, k, j)].0 >= k,
    decreases c.len() - j,
{
    if j < c.len() && c[j].0 < k {
        lemma_slot_from(c, k, j + 1);
    }
}

/// Adding a piece keeps the calls in strictly increasing index order.
pub proof fn lemma_add_piece_sorted(c: Seq<CallV>, k: int, id: Seq<char>, name: Seq<char>, args: Seq<char>)
    requires
        calls_sorted(c),
    ensures
        calls_sorted(add_piece(c, k, id, name, args)),
{
    lemma_slot_from(c, k, 0);
    let s = call_slot(c, k);
    let r = add_piece(c, k, id, name, args);
    assert forall|a: int, b: int| 0 <= a < b < r.len() implies r[a].0 < r[b].0 by {
        if s < c.len() && c[s].0 == k {
        } else {
            if a < s && b > s {
                if s < c.len() {
                    assert(c[s].0 > k);
                    assert(c[a].0 < k);
                }
            } else if a == s && b > s {
                assert(c[b - 1].0 >= c[s].0);
            }
        }
    }
}

// ─── Applying payloads ─────────────────────────────────────────────────

/// The state of the reply as far as payloads change it: usage (prompt,
/// completion, total), calls, and whether a reasoning block is open.
pub type ReplyV = ((int, int, int), Seq<CallV>, bool);

pub open spec fn reply_view(s: ReplyState) -> ReplyV {
    (
        (s.usage.prompt_tokens as int, s.usage.completion_tokens as int, s.usage.total_tokens as int),
        call_views(s.calls@),
        s.in_reasoning,
    )
}

pub open spec fn pieces(c: Seq<CallV>, ts: Seq<ToolCallDelta>) -> Seq<CallV>
    decreases ts.len(),
{
    if ts.len() == 0 {
        c
    } else {
        let t = ts.last();
        add_piece(pieces(c, ts.drop_last()), t.index as int, t.id@, t.name@, t.arguments@)
    }
}

/// How a payload changes the reply, and the events it emits. Reported
/// usage replaces the usage (each count kept to 32 bits).
pub open spec fn apply_payload(st: ReplyV, p: Payload) -> (ReplyV, Seq<OutV>) {
    let usage = match p.usage {
        Some((a, b, c)) => ((a as u32) as int, (b as u32) as int, (c as u32) as int),
        None => st.0,
    };
    match p.delta {
        None => ((usage, st.1, st.2), seq![]),
        Some(d) => {
            let rc = opt_text(d.reasoning);
            let (r1, e1) = if rc.len() > 0 {
                (true, seq![OutV::Reasoning(rc)])
            } else if st.2 {
                (false, seq![OutV::ReasoningDone])
            } else {
                (false, seq![])
            };
            let tc = opt_text(d.content);
            let e2 = if tc.len() > 0 {
                e1.push(OutV::Text(tc))
            } else {
                e1
            };
            let calls = pieces(st.1, d.tool_calls@);
            let fr = opt_text(d.finish_reason);
            if fr == "tool_calls"@ || fr == "stop"@ {
                (
                    (usage, seq![], false),
                    (if r1 {
                        e2.push(OutV::ReasoningDone)
                    } else {
                        e2
                    }) + emitted_calls(calls),
                )
            } else {
                ((usage, calls, r1), e2)
            }
        },
    }
}

impl ReplyState {
    /// Nothing read yet.
    pub fn new() -> (r: ReplyState)
        ensures
            r.buffer@.len() == 0,
            reply_view(r) == ((0int, 0int, 0int), Seq::<CallV>::empty(), false),
    {
        let r = ReplyState {
            buffer: Vec::new(),
            usage: Usage { prompt_tokens: 0, completion_tokens: 0, total_tokens: 0 },
            calls: Vec::new(),
            in_reasoning: false,
        };
        assert(call_views(r.calls@) =~= Seq::<CallV>::empty());
        r
    }

    /// Adds a chunk of text to the buffer and returns the payloads of the
    /// complete lines.
    pub fn feed(&mut self, text: &str) -> (payloads: Vec<String>)
        ensures
            crate::text::str_views(payloads@) == drain(old(self).buffer@ + text@).0,
            final(self).buffer@ == drain(old(self).buffer@ + text@).1,
            reply_view(*final(self)) == reply_view(*old(self)),
    {
        crate::text::push_str(&mut self.buffer, text);
        let ghost whole = self.buffer@;
        let nl = chars_of("\n");
        let done = chars_of("[DONE]");
        let p1 = chars_of("data: ");
        let p2 = chars_of("data:");
        let mut out: Vec<String> = Vec::new();
        loop
            invariant_except_break
                drain(whole) == (crate::text::str_views(out@) + drain(self.buffer@).0, drain(self.buffer@).1),
            invariant
                reply_view(*self) == reply_view(*old(self)),
                nl@ == "\n"@,
                done@ == "[DONE]"@,
                p1@ == "data: "@,
                p2@ == "data:"@,
            ensures
                drain(whole) == (crate::text::str_views(out@), self.buffer@),
            decreases self.buffer@.len(),
        {
            let ghost buf = self.buffer@;
            match crate::text::find_chars(&self.buffer, &nl) {
                None => {
                    assert(drain(buf) == (Seq::<Seq<char>>::empty(), buf));
                    assert(crate::text::str_views(out@) + Seq::<Seq<char>>::empty() =~= crate::text::str_views(out@));
                    break;
                },
                Some(p) => {
                    proof {
                        crate::text::lemma_find_from(buf, "\n"@, 0);
                        reveal_strlit("\n");
                    }
                    let head = slice_of(&self.buffer, 0, p);
                    let line = trim_chars(&head);
                    let n = self.buffer.len();
                    let rest = slice_of(&self.buffer, p + 1, n);
                    assert(head@ =~= buf.take(p as int));
                    assert(rest@ =~= buf.skip(p + 1));
                    self.buffer = rest;
                    if line.len() == 0 {
                        continue;
                    }
                    let payload = if crate::text::starts_with_chars(&line, &p1) {
                        let l = line.len();
                        proof {
                            reveal_strlit("data: ");
                        }
                        Some(slice_of(&line, 6, l))
                    } else if crate::text::starts_with_chars(&line, &p2) {
                        let l = line.len();
                        proof {
                            reveal_strlit("data:");
                        }
                        Some(slice_of(&line, 5, l))
                    } else {
                        None
                    };
                    match payload {
                        None => {
                            assert(data_payload(line@) is None);
                        },
                        Some(d) => {
                            assert(data_payload(line@) == Some(d@)) by {
                                assert(d@ =~= (if starts_with(line@, "data: "@) { line@.skip(6) } else { line@.skip(5) }));
                            }
                            if crate::text::chars_eq(&d, &done) {
                                assert(drain(buf) == (Seq::<Seq<char>>::empty(), self.buffer@));
                                assert(crate::text::str_views(out@) + Seq::<Seq<char>>::empty() =~= crate::text::str_views(out@));
                                break;
                            }
                            let ghost before = out@;
                            out.push(string_of(&d));
                            proof {
                                crate::text::lemma_str_views_push(before, out@.last());
                                assert(crate::text::str_views(before) + (seq![d@] + drain(self.buffer@).0) =~= crate::text::str_views(out@) + drain(self.buffer@).0);
                            }
                        },
                    }
                },
            }
        }
        out
    }
}

fn add_call_piece(calls: &mut Vec<(usize, String, String, String)>, t: ToolCallDelta)
    requires
        calls_sorted(call_views(old(calls)@)),
    ensures
        call_views(final(calls)@) == add_piece(call_views(old(calls)@), t.index as int, t.id@, t.name@, t.arguments@),
        calls_sorted(call_views(final(calls)@)),
{
    let ghost cv = call_views(calls@);
    proof {
        lemma_slot_from(cv, t.index as int, 0);
        lemma_add_piece_sorted(cv, t.index as int, t.id@, t.name@, t.arguments@);
    }
    let mut j: usize = 0;
    while j < calls.len() && calls[j].0 < t.index
        invariant
            j <= calls@.len(),
            cv == call_views(calls@),
            slot_from(cv, t.index as int, 0) == slot_from(cv, t.index as int, j as int),
        decreases calls@.len() - j,
    {
        j = j + 1;
    }
    let idc = chars_of(t.id.as_str());
    let namec = chars_of(t.name.as_str());
    if j < calls.len() && calls[j].0 == t.index {
        let (k, id, name, mut args) = calls.remove(j);
        let new_id = if idc.len() > 0 { t.id } else { id };
        let new_name = if namec.len() > 0 { t.name } else { name };
        let ac = chars_of(t.arguments.as_str());
        let mut a = chars_of(args.as_str());
        push_all(&mut a, &ac);
        args = string_of(&a);
        calls.insert(j, (k, new_id, new_name, args));
        assert(call_views(calls@) =~= add_piece(cv, t.index as int, t.id@, t.name@, t.arguments@));
    } else {
        let new_id = if idc.len() > 0 { t.id } else { String::new() };
        let new_name = if namec.len() > 0 { t.name } else { String::new() };
        let args = t.arguments;
        calls.insert(j, (t.index, new_id, new_name, args));
        assert(call_views(calls@) =~= add_piece(cv, t.index as int, t.id@, t.name@, t.arguments@)) by {
            assert(Seq::<char>::empty() + t.arguments@ =~= t.arguments@);
        }
    }
}

impl ReplyState {
    /// Applies a parsed payload and returns the events to pass on.
    pub fn apply(&mut self, p: Payload) -> (events: Vec<StreamEvent>)
        requires
            calls_sorted(call_views(old(self).calls@)),
        ensures
            reply_view(*final(self)) == apply_payload(reply_view(*old(self)), p).0,
            out_views(events@) == apply_payload(reply_view(*old(self)), p).1,
            final(self).buffer@ == old(self).buffer@,
            calls_sorted(call_views(final(self).calls@)),
    {
        let ghost st = reply_view(*self);
        let ghost pp = p;
        match p.usage {
            Some((a, b, c)) => {
                self.usage = Usage {
                    prompt_tokens: a as u32,
                    completion_tokens: b as u32,
                    total_tokens: c as u32,
                };
            },
            None => {},
        }
        let mut events: Vec<StreamEvent> = Vec::new();
        let d = match p.delta {
            None => {
                assert(out_views(events@) =~= Seq::<OutV>::empty());
                return events;
            },
            Some(d) => d,
        };
        assert(pp.delta == Some(d));
        let rc: Vec<char> = match &d.reasoning {
            Some(s) => chars_of(s.as_str()),
            None => Vec::new(),
        };
        if rc.len() > 0 {
            self.in_reasoning = true;
            events.push(StreamEvent::ReasoningDelta { delta: string_of(&rc) });
        } else if self.in_reasoning {
            self.in_reasoning = false;
            events.push(StreamEvent::ReasoningDone);
        }
        let ghost r1 = self.in_reasoning;
        let tc: Vec<char> = match &d.content {
            Some(s) => chars_of(s.as_str()),
            None => Vec::new(),
        };
        if tc.len() > 0 {
            events.push(StreamEvent::TextDelta { delta: string_of(&tc) });
        }
        let ghost ts = d.tool_calls@;
        let ghost c0 = call_views(self.calls@);
        let ghost u1 = self.usage;
        let ghost ir1 = self.in_reasoning;
        let mut pieces_left = d.tool_calls;
        let ghost n = pieces_left@.len();
        while pieces_left.len() > 0
            invariant
                n == ts.len(),
                pieces_left@.len() <= n,
                pieces_left@ == ts.skip(n - pieces_left@.len()),
                call_views(self.calls@) == pieces(c0, ts.take(n - pieces_left@.len())),
                calls_sorted(call_views(self.calls@)),
                self.buffer@ == old(self).buffer@,
                self.usage == u1,
                self.in_reasoning == ir1,
            decreases pieces_left@.len(),
        {
            let ghost i: int = n - pieces_left@.len();
            assert(pieces_left@[0] == ts[i]);
            let piece = pieces_left.remove(0);
            assert(pieces_left@ =~= ts.skip(n - pieces_left@.len()));
            assert(ts.take(i + 1).drop_last() =~= ts.take(i));
            add_call_piece(&mut self.calls, piece);
        }
        assert(ts.take(n as int) =~= ts);
        assert(call_views(self.calls@) == pieces(st.1, d.tool_calls@));
        let fr: Vec<char> = match &d.finish_reason {
            Some(s) => chars_of(s.as_str()),
            None => Vec::new(),
        };
        if crate::text::eq_lit(&fr, "tool_calls") || crate::text::eq_lit(&fr, "stop") {
            if self.in_reasoning {
                self.in_reasoning = false;
                events.push(StreamEvent::ReasoningDone);
            }
            let ghost e3 = out_views(events@);
            let ghost cv = call_views(self.calls@);
            let mut k: usize = 0;
            while k < self.calls.len()
                invariant
                    k <= self.calls@.len(),
                    cv == call_views(self.calls@),
                    out_views(events@) == e3 + emitted_calls(cv.take(k as int)),
                    self.usage == u1,
                    !self.in_reasoning,
                    self.buffer@ == old(self).buffer@,
                decreases self.calls@.len() - k,
            {
                assert(cv.take(k + 1).drop_last() =~= cv.take(k as int));
                let name_c = chars_of(self.calls[k].2.as_str());
                if name_c.len() > 0 {
                    let ev = StreamEvent::ToolCall {
                        id: self.calls[k].1.clone(),
                        name: self.calls[k].2.clone(),
                        arguments: self.calls[k].3.clone(),
                    };
                    assert(out_view(ev) == OutV::Call(cv[k as int].1, cv[k as int].2, cv[k as int].3));
                    let ghost before = events@;
                    events.push(ev);
                    assert(out_views(events@) =~= out_views(before).push(OutV::Call(cv[k as int].1, cv[k as int].2, cv[k as int].3)));
                    assert(out_views(events@) =~= e3 + emitted_calls(cv.take(k + 1)));
                } else {
                    assert(out_views(events@) =~= e3 + emitted_calls(cv.take(k + 1)));
                }
                k = k + 1;
            }
            assert(cv.take(k as int) =~= cv);
            self.calls = Vec::new();
            assert(call_views(self.calls@) =~= Seq::<CallV>::empty());
        }
        events
    }

    /// The events that end the reply: the end of an open reasoning block,
    /// then `Done` with the usage.
    pub fn finish(&self) -> (events: Vec<StreamEvent>)
        ensures
            events@.len() == if self.in_reasoning { 2nat } else { 1nat },
            self.in_reasoning ==> events@[0] is ReasoningDone,
            events@.last() matches StreamEvent::Done { usage } && usage == self.usage,
            out_views(events@) == finish_outs(reply_view(*self)),
    {
        let mut events: Vec<StreamEvent> = Vec::new();
        if self.in_reasoning {
            events.push(StreamEvent::ReasoningDone);
        }
        events.push(StreamEvent::Done { usage: self.usage });
        assert(out_views(events@) =~= finish_outs(reply_view(*self)));
        events
    }
}

// ─── Assembling tool calls ─────────────────────────────────────────────

/// The arguments the fragments with index `k` carry, joined in order.
pub open spec fn frag_args(ts: Seq<ToolCallDelta>, k: int) -> Seq<char>
    decreases ts.len(),
{
    if ts.len() == 0 {
        seq![]
    } else {
        frag_args(ts.drop_last(), k) + if ts.last().index as int == k {
            ts.last().arguments@
        } else {
            seq![]
        }
    }
}

/// The last non-empty id among the fragments with index `k` (empty when
/// none has one).
pub open spec fn frag_id(ts: Seq<ToolCallDelta>, k: int) -> Seq<char>
    decreases ts.len(),
{
    if ts.len() == 0 {
        seq![]
    } else if ts.last().index as int == k && ts.last().id@.len() > 0 {
        ts.last().id@
    } else {
        frag_id(ts.drop_last(), k)
    }
}

/// The last non-empty name among the fragments with index `k`.
pub open spec fn frag_name(ts: Seq<ToolCallDelta>, k: int) -> Seq<char>
    decreases ts.len(),
{
    if ts.len() == 0 {
        seq![]
    } else if ts.last().index as int == k && ts.last().name@.len() > 0 {
        ts.last().name@
    } else {
        frag_name(ts.drop_last(), k)
    }
}

/// The call at position `i` holds, for its index, the last non-empty id
/// and name of the fragments and their arguments joined, and some
/// fragment has that index.
pub open spec fn entry_ok(c: Seq<CallV>, ts: Seq<ToolCallDelta>, i: int) -> bool {
    &&& c[i].3 == frag_args(ts, c[i].0)
    &&& c[i].1 == frag_id(ts, c[i].0)
    &&& c[i].2 == frag_name(ts, c[i].0)
    &&& exists|j: int| 0 <= j < ts.len() && ts[j].index as int == c[i].0
}

/// Every fragment's index has a call.
pub open spec fn covered(c: Seq<CallV>, ts: Seq<ToolCallDelta>) -> bool {
    forall|j: int| 0 <= j < ts.len() ==> exists|i: int| 0 <= i < c.len() && c[i].0 == (#[trigger] ts[j]).index as int
}

/// What the calls assembled from fragments hold: one call per index that
/// occurs, in increasing index order, each with the last non-empty id and
/// name of its fragments and their arguments joined in order.
pub open spec fn assembled(c: Seq<CallV>, ts: Seq<ToolCallDelta>) -> bool {
    &&& calls_sorted(c)
    &&& forall|i: int| 0 <= i < c.len() ==> #[trigger] entry_ok(c, ts, i)
    &&& covered(c, ts)
}

proof fn lemma_frags_absent(ts: Seq<ToolCallDelta>, k: int)
    requires
        forall|j: int| 0 <= j < ts.len() ==> (#[trigger] ts[j]).index as int != k,
    ensures
        frag_args(ts, k) == Seq::<char>::empty(),
        frag_id(ts, k) == Seq::<char>::empty(),
        frag_name(ts, k) == Seq::<char>::empty(),
    decreases ts.len(),
{
    if ts.len() > 0 {
        assert(ts.last() == ts[ts.len() - 1]);
        assert forall|j: int| 0 <= j < ts.drop_last().len() implies (#[trigger] ts.drop_last()[j]).index as int != k by {
            assert(ts.drop_last()[j] == ts[j]);
        }
        lemma_frags_absent(ts.drop_last(), k);
        assert(frag_args(ts.drop_last(), k) + Seq::<char>::empty() =~= Seq::<char>::empty());
    }
}

proof fn lemma_frags_other(ts: Seq<ToolCallDelta>, k2: int)
    requires
        ts.len() > 0,
        ts.last().index as int != k2,
    ensures
        frag_args(ts, k2) == frag_args(ts.drop_last(), k2),
        frag_id(ts, k2) == frag_id(ts.drop_last(), k2),
        frag_name(ts, k2) == frag_name(ts.drop_last(), k2),
{
    assert(frag_args(ts.drop_last(), k2) + Seq::<char>::empty() =~= frag_args(ts.drop_last(), k2));
}

/// Where the entries of `add_piece` come from: the slot holds the new call,
/// every other entry is an entry of `c` with another index.
proof fn lemma_add_piece_entries(c: Seq<CallV>, k: int, id: Seq<char>, name: Seq<char>, args: Seq<char>)
    requires
        calls_sorted(c),
    ensures
        ({
            let s = call_slot(c, k);
            let found = s < c.len() && c[s].0 == k;
            let r = add_piece(c, k, id, name, args);
            &&& 0 <= s <= c.len()
            &&& r.len() == if found { c.len() } else { c.len() + 1 }
            &&& r[s].0 == k
            &&& r[s].3 == (if found { c[s].3 } else { seq![] }) + args
            &&& r[s].1 == (if id.len() > 0 { id } else if found { c[s].1 } else { seq![] })
            &&& r[s].2 == (if name.len() > 0 { name } else if found { c[s].2 } else { seq![] })
            &&& forall|i: int| 0 <= i < r.len() && i != s ==> {
                let ci = if found || i < s { i } else { i - 1 };
                &&& 0 <= ci < c.len()
                &&& #[trigger] r[i] == c[ci]
                &&& c[ci].0 != k
            }
            &&& forall|i: int| 0 <= i < c.len() ==> {
                let ri = if found || i < s { i } else { i + 1 };
                &&& 0 <= ri < r.len()
                &&& r[ri].0 == (#[trigger] c[i]).0
            }
        }),
{
    lemma_slot_from(c, k, 0);
    let s = call_slot(c, k);
    let found = s < c.len() && c[s].0 == k;
    let r = add_piece(c, k, id, name, args);
    assert forall|i: int| 0 <= i < r.len() && i != s implies {
        let ci = if found || i < s { i } else { i - 1 };
        &&& 0 <= ci < c.len()
        &&& #[trigger] r[i] == c[ci]
        &&& c[ci].0 != k
    } by {
        let ci = if found || i < s { i } else { i - 1 };
        if found {
            if ci > s {
                assert(c[s].0 < c[ci].0);
            }
        }
    }
}

proof fn lemma_new_index_absent(c: Seq<CallV>, p: Seq<ToolCallDelta>, k: int)
    requires
        calls_sorted(c),
        covered(c, p),
        !(call_slot(c, k) < c.len() && c[call_slot(c, k)].0 == k),
    ensures
        forall|j: int| 0 <= j < p.len() ==> (#[trigger] p[j]).index as int != k,
{
    lemma_slot_from(c, k, 0);
    let s = call_slot(c, k);
    assert forall|j: int| 0 <= j < p.len() implies (#[trigger] p[j]).index as int != k by {
        if p[j].index as int == k {
            let i = choose|i: int| 0 <= i < c.len() && c[i].0 == (#[trigger] p[j]).index as int;
            if i > s {
                assert(c[s].0 < c[i].0);
            }
        }
    }
}

#[verifier::rlimit(40)]
proof fn lemma_step_entries(c: Seq<CallV>, ts: Seq<ToolCallDelta>)
    requires
        ts.len() > 0,
        assembled(c, ts.drop_last()),
    ensures
        ({
            let t = ts.last();
            let r = add_piece(c, t.index as int, t.id@, t.name@, t.arguments@);
            forall|i: int| 0 <= i < r.len() ==> #[trigger] entry_ok(r, ts, i)
        }),
{
    let p = ts.drop_last();
    let t = ts.last();
    let k = t.index as int;
    let r = add_piece(c, k, t.id@, t.name@, t.arguments@);
    lemma_add_piece_entries(c, k, t.id@, t.name@, t.arguments@);
    let s = call_slot(c, k);
    let found = s < c.len() && c[s].0 == k;
    assert(ts[ts.len() - 1] == t);
    if !found {
        lemma_new_index_absent(c, p, k);
        lemma_frags_absent(p, k);
    } else {
        assert(entry_ok(c, p, s));
    }
    assert forall|i: int| 0 <= i < r.len() implies #[trigger] entry_ok(r, ts, i) by {
        if i == s {
            assert(ts[ts.len() - 1].index as int == r[i].0);
        } else {
            let ci = if found || i < s { i } else { i - 1 };
            assert(r[i] == c[ci]);
            assert(entry_ok(c, p, ci));
            lemma_frags_other(ts, c[ci].0);
            let j = choose|j: int| 0 <= j < p.len() && p[j].index as int == c[ci].0;
            assert(ts[j] == p[j]);
        }
    }
}

proof fn lemma_step_cover(c: Seq<CallV>, ts: Seq<ToolCallDelta>)
    requires
        ts.len() > 0,
        assembled(c, ts.drop_last()),
    ensures
        covered(add_piece(c, ts.last().index as int, ts.last().id@, ts.last().name@, ts.last().arguments@), ts),
{
    let p = ts.drop_last();
    let t = ts.last();
    let k = t.index as int;
    let r = add_piece(c, k, t.id@, t.name@, t.arguments@);
    lemma_add_piece_entries(c, k, t.id@, t.name@, t.arguments@);
    let s = call_slot(c, k);
    let found = s < c.len() && c[s].0 == k;
    assert forall|j: int| 0 <= j < ts.len() implies exists|i: int| 0 <= i < r.len() && r[i].0 == (#[trigger] ts[j]).index as int by {
        if j == ts.len() - 1 {
            assert(r[s].0 == k);
        } else {
            assert(ts[j] == p[j]);
            let i = choose|i: int| 0 <= i < c.len() && c[i].0 == (#[trigger] p[j]).index as int;
            let ri = if found || i < s { i } else { i + 1 };
            assert(r[ri].0 == c[i].0);
        }
    }
}

proof fn lemma_assembled_step(c: Seq<CallV>, ts: Seq<ToolCallDelta>)
    requires
        ts.len() > 0,
        assembled(c, ts.drop_last()),
    ensures
        assembled(add_piece(c, ts.last().index as int, ts.last().id@, ts.last().name@, ts.last().arguments@), ts),
{
    lemma_add_piece_sorted(c, ts.last().index as int, ts.last().id@, ts.last().name@, ts.last().arguments@);
    lemma_step_entries(c, ts);
    lemma_step_cover(c, ts);
}

/// Tool calls are assembled from their fragments: after any fragments, the
/// calls hold one entry per index that occurred, in increasing index order,
/// each with the last non-empty id and name sent for that index and the
/// arguments of its fragments joined in the order they came.
pub proof fn law_tool_calls_assembled(ts: Seq<ToolCallDelta>)
    ensures
        assembled(pieces(seq![], ts), ts),
    decreases ts.len(),
{
    if ts.len() > 0 {
        law_tool_calls_assembled(ts.drop_last());
        lemma_assembled_step(pieces(seq![], ts.drop_last()), ts);
    }
}

// ─── A whole reply ─────────────────────────────────────────────────────

/// The events that end a reply: the close of an open reasoning block, then
/// `Done` (an `Other` event).
pub open spec fn finish_outs(st: ReplyV) -> Seq<OutV> {
    (if st.2 {
        seq![OutV::ReasoningDone]
    } else {
        seq![]
    }).push(OutV::Other)
}

/// The reply state and the events after a sequence of payloads.
pub open spec fn apply_all(st: ReplyV, ps: Seq<Payload>) -> (ReplyV, Seq<OutV>)
    decreases ps.len(),
{
    if ps.len() == 0 {
        (st, seq![])
    } else {
        let (s1, e1) = apply_all(st, ps.drop_last());
        let (s2, e2) = apply_payload(s1, ps.last());
        (s2, e1 + e2)
    }
}

/// The usage of the last payload that reports one (each count kept to 32
/// bits), or `u` when none does.
pub open spec fn last_usage(u: (int, int, int), ps: Seq<Payload>) -> (int, int, int)
    decreases ps.len(),
{
    if ps.len() == 0 {
        u
    } else {
        match ps.last().usage {
            Some((a, b, c)) => ((a as u32) as int, (b as u32) as int, (c as u32) as int),
            None => last_usage(u, ps.drop_last()),
        }
    }
}

/// Whether a reasoning block is open after events `s`, starting from `o`.
pub open spec fn open_from(o: bool, s: Seq<OutV>) -> bool
    decreases s.len(),
{
    if s.len() == 0 {
        o
    } else {
        match s.last() {
            OutV::Reasoning(_) => true,
            OutV::ReasoningDone => false,
            _ => open_from(o, s.drop_last()),
        }
    }
}

proof fn lemma_open_from_add(o: bool, a: Seq<OutV>, b: Seq<OutV>)
    ensures
        open_from(o, a + b) == open_from(open_from(o, a), b),
    decreases b.len(),
{
    if b.len() == 0 {
        assert(a + b =~= a);
    } else {
        lemma_open_from_add(o, a, b.drop_last());
        assert((a + b).drop_last() =~= a + b.drop_last());
    }
}

proof fn lemma_open_from_calls(o: bool, c: Seq<CallV>)
    ensures
        open_from(o, emitted_calls(c)) == o,
    decreases c.len(),
{
    if c.len() > 0 {
        lemma_open_from_calls(o, c.drop_last());
        let prev = emitted_calls(c.drop_last());
        if c.last().2.len() > 0 {
            let e = seq![OutV::Call(c.last().1, c.last().2, c.last().3)];
            lemma_open_from_add(o, prev, e);
            lemma_open_from_one(o, OutV::Call(c.last().1, c.last().2, c.last().3));
            assert(emitted_calls(c) == prev + e);
        } else {
            assert(prev + Seq::<OutV>::empty() =~= prev);
            assert(emitted_calls(c) == prev + Seq::<OutV>::empty());
        }
    } else {
        assert(emitted_calls(c) == Seq::<OutV>::empty());
    }
}

proof fn lemma_open_from_one(o: bool, x: OutV)
    ensures
        open_from(o, seq![x]) == match x {
            OutV::Reasoning(_) => true,
            OutV::ReasoningDone => false,
            _ => o,
        },
{
    let a = seq![x];
    assert(a.len() == 1);
    assert(a.last() == x);
    assert(a.drop_last() =~= Seq::<OutV>::empty());
    assert(open_from(o, Seq::<OutV>::empty()) == o);
    assert(open_from(o, a.drop_last()) == o);
}

/// One payload keeps the reply's reasoning flag equal to whether its
/// events leave a reasoning block open.
proof fn lemma_payload_open(st: ReplyV, p: Payload)
    ensures
        open_from(st.2, apply_payload(st, p).1) == apply_payload(st, p).0.2,
{
    match p.delta {
        None => {},
        Some(d) => {
            let rc = opt_text(d.reasoning);
            let e1 = if rc.len() > 0 {
                seq![OutV::Reasoning(rc)]
            } else if st.2 {
                seq![OutV::ReasoningDone]
            } else {
                seq![]
            };
            let r1 = rc.len() > 0;
            let tc = opt_text(d.content);
            let e2 = if tc.len() > 0 {
                e1.push(OutV::Text(tc))
            } else {
                e1
            };
            if e1.len() == 1 {
                lemma_open_from_one(st.2, e1[0]);
                assert(e1 =~= seq![e1[0]]);
            }
            assert(open_from(st.2, e1) == r1);
            if tc.len() > 0 {
                assert(e2.drop_last() =~= e1);
            }
            assert(open_from(st.2, e2) == r1);
            let calls = pieces(st.1, d.tool_calls@);
            let fr = opt_text(d.finish_reason);
            if fr == "tool_calls"@ || fr == "stop"@ {
                let e3 = if r1 {
                    e2.push(OutV::ReasoningDone)
                } else {
                    e2
                };
                if r1 {
                    assert(e3.drop_last() =~= e2);
                }
                assert(open_from(st.2, e3) == false);
                lemma_open_from_add(st.2, e3, emitted_calls(calls));
                lemma_open_from_calls(false, calls);
            }
        },
    }
}

/// A whole reply: whatever payloads come, the usage `Done` reports is that
/// of the last payload reporting one (all zeros when none does), and no
/// reasoning block is left open when `Done` is sent.
pub proof fn law_reply_ends_cleanly(ps: Seq<Payload>)
    ensures
        ({
            let init: ReplyV = ((0int, 0int, 0int), Seq::<CallV>::empty(), false);
            let (st, evs) = apply_all(init, ps);
            let all = evs + finish_outs(st);
            &&& st.0 == last_usage((0, 0, 0), ps)
            &&& all.last() == OutV::Other
            &&& !open_from(false, all.drop_last())
        }),
{
    let init: ReplyV = ((0int, 0int, 0int), Seq::<CallV>::empty(), false);
    lemma_apply_all(init, ps);
    let (st, evs) = apply_all(init, ps);
    let f = finish_outs(st);
    let all = evs + f;
    assert(all.drop_last() =~= evs + f.drop_last());
    lemma_open_from_add(false, evs, f.drop_last());
    if st.2 {
        lemma_open_from_one(st.2, OutV::ReasoningDone);
        assert(f.drop_last() =~= seq![OutV::ReasoningDone]);
    } else {
        assert(f.drop_last() =~= Seq::<OutV>::empty());
    }
}

proof fn lemma_apply_all(init: ReplyV, ps: Seq<Payload>)
    requires
        !init.2,
    ensures
        apply_all(init, ps).0.0 == last_usage(init.0, ps),
        open_from(false, apply_all(init, ps).1) == apply_all(init, ps).0.2,
    decreases ps.len(),
{
    if ps.len() > 0 {
        lemma_apply_all(init, ps.drop_last());
        let (s1, e1) = apply_all(init, ps.drop_last());
        lemma_payload_open(s1, ps.last());
        lemma_open_from_add(false, e1, apply_payload(s1, ps.last()).1);
    }
}

} // verus!
