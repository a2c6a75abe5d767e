//! The agent run as a state machine: the caller performs each action (a
//! chat request, asking for approval, running a tool, sending the final
//! events) and hands back what came of it; `run_step` decides what follows.
//! A run makes at most `MAX_TOOL_ROUNDS` chat requests and ends with exactly
//! one `Finish` (done, perhaps after an error) or `Fail` (a backend error),
//! after which it does nothing more.
use vstd::prelude::*;
use crate::agent::{
    bad_arguments_message, call_triples, denied_message, max_rounds_message, needs_approval,
    result_text, shown_result, tool_needs_approval, RoundState, MAX_TOOL_ROUNDS,
};
use crate::text::str_views;
use crate::tokens::Usage;
use crate::tool::{ResultV, ToolResult};

verus! {

/// Where a run stands.
#[derive(Clone, Copy, Debug)]
pub enum Stage {
    /// Waiting to start a round (`Ready`).
    Idle,
    /// A chat request is under way.
    Chatting,
    /// Waiting for the user's answer on the tool call at this index.
    Approving(usize),
    /// The tool call at this index is being run.
    Running(usize),
    /// The round's calls are answered; waiting for `RoundClosed`.
    Closing,
    /// The run has ended.
    Finished,
}

/// The state of a run: the chat requests made, the usage summed over the
/// rounds, the tool calls of the current round, the registered tools as
/// (name, dangerous), and the stage.
pub struct RunState {
    pub rounds: usize,
    pub total: Usage,
    pub calls: Vec<(String, String, String)>,
    pub tools: Vec<(String, bool)>,
    pub stage: Stage,
}

/// What the caller reports.
pub enum RunEvent {
    /// Ready for a round: at the start, once the user message is added, and
    /// after each round, once the conversation is measured and trimmed;
    /// `cancelled` tells whether the user stopped the run.
    Ready { cancelled: bool },
    /// The user stopped the run while the reply streamed.
    ChatCancelled,
    /// The chat request failed with this message.
    ChatFailed(String),
    /// The chat request ended; what its reply held.
    ChatEnded(RoundState),
    /// The user's answer on the current tool call.
    Approval(bool),
    /// The current call's arguments did not parse (the parser's message).
    BadArguments(String),
    /// The current call ran with this result.
    Executed(ToolResult),
    /// After the round's calls: whether the user stopped the run.
    RoundClosed { cancelled: bool },
}

/// What the caller does next.
pub enum RunAction {
    /// Send a chat request with the conversation and the tools.
    Chat,
    /// Report the usage after a round (with this running total).
    Usage { total: Usage },
    /// Add the assistant message holding the round's tool calls.
    RecordCalls,
    /// Ask the user to approve the tool call at this index.
    AskApproval { index: usize },
    /// Parse the arguments of the tool call at this index and run it.
    RunTool { index: usize },
    /// Answer the tool call at this index: `text` goes both into the tool
    /// message the model reads and into the tool-result event.
    Answer { index: usize, text: String },
    /// The round's calls are answered: check whether the user stopped.
    EndRound,
    /// Report the usage before a round and trim the conversation, then
    /// send `Ready`.
    Prepare,
    /// End the run: send the error, if any, then `Done` with this usage.
    Finish { error: Option<String>, usage: Usage },
    /// End the run with this error and no `Done`.
    Fail { message: String },
}

pub type CallV = (Seq<char>, Seq<char>, Seq<char>);

/// Mathematical view of a [`RunState`].
pub struct RunV {
    pub rounds: nat,
    pub total: Usage,
    pub calls: Seq<CallV>,
    pub tools: Seq<(Seq<char>, bool)>,
    pub stage: Stage,
}

/// Mathematical view of a [`RunEvent`].
pub enum EventV {
    Ready(bool),
    ChatCancelled,
    ChatFailed(Seq<char>),
    ChatEnded(Usage, Seq<CallV>, bool),
    Approval(bool),
    BadArguments(Seq<char>),
    Executed(ResultV),
    RoundClosed(bool),
}

/// Mathematical view of a [`RunAction`].
pub enum ActV {
    Chat,
    Usage(Usage),
    RecordCalls,
    AskApproval(int),
    RunTool(int),
    Answer(int, Seq<char>),
    EndRound,
    Prepare,
    Finish(Option<Seq<char>>, Usage),
    Fail(Seq<char>),
}

impl View for RunState {
    type V = RunV;

    open spec fn view(&self) -> RunV {
        RunV {
            rounds: self.rounds as nat,
            total: self.total,
            calls: call_triples(self.calls@),
            tools: self.tools@.map_values(|t: (String, bool)| (t.0@, t.1)),
            stage: self.stage,
        }
    }
}

impl View for RunEvent {
    type V = EventV;

    open spec fn view(&self) -> EventV {
        match self {
            RunEvent::Ready { cancelled } => EventV::Ready(*cancelled),
            RunEvent::ChatCancelled => EventV::ChatCancelled,
            RunEvent::ChatFailed(m) => EventV::ChatFailed(m@),
            RunEvent::ChatEnded(r) => EventV::ChatEnded(r.usage, call_triples(r.tool_calls@), r.had_error),
            RunEvent::Approval(b) => EventV::Approval(*b),
            RunEvent::BadArguments(e) => EventV::BadArguments(e@),
            RunEvent::Executed(r) => EventV::Executed(r@),
            RunEvent::RoundClosed { cancelled } => EventV::RoundClosed(*cancelled),
        }
    }
}

impl View for RunAction {
    type V = ActV;

    open spec fn view(&self) -> ActV {
        match self {
            RunAction::Chat => ActV::Chat,
            RunAction::Usage { total } => ActV::Usage(*total),
            RunAction::RecordCalls => ActV::RecordCalls,
            RunAction::AskApproval { index } => ActV::AskApproval(*index as int),
            RunAction::RunTool { index } => ActV::RunTool(*index as int),
            RunAction::Answer { index, text } => ActV::Answer(*index as int, text@),
            RunAction::EndRound => ActV::EndRound,
            RunAction::Prepare => ActV::Prepare,
            RunAction::Finish { error, usage } => ActV::Finish(
                match error {
                    Some(e) => Some(e@),
                    None => None,
                },
                *usage,
            ),
            RunAction::Fail { message } => ActV::Fail(message@),
        }
    }
}

pub open spec fn act_views(s: Seq<RunAction>) -> Seq<ActV> {
    s.map_values(|a: RunAction| a@)
}

/// The usage of two requests together.
pub open spec fn usage_sum(a: Usage, b: Usage) -> Usage {
    Usage {
        prompt_tokens: (a.prompt_tokens + b.prompt_tokens) as u32,
        completion_tokens: (a.completion_tokens + b.completion_tokens) as u32,
        total_tokens: (a.total_tokens + b.total_tokens) as u32,
    }
}

/// Whether two usages can be added within 32 bits.
pub open spec fn usage_fits(a: Usage, b: Usage) -> bool {
    &&& a.prompt_tokens + b.prompt_tokens <= u32::MAX
    &&& a.completion_tokens + b.completion_tokens <= u32::MAX
    &&& a.total_tokens + b.total_tokens <= u32::MAX
}

/// How the run goes on with the call at index `i`: past the last call the
/// round is closed; a call of a dangerous tool is put to the user first;
/// any other call is run.
pub open spec fn next_call(st: RunV, i: int) -> (Stage, Seq<ActV>) {
    if i >= st.calls.len() {
        (Stage::Closing, seq![ActV::EndRound])
    } else if needs_approval(st.tools, st.calls[i].1) {
        (Stage::Approving(i as usize), seq![ActV::AskApproval(i)])
    } else {
        (Stage::Running(i as usize), seq![ActV::RunTool(i)])
    }
}

/// Answers the call at `i` with `text` and goes on with the next call.
pub open spec fn answer(st: RunV, i: int, text: Seq<char>) -> (RunV, Seq<ActV>) {
    let (sg, a) = next_call(st, i + 1);
    (RunV { stage: sg, ..st }, seq![ActV::Answer(i, text)] + a)
}

/// Ends the run: `Done` with the running total, after the error if any.
pub open spec fn finish_run(s: RunV, e: Option<Seq<char>>) -> (RunV, Seq<ActV>) {
    (RunV { stage: Stage::Finished, ..s }, seq![ActV::Finish(e, s.total)])
}

/// The run's state after `ev` and the actions it calls for. Events that do
/// not fit the stage change nothing.
pub open spec fn run_step_spec(st: RunV, ev: EventV) -> (RunV, Seq<ActV>) {
    match st.stage {
        Stage::Idle => match ev {
            EventV::Ready(cancelled) => if st.rounds >= MAX_TOOL_ROUNDS {
                finish_run(st, Some(max_rounds_text()))
            } else if cancelled {
                finish_run(st, None)
            } else {
                (RunV { rounds: st.rounds + 1, stage: Stage::Chatting, ..st }, seq![ActV::Chat])
            },
            _ => (st, seq![]),
        },
        Stage::Chatting => match ev {
            EventV::ChatCancelled => finish_run(st, None),
            EventV::ChatFailed(m) => (RunV { stage: Stage::Finished, ..st }, seq![ActV::Fail(m)]),
            EventV::ChatEnded(u, calls, had_error) => {
                let s1 = RunV { total: usage_sum(st.total, u), calls: calls, ..st };
                if calls.len() == 0 || had_error {
                    (RunV { stage: Stage::Finished, ..s1 }, seq![ActV::Usage(s1.total), ActV::Finish(None, s1.total)])
                } else {
                    let (sg, a) = next_call(s1, 0);
                    (RunV { stage: sg, ..s1 }, seq![ActV::Usage(s1.total), ActV::RecordCalls] + a)
                }
            },
            _ => (st, seq![]),
        },
        Stage::Approving(i) => match ev {
            EventV::Approval(true) => (RunV { stage: Stage::Running(i), ..st }, seq![ActV::RunTool(i as int)]),
            EventV::Approval(false) => {
                let m = "Tool execution denied by user: "@ + st.calls[i as int].1;
                answer(st, i as int, m)
            },
            _ => (st, seq![]),
        },
        Stage::Running(i) => match ev {
            EventV::BadArguments(e) => {
                let m = "Failed to parse tool arguments: "@ + e;
                answer(st, i as int, m)
            },
            EventV::Executed(r) => answer(st, i as int, shown_result(r)),
            _ => (st, seq![]),
        },
        Stage::Closing => match ev {
            EventV::RoundClosed(cancelled) => if cancelled {
                finish_run(st, None)
            } else {
                (RunV { stage: Stage::Idle, ..st }, seq![ActV::Prepare])
            },
            _ => (st, seq![]),
        },
        Stage::Finished => (st, seq![]),
    }
}

/// The message of a run that used up its rounds.
pub open spec fn max_rounds_text() -> Seq<char> {
    "已达到最大工具调用轮数 (30)。任务可能过于复杂，建议拆分为多个步骤逐一完成。"@
}

/// A state the machine can be in: at most `MAX_TOOL_ROUNDS` requests, and
/// the call being approved or run is one of the round's calls.
pub open spec fn run_wf(st: RunV) -> bool {
    &&& st.rounds <= MAX_TOOL_ROUNDS
    &&& match st.stage {
        Stage::Approving(i) => i < st.calls.len(),
        Stage::Running(i) => i < st.calls.len(),
        _ => true,
    }
}

impl RunState {
    pub open spec fn wf(&self) -> bool {
        run_wf(self@)
    }

    /// A run that has not begun, with the registered tools as
    /// (name, dangerous).
    pub fn new(tools: Vec<(String, bool)>) -> (r: RunState)
        ensures
            r@ == (RunV {
                rounds: 0,
                total: Usage { prompt_tokens: 0, completion_tokens: 0, total_tokens: 0 },
                calls: seq![],
                tools: tools@.map_values(|t: (String, bool)| (t.0@, t.1)),
                stage: Stage::Idle,
            }),
            r.wf(),
    {
        let r = RunState {
            rounds: 0,
            total: Usage { prompt_tokens: 0, completion_tokens: 0, total_tokens: 0 },
            calls: Vec::new(),
            tools,
            stage: Stage::Idle,
        };
        assert(call_triples(r.calls@) =~= seq![]);
        r
    }

    /// Whether the run has ended.
    pub fn is_finished(&self) -> (r: bool)
        ensures
            r == (self.stage is Finished),
    {
        match self.stage {
            Stage::Finished => true,
            _ => false,
        }
    }
}

fn next_call_exec(state: &mut RunState, i: usize, out: &mut Vec<RunAction>)
    requires
        run_wf(old(state)@),
        i <= old(state).calls@.len(),
    ensures
        final(state)@ == (RunV { stage: next_call(old(state)@, i as int).0, ..old(state)@ }),
        act_views(final(out)@) == act_views(old(out)@) + next_call(old(state)@, i as int).1,
        run_wf(final(state)@),
{
    let ghost a0 = act_views(out@);
    if i >= state.calls.len() {
        state.stage = Stage::Closing;
        out.push(RunAction::EndRound);
    } else {
        let ghost cv = call_triples(state.calls@);
        assert(cv[i as int].1 == state.calls@[i as int].1@);
        if tool_needs_approval(&state.tools, &state.calls[i].1) {
            state.stage = Stage::Approving(i);
            out.push(RunAction::AskApproval { index: i });
        } else {
            state.stage = Stage::Running(i);
            out.push(RunAction::RunTool { index: i });
        }
    }
    assert(act_views(out@) =~= a0 + next_call(old(state)@, i as int).1);
}

/// Takes one event of the run and returns the actions that follow it.
pub fn run_step(state: &mut RunState, event: RunEvent) -> (actions: Vec<RunAction>)
    requires
        old(state).wf(),
        event matches RunEvent::ChatEnded(r) ==> usage_fits(old(state).total, r.usage),
    ensures
        final(state).wf(),
        (final(state)@, act_views(actions@)) == run_step_spec(old(state)@, event@),
{
    let mut out: Vec<RunAction> = Vec::new();
    let ghost s0 = state@;
    let ghost ev = event@;
    match state.stage {
        Stage::Idle => match event {
            RunEvent::Ready { cancelled } => {
                if state.rounds >= MAX_TOOL_ROUNDS {
                    state.stage = Stage::Finished;
                    out.push(RunAction::Finish { error: Some(max_rounds_message()), usage: state.total });
                } else if cancelled {
                    state.stage = Stage::Finished;
                    out.push(RunAction::Finish { error: None, usage: state.total });
                } else {
                    state.rounds = state.rounds + 1;
                    state.stage = Stage::Chatting;
                    out.push(RunAction::Chat);
                }
            },
            _ => {},
        },
        Stage::Chatting => match event {
            RunEvent::ChatCancelled => {
                state.stage = Stage::Finished;
                out.push(RunAction::Finish { error: None, usage: state.total });
            },
            RunEvent::ChatFailed(m) => {
                state.stage = Stage::Finished;
                out.push(RunAction::Fail { message: m });
            },
            RunEvent::ChatEnded(r) => {
                let u = r.usage;
                state.total = Usage {
                    prompt_tokens: state.total.prompt_tokens + u.prompt_tokens,
                    completion_tokens: state.total.completion_tokens + u.completion_tokens,
                    total_tokens: state.total.total_tokens + u.total_tokens,
                };
                let n = r.tool_calls.len();
                state.calls = r.tool_calls;
                out.push(RunAction::Usage { total: state.total });
                if n == 0 || r.had_error {
                    state.stage = Stage::Finished;
                    out.push(RunAction::Finish { error: None, usage: state.total });
                } else {
                    out.push(RunAction::RecordCalls);
                    next_call_exec(state, 0, &mut out);
                }
            },
            _ => {},
        },
        Stage::Approving(i) => match event {
            RunEvent::Approval(ok) => {
                if ok {
                    state.stage = Stage::Running(i);
                    out.push(RunAction::RunTool { index: i });
                } else {
                    let n = state.calls.len();
                    assert(i < n);
                    let ghost cv = call_triples(state.calls@);
                    assert(cv[i as int].1 == state.calls@[i as int].1@);
                    let m = denied_message(state.calls[i].1.as_str());
                    out.push(RunAction::Answer { index: i, text: m });
                    next_call_exec(state, i + 1, &mut out);
                }
            },
            _ => {},
        },
        Stage::Running(i) => match event {
            RunEvent::BadArguments(e) => {
                let n = state.calls.len();
                assert(i < n);
                let m = bad_arguments_message(e.as_str());
                out.push(RunAction::Answer { index: i, text: m });
                next_call_exec(state, i + 1, &mut out);
            },
            RunEvent::Executed(res) => {
                let n = state.calls.len();
                assert(i < n);
                let text = result_text(&res);
                out.push(RunAction::Answer { index: i, text });
                next_call_exec(state, i + 1, &mut out);
            },
            _ => {},
        },
        Stage::Closing => match event {
            RunEvent::RoundClosed { cancelled } => {
                if cancelled {
                    state.stage = Stage::Finished;
                    out.push(RunAction::Finish { error: None, usage: state.total });
                } else {
                    state.stage = Stage::Idle;
                    out.push(RunAction::Prepare);
                }
            },
            _ => {},
        },
        Stage::Finished => {},
    }
    assert(act_views(out@) =~= run_step_spec(s0, ev).1);
    out
}

// ─── Laws of a whole run ───────────────────────────────────────────────

/// The state and all actions after a sequence of events.
pub open spec fn run_fold(st: RunV, evs: Seq<EventV>) -> (RunV, Seq<ActV>)
    decreases evs.len(),
{
    if evs.len() == 0 {
        (st, seq![])
    } else {
        let (s1, a1) = run_fold(st, evs.drop_last());
        let (s2, a2) = run_step_spec(s1, evs.last());
        (s2, a1 + a2)
    }
}

/// How many chat requests the actions make.
pub open spec fn chats(a: Seq<ActV>) -> nat
    decreases a.len(),
{
    if a.len() == 0 {
        0
    } else {
        chats(a.drop_last()) + if a.last() is Chat {
            1nat
        } else {
            0nat
        }
    }
}

/// Whether an action ends the run.
pub open spec fn ends(a: ActV) -> bool {
    a is Finish || a is Fail
}

/// How many actions end the run.
pub open spec fn end_count(a: Seq<ActV>) -> nat
    decreases a.len(),
{
    if a.len() == 0 {
        0
    } else {
        end_count(a.drop_last()) + if ends(a.last()) {
            1nat
        } else {
            0nat
        }
    }
}

proof fn lemma_counts_add(a: Seq<ActV>, b: Seq<ActV>)
    ensures
        chats(a + b) == chats(a) + chats(b),
        end_count(a + b) == end_count(a) + end_count(b),
    decreases b.len(),
{
    if b.len() == 0 {
        assert(a + b =~= a);
    } else {
        lemma_counts_add(a, b.drop_last());
        assert((a + b).drop_last() =~= a + b.drop_last());
        assert((a + b).last() == b.last());
    }
}

proof fn lemma_one(x: ActV)
    ensures
        chats(seq![x]) == (if x is Chat { 1nat } else { 0nat }),
        end_count(seq![x]) == (if ends(x) { 1nat } else { 0nat }),
{
    let a = seq![x];
    assert(a.len() == 1);
    assert(a.last() == x);
    assert(a.drop_last() =~= Seq::<ActV>::empty());
    assert(chats(Seq::<ActV>::empty()) == 0);
    assert(end_count(Seq::<ActV>::empty()) == 0);
    assert(chats(a) == chats(a.drop_last()) + if a.last() is Chat { 1nat } else { 0nat });
    assert(end_count(a) == end_count(a.drop_last()) + if ends(a.last()) { 1nat } else { 0nat });
}

proof fn lemma_two(x: ActV, y: ActV)
    ensures
        chats(seq![x, y]) == chats(seq![x]) + chats(seq![y]),
        end_count(seq![x, y]) == end_count(seq![x]) + end_count(seq![y]),
        seq![x, y].drop_last() =~= seq![x],
{
    lemma_counts_add(seq![x], seq![y]);
    assert(seq![x] + seq![y] =~= seq![x, y]);
}

proof fn lemma_next_call(st: RunV, i: int)
    ensures
        chats(next_call(st, i).1) == 0,
        end_count(next_call(st, i).1) == 0,
        !(next_call(st, i).0 is Finished),
{
    lemma_one(next_call(st, i).1[0]);
    assert(next_call(st, i).1 =~= seq![next_call(st, i).1[0]]);
}

/// One step: a finished run does nothing; otherwise the step makes a chat
/// request exactly when it counts a round, keeps within the rounds, and
/// either ends the run with exactly one last action carrying the running
/// total (a `Finish`) or does not end it.
proof fn lemma_step(st: RunV, ev: EventV)
    requires
        run_wf(st),
    ensures
        ({
            let (s2, a) = run_step_spec(st, ev);
            &&& run_wf(s2)
            &&& st.stage is Finished ==> s2 == st && a.len() == 0
            &&& chats(a) == s2.rounds - st.rounds
            &&& (s2.stage is Finished) == (st.stage is Finished || end_count(a) == 1)
            &&& end_count(a) <= 1
            &&& end_count(a) == 1 ==> ends(a.last()) && end_count(a.drop_last()) == 0
            &&& end_count(a) == 1 ==> (a.last() matches ActV::Finish(_, u) ==> u == s2.total)
        }),
{
    let (s2, a) = run_step_spec(st, ev);
    if a.len() == 0 {
        assert(a =~= Seq::<ActV>::empty());
    } else if a.len() == 1 {
        lemma_one(a[0]);
        assert(a =~= seq![a[0]]);
        assert(a.drop_last() =~= Seq::<ActV>::empty());
    } else {
        match st.stage {
            Stage::Chatting => match ev {
                EventV::ChatEnded(u, calls, had_error) => {
                    let s1 = RunV { total: usage_sum(st.total, u), calls: calls, ..st };
                    if calls.len() == 0 || had_error {
                        lemma_two(ActV::Usage(s1.total), ActV::Finish(None, s1.total));
                        lemma_one(ActV::Usage(s1.total));
                        lemma_one(ActV::Finish(None, s1.total));
                    } else {
                        lemma_next_call(s1, 0);
                        lemma_two(ActV::Usage(s1.total), ActV::RecordCalls);
                        lemma_one(ActV::Usage(s1.total));
                        lemma_one(ActV::RecordCalls);
                        lemma_counts_add(seq![ActV::Usage(s1.total), ActV::RecordCalls], next_call(s1, 0).1);
                    }
                },
                _ => {},
            },
            Stage::Approving(i) => match ev {
                EventV::Approval(false) => {
                    lemma_next_call(st, i + 1);
                    let m = "Tool execution denied by user: "@ + st.calls[i as int].1;
                    lemma_one(ActV::Answer(i as int, m));
                    lemma_counts_add(seq![ActV::Answer(i as int, m)], next_call(st, i + 1).1);
                },
                _ => {},
            },
            Stage::Running(i) => match ev {
                EventV::BadArguments(e) => {
                    lemma_next_call(st, i + 1);
                    let m = "Failed to parse tool arguments: "@ + e;
                    lemma_one(ActV::Answer(i as int, m));
                    lemma_counts_add(seq![ActV::Answer(i as int, m)], next_call(st, i + 1).1);
                },
                EventV::Executed(r) => {
                    lemma_next_call(st, i + 1);
                    lemma_one(ActV::Answer(i as int, shown_result(r)));
                    lemma_counts_add(seq![ActV::Answer(i as int, shown_result(r))], next_call(st, i + 1).1);
                },
                _ => {},
            },
            _ => {},
        }
    }
}

/// Over any sequence of events from a run that has not ended: the chat
/// requests made are the rounds counted, so never more than
/// `MAX_TOOL_ROUNDS` in all; at most one action ends the run, it is the
/// last action, it comes exactly when the run is finished, and a `Finish`
/// carries the usage summed over the run's rounds.
pub proof fn law_run_ends_once(st: RunV, evs: Seq<EventV>)
    requires
        run_wf(st),
        !(st.stage is Finished),
    ensures
        ({
            let (s2, a) = run_fold(st, evs);
            &&& run_wf(s2)
            &&& chats(a) == s2.rounds - st.rounds
            &&& s2.rounds <= MAX_TOOL_ROUNDS
            &&& end_count(a) <= 1
            &&& (s2.stage is Finished) == (end_count(a) == 1)
            &&& end_count(a) == 1 ==> ends(a.last()) && end_count(a.drop_last()) == 0
            &&& end_count(a) == 1 ==> (a.last() matches ActV::Finish(_, u) ==> u == s2.total)
        }),
    decreases evs.len(),
{
    if evs.len() > 0 {
        law_run_ends_once(st, evs.drop_last());
        let (s1, a1) = run_fold(st, evs.drop_last());
        let (s2, a2) = run_step_spec(s1, evs.last());
        lemma_step(s1, evs.last());
        lemma_counts_add(a1, a2);
        let a = a1 + a2;
        if a2.len() == 0 {
            assert(a =~= a1);
        } else {
            assert(a.last() == a2.last());
            assert(a.drop_last() =~= a1 + a2.drop_last());
            lemma_counts_add(a1, a2.drop_last());
        }
    }
}

/// A dangerous tool never runs unasked: every `RunTool` action that a step
/// produces is for a call whose tool needs no approval, or answers the
/// user's approval of that very call.
pub proof fn law_dangerous_tools_wait_for_approval(st: RunV, ev: EventV, k: int)
    requires
        run_wf(st),
        0 <= k < run_step_spec(st, ev).1.len(),
        run_step_spec(st, ev).1[k] matches ActV::RunTool(_),
    ensures
        run_step_spec(st, ev).1[k] matches ActV::RunTool(i) && 0 <= i < run_step_spec(st, ev).0.calls.len() && (
            !needs_approval(run_step_spec(st, ev).0.tools, run_step_spec(st, ev).0.calls[i].1)
            || (st.stage == Stage::Approving(i as usize) && ev == EventV::Approval(true))),
{
}

} // verus!
