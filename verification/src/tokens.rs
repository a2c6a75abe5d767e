//! Model-side bookkeeping: CJK character classes for the token estimate,
//! context window sizes, and the events streamed to the front end.
use vstd::prelude::*;
use crate::text::{chars_of, find, find_chars, to_lowercase, lowercase, trim, trim_chars, string_of};

verus! {

/// CJK unified ideographs (and extension A, compatibility ideographs),
/// Hiragana, Katakana and Hangul syllables.
pub open spec fn cjk(c: char) -> bool {
    let u = c as u32;
    ||| (0x4E00 <= u && u <= 0x9FFF)
    ||| (0x3400 <= u && u <= 0x4DBF)
    ||| (0xF900 <= u && u <= 0xFAFF)
    ||| (0x3040 <= u && u <= 0x309F)
    ||| (0x30A0 <= u && u <= 0x30FF)
    ||| (0xAC00 <= u && u <= 0xD7AF)
}

/// Whether `c` lies in one of the CJK / Japanese / Korean blocks.
pub fn is_cjk_char(c: char) -> (r: bool)
    ensures
        r == cjk(c),
{
    let u = c as u32;
    (0x4E00 <= u && u <= 0x9FFF) || (0x3400 <= u && u <= 0x4DBF) || (0xF900 <= u && u <= 0xFAFF)
        || (0x3040 <= u && u <= 0x309F) || (0x30A0 <= u && u <= 0x30FF) || (0xAC00 <= u && u
        <= 0xD7AF)
}

/// How many characters of `s` are CJK.
pub open spec fn cjk_count(s: Seq<char>) -> nat
    decreases s.len(),
{
    if s.len() == 0 {
        0
    } else {
        cjk_count(s.drop_last()) + if cjk(s.last()) {
            1nat
        } else {
            0nat
        }
    }
}

/// The number of characters of `text` and how many of them are CJK; the
/// token estimate weighs the two kinds differently.
pub fn char_counts(text: &str) -> (r: (usize, usize))
    ensures
        r.0 == text@.len(),
        r.1 == cjk_count(text@),
{
    let c = chars_of(text);
    let mut n: usize = 0;
    let mut i: usize = 0;
    while i < c.len()
        invariant
            i <= c@.len(),
            c@ == text@,
            n == cjk_count(c@.take(i as int)),
            n <= i,
        decreases c@.len() - i,
    {
        assert(c@.take(i + 1).drop_last() =~= c@.take(i as int));
        if is_cjk_char(c[i]) {
            n = n + 1;
        }
        i = i + 1;
    }
    assert(c@.take(i as int) =~= c@);
    (c.len(), n)
}

/// What the token estimate reads of a message's content: its text, or
/// which other kind of JSON value it is.
pub enum ContentShape {
    Text(String),
    Object,
    Array,
    Other,
}

/// Whether `s` is the text of exactly one JSON value (the outcome of
/// `serde_json::from_str::<serde_json::Value>`).
pub uninterp spec fn json_valid(s: Seq<char>) -> bool;

/// `serde_json::from_str::<serde_json::Value>(s).is_ok()`: whether serde_json
/// reads `s` as one JSON value. What that grammar accepts is left to the
/// name `json_valid`.
#[verifier::external_body]
fn json_parses(s: &str) -> (r: bool)
    ensures
        r == json_valid(s@),
{
    serde_json::from_str::<serde_json::Value>(s).is_ok()
}

/// Structured content: a JSON object or array, or a text that, trimmed,
/// starts with `{` or `[` and is valid JSON.
pub open spec fn structured(c: ContentShape) -> bool {
    match c {
        ContentShape::Text(s) => {
            let t = trim(s@);
            t.len() > 0 && (t[0] == '{' || t[0] == '[') && json_valid(t)
        },
        ContentShape::Object => true,
        ContentShape::Array => true,
        ContentShape::Other => false,
    }
}

/// Whether content looks like JSON or a tool reply, which the token estimate
/// counts at a lower rate.
pub fn is_structured_content(content: &ContentShape) -> (r: bool)
    ensures
        r == structured(*content),
{
    match content {
        ContentShape::Text(s) => {
            let c = chars_of(s.as_str());
            let t = trim_chars(&c);
            if t.len() > 0 && (t[0] == '{' || t[0] == '[') {
                let ts = string_of(&t);
                json_parses(ts.as_str())
            } else {
                false
            }
        },
        ContentShape::Object => true,
        ContentShape::Array => true,
        ContentShape::Other => false,
    }
}

/// The context window assumed for every model, in tokens.
pub const DEFAULT_CONTEXT_WINDOW: u32 = 128_000;

/// The default context window for a model: DeepSeek, Doubao and GLM
/// models have 128k tokens, and so does any other model.
pub fn default_context_window(model_id: &str) -> (r: u32)
    ensures
        r == 128_000,
{
    let lower = to_lowercase(model_id);
    let l = chars_of(lower.as_str());
    let deepseek = chars_of("deepseek");
    if find_chars(&l, &deepseek).is_some() {
        return DEFAULT_CONTEXT_WINDOW;
    }
    let doubao = chars_of("doubao");
    if find_chars(&l, &doubao).is_some() {
        return DEFAULT_CONTEXT_WINDOW;
    }
    let glm = chars_of("glm");
    if find_chars(&l, &glm).is_some() {
        return DEFAULT_CONTEXT_WINDOW;
    }
    DEFAULT_CONTEXT_WINDOW
}

/// Token usage that a backend reports for one request.
#[derive(Debug, Clone, Copy)]
pub struct Usage {
    pub prompt_tokens: u32,
    pub completion_tokens: u32,
    pub total_tokens: u32,
}

/// One entry of the task list shown to the user.
#[derive(Debug)]
pub struct TodoItem {
    pub content: String,
    /// "pending", "in_progress" or "completed".
    pub status: String,
}

/// What the agent streams to the front end.
#[derive(Debug)]
pub enum StreamEvent {
    TextDelta { delta: String },
    /// A piece of the model's reasoning.
    ReasoningDelta { delta: String },
    /// The reasoning block ended.
    ReasoningDone,
    ToolCall { id: String, name: String, arguments: String },
    ToolResult { id: String, content: String },
    ApprovalRequired { tool: String, params: String },
    /// The task list changed.
    TodoUpdate { todos: Vec<TodoItem> },
    /// A plan awaits the user's approval.
    PlanProposed { title: String, steps: Vec<String>, files_to_modify: Vec<String> },
    /// Token usage before ("before") and after ("after") a request.
    TokenUsage {
        phase: String,
        estimated: u32,
        actual: Option<u32>,
        context_window: u32,
        context_remaining: u32,
    },
    /// Older turns were dropped to fit the context window.
    ContextTrimmed {
        rounds_removed: u32,
        tokens_freed: u32,
        current_usage_percent: u32,
        context_window: u32,
    },
    /// Older turns were replaced by a summary.
    ContextSummarized { turns_summarized: u32, summary_length: u32 },
    Done { usage: Usage },
    Error { message: String },
}

/// The front-end event channel of a stream event.
pub fn event_channel(e: &StreamEvent) -> (r: &'static str)
    ensures
        r@ == match *e {
            StreamEvent::TextDelta { .. } => "agent:text-delta"@,
            StreamEvent::ReasoningDelta { .. } => "agent:reasoning-delta"@,
            StreamEvent::ReasoningDone => "agent:reasoning-done"@,
            StreamEvent::ToolCall { .. } => "agent:tool-call"@,
            StreamEvent::ToolResult { .. } => "agent:tool-result"@,
            StreamEvent::ApprovalRequired { .. } => "agent:approval-required"@,
            StreamEvent::TodoUpdate { .. } => "agent:todo-update"@,
            StreamEvent::PlanProposed { .. } => "agent:plan-proposed"@,
            StreamEvent::TokenUsage { .. } => "agent:token-usage"@,
            StreamEvent::ContextTrimmed { .. } => "agent:context-trimmed"@,
            StreamEvent::ContextSummarized { .. } => "agent:context-summarized"@,
            StreamEvent::Done { .. } => "agent:done"@,
            StreamEvent::Error { .. } => "agent:error"@,
        },
{
    match e {
        StreamEvent::TextDelta { .. } => "agent:text-delta",
        StreamEvent::ReasoningDelta { .. } => "agent:reasoning-delta",
        StreamEvent::ReasoningDone => "agent:reasoning-done",
        StreamEvent::ToolCall { .. } => "agent:tool-call",
        StreamEvent::ToolResult { .. } => "agent:tool-result",
        StreamEvent::ApprovalRequired { .. } => "agent:approval-required",
        StreamEvent::TodoUpdate { .. } => "agent:todo-update",
        StreamEvent::PlanProposed { .. } => "agent:plan-proposed",
        StreamEvent::TokenUsage { .. } => "agent:token-usage",
        StreamEvent::ContextTrimmed { .. } => "agent:context-trimmed",
        StreamEvent::ContextSummarized { .. } => "agent:context-summarized",
        StreamEvent::Done { .. } => "agent:done",
        StreamEvent::Error { .. } => "agent:error",
    }
}

} // verus!
