//! What a tool call hands back to the agent.
use vstd::prelude::*;
use crate::text::{push_str, string_of};

verus! {

/// The outcome of one tool call: on success the content, on failure an
/// error message (and usually empty content).
#[derive(Debug)]
pub struct ToolResult {
    pub success: bool,
    pub content: String,
    pub error: Option<String>,
}

/// Mathematical view of a [`ToolResult`].
pub struct ResultV {
    pub success: bool,
    pub content: Seq<char>,
    pub error: Option<Seq<char>>,
}

impl View for ToolResult {
    type V = ResultV;

    open spec fn view(&self) -> ResultV {
        ResultV {
            success: self.success,
            content: self.content@,
            error: match self.error {
                Some(e) => Some(e@),
                None => None,
            },
        }
    }
}

/// A successful result carrying `content`.
pub open spec fn ok_v(content: Seq<char>) -> ResultV {
    ResultV { success: true, content, error: None }
}

/// A failed result carrying the message `e`.
pub open spec fn err_v(e: Seq<char>) -> ResultV {
    ResultV { success: false, content: seq![], error: Some(e) }
}

impl ToolResult {
    /// A successful result.
    pub fn ok(content: String) -> (r: ToolResult)
        ensures
            r@ == ok_v(content@),
    {
        ToolResult { success: true, content, error: None }
    }

    /// A failed result.
    pub fn err(message: String) -> (r: ToolResult)
        ensures
            r@ == err_v(message@),
    {
        ToolResult { success: false, content: String::new(), error: Some(message) }
    }
}

/// The failure for a missing argument.
pub fn missing_parameter(name: &str) -> (r: ToolResult)
    ensures
        r@ == err_v("Missing required parameter: "@ + name@),
{
    let mut v: Vec<char> = Vec::new();
    push_str(&mut v, "Missing required parameter: ");
    push_str(&mut v, name);
    ToolResult::err(string_of(&v))
}

/// A failure whose message is `prefix` followed by `detail`.
pub fn failure(prefix: &str, detail: &str) -> (r: ToolResult)
    ensures
        r@ == err_v(prefix@ + detail@),
{
    let mut v: Vec<char> = Vec::new();
    push_str(&mut v, prefix);
    push_str(&mut v, detail);
    ToolResult::err(string_of(&v))
}

} // verus!
