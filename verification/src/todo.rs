//! The planning tools: `todo_write` (the task list) and `propose_plan`.
//! Both only check their arguments; the agent forwards them to the user.
use vstd::prelude::*;
use crate::text::{chars_of, eq_lit, push_all, push_str, string_of};
use crate::num::{dec, dec_chars};
use crate::tool::{ToolResult, err_v};
use crate::tokens::{StreamEvent, TodoItem};
use crate::text::str_views;

verus! {

/// One item of the `todos` argument, as far as it is read: its `content`
/// and `status` when they are strings.
pub struct TodoArg {
    pub content: Option<String>,
    pub status: Option<String>,
}

/// The statuses a task can have.
pub open spec fn valid_status(s: Seq<char>) -> bool {
    s == "pending"@ || s == "in_progress"@ || s == "completed"@
}

pub open spec fn status_text(s: Option<String>) -> Seq<char> {
    match s {
        Some(t) => t@,
        None => seq![],
    }
}

/// The first invalid item at or after `i`, with its error.
pub open spec fn first_todo_error(items: Seq<TodoArg>, i: int) -> Option<Seq<char>>
    decreases items.len() - i,
{
    if i < 0 || i >= items.len() {
        None
    } else if items[i].content is None {
        Some("Todo item "@ + dec(i as nat) + " missing 'content'"@)
    } else if !valid_status(status_text(items[i].status)) {
        Some("Todo item "@ + dec(i as nat) + " has invalid status: '"@ + status_text(items[i].status) + "'"@)
    } else {
        first_todo_error(items, i + 1)
    }
}

fn first_invalid(items: &Vec<TodoArg>) -> (r: Option<String>)
    ensures
        match r {
            Some(e) => first_todo_error(items@, 0) == Some(e@),
            None => first_todo_error(items@, 0) is None,
        },
{
    let mut i: usize = 0;
    while i < items.len()
        invariant
            i <= items@.len(),
            first_todo_error(items@, 0) == first_todo_error(items@, i as int),
        decreases items@.len() - i,
    {
        let item = &items[i];
        match &item.content {
            None => {
                let mut v: Vec<char> = Vec::new();
                push_str(&mut v, "Todo item ");
                let d = dec_chars(i as u64);
                push_all(&mut v, &d);
                push_str(&mut v, " missing 'content'");
                return Some(string_of(&v));
            },
            Some(_) => {},
        }
        let st: Vec<char> = match &item.status {
            Some(s) => chars_of(s.as_str()),
            None => Vec::new(),
        };
        assert(st@ == status_text(items@[i as int].status));
        if !(eq_lit(&st, "pending") || eq_lit(&st, "in_progress") || eq_lit(&st, "completed")) {
            let mut v: Vec<char> = Vec::new();
            push_str(&mut v, "Todo item ");
            let d = dec_chars(i as u64);
            push_all(&mut v, &d);
            push_str(&mut v, " has invalid status: '");
            push_all(&mut v, &st);
            push_str(&mut v, "'");
            return Some(string_of(&v));
        }
        i = i + 1;
    }
    None
}

/// Checks the `todos` argument (`None`: missing or not an array).
pub fn validate_todos(todos: &Option<Vec<TodoArg>>) -> (r: Option<String>)
    ensures
        match *todos {
            None => (r matches Some(e) && e@ == "Missing required parameter: todos (array)"@),
            Some(items) => match r {
                Some(e) => first_todo_error(items@, 0) == Some(e@),
                None => first_todo_error(items@, 0) is None,
            },
        },
{
    match todos {
        None => Some(String::from_str("Missing required parameter: todos (array)")),
        Some(items) => first_invalid(items),
    }
}

/// Checks the arguments of `propose_plan`: a string `title`, an array
/// `steps` and an array `files_to_modify`, in that order.
pub fn validate_plan(has_title: bool, has_steps: bool, has_files: bool) -> (r: Option<String>)
    ensures
        !has_title ==> (r matches Some(e) && e@ == "Missing required parameter: title"@),
        has_title && !has_steps ==> (r matches Some(e) && e@ == "Missing required parameter: steps (array)"@),
        has_title && has_steps && !has_files ==> (r matches Some(e) && e@
            == "Missing required parameter: files_to_modify (array)"@),
        has_title && has_steps && has_files ==> r is None,
{
    if !has_title {
        Some(String::from_str("Missing required parameter: title"))
    } else if !has_steps {
        Some(String::from_str("Missing required parameter: steps (array)"))
    } else if !has_files {
        Some(String::from_str("Missing required parameter: files_to_modify (array)"))
    } else {
        None
    }
}

/// Keeps the structured task list.
pub struct TodoWriteTool;

/// Proposes a plan for approval.
pub struct ProposePlanTool;

impl TodoWriteTool {
    /// The description shown to the model.
    pub fn description(&self) -> (r: &'static str)
        ensures
            r@ == "Create or update a structured task list to track your progress. Pass the FULL list of todos each time — not just the delta. Each item has: content (string), status (one of: pending, in_progress, completed). Use this for multi-step tasks so the user can see what you're working on. Mark the current task as 'in_progress' and update it to 'completed' when done."@,
    {
        "Create or update a structured task list to track your progress. Pass the FULL list of todos each time — not just the delta. Each item has: content (string), status (one of: pending, in_progress, completed). Use this for multi-step tasks so the user can see what you're working on. Mark the current task as 'in_progress' and update it to 'completed' when done."
    }

    pub fn name(&self) -> (r: &'static str)
        ensures
            r@ == "todo_write"@,
    {
        "todo_write"
    }

    pub fn is_dangerous(&self) -> (r: bool)
        ensures
            !r,
    {
        false
    }
}

impl ProposePlanTool {
    /// The description shown to the model.
    pub fn description(&self) -> (r: &'static str)
        ensures
            r@ == "Propose an implementation plan before writing code. The plan must include a title, ordered list of steps, and the files that will be modified. Call this tool BEFORE making changes — the user must approve the plan first."@,
    {
        "Propose an implementation plan before writing code. The plan must include a title, ordered list of steps, and the files that will be modified. Call this tool BEFORE making changes — the user must approve the plan first."
    }

    pub fn name(&self) -> (r: &'static str)
        ensures
            r@ == "propose_plan"@,
    {
        "propose_plan"
    }

    pub fn is_dangerous(&self) -> (r: bool)
        ensures
            r,
    {
        true
    }
}

// ─── Events for the user ───────────────────────────────────────────────

/// The task list shown to the user: the items that have both a `content`
/// and a `status` string, in order.
pub open spec fn shown_todos(items: Seq<TodoArg>) -> Seq<(Seq<char>, Seq<char>)>
    decreases items.len(),
{
    if items.len() == 0 {
        seq![]
    } else {
        let prev = shown_todos(items.drop_last());
        match (items.last().content, items.last().status) {
            (Some(c), Some(s)) => prev.push((c@, s@)),
            _ => prev,
        }
    }
}

pub open spec fn todo_views(t: Seq<TodoItem>) -> Seq<(Seq<char>, Seq<char>)> {
    t.map_values(|x: TodoItem| (x.content@, x.status@))
}

/// The task-list event for the items of a successful `todo_write`.
pub fn todo_update_event(items: &Vec<TodoArg>) -> (r: StreamEvent)
    ensures
        r matches StreamEvent::TodoUpdate { todos } && todo_views(todos@) == shown_todos(items@),
{
    let mut out: Vec<TodoItem> = Vec::new();
    let mut i: usize = 0;
    while i < items.len()
        invariant
            i <= items@.len(),
            todo_views(out@) == shown_todos(items@.take(i as int)),
        decreases items@.len() - i,
    {
        assert(items@.take(i + 1).drop_last() =~= items@.take(i as int));
        match (&items[i].content, &items[i].status) {
            (Some(c), Some(st)) => {
                let ghost before = out@;
                out.push(TodoItem { content: c.clone(), status: st.clone() });
                assert(todo_views(out@) =~= todo_views(before).push((c@, st@)));
            },
            _ => {},
        }
        i = i + 1;
    }
    assert(items@.take(i as int) =~= items@);
    StreamEvent::TodoUpdate { todos: out }
}

/// The strings of a list, in order (other values left out).
pub open spec fn strings_in(v: Seq<Option<String>>) -> Seq<Seq<char>>
    decreases v.len(),
{
    if v.len() == 0 {
        seq![]
    } else {
        match v.last() {
            Some(s) => strings_in(v.drop_last()).push(s@),
            None => strings_in(v.drop_last()),
        }
    }
}

fn keep_strings(v: &Option<Vec<Option<String>>>) -> (r: Vec<String>)
    ensures
        str_views(r@) == match *v {
            Some(items) => strings_in(items@),
            None => seq![],
        },
{
    let mut out: Vec<String> = Vec::new();
    match v {
        None => {},
        Some(items) => {
            let mut i: usize = 0;
            while i < items.len()
                invariant
                    i <= items@.len(),
                    str_views(out@) == strings_in(items@.take(i as int)),
                decreases items@.len() - i,
            {
                assert(items@.take(i + 1).drop_last() =~= items@.take(i as int));
                match &items[i] {
                    Some(s) => {
                        let ghost before = out@;
                        out.push(s.clone());
                        proof {
                            crate::text::lemma_str_views_push(before, out@.last());
                        }
                    },
                    None => {},
                }
                i = i + 1;
            }
            assert(items@.take(i as int) =~= items@);
        },
    }
    out
}

/// The plan event for the reply of a successful `propose_plan`: its
/// `title` ("" when missing) and the strings of its `steps` and
/// `files_to_modify` lists (empty when missing).
pub fn plan_event(title: Option<String>, steps: &Option<Vec<Option<String>>>, files: &Option<Vec<Option<String>>>) -> (r: StreamEvent)
    ensures
        r matches StreamEvent::PlanProposed { title: t, steps: s, files_to_modify: f }
            && t@ == (match title {
                Some(x) => x@,
                None => seq![],
            })
            && str_views(s@) == (match *steps {
                Some(items) => strings_in(items@),
                None => seq![],
            })
            && str_views(f@) == (match *files {
                Some(items) => strings_in(items@),
                None => seq![],
            }),
{
    let t = match title {
        Some(x) => x,
        None => String::new(),
    };
    StreamEvent::PlanProposed { title: t, steps: keep_strings(steps), files_to_modify: keep_strings(files) }
}

/// What a planning tool's reply holds, read from its JSON text: the
/// "todos" array's items (`None` when it is missing or not an array), the
/// "title" string, and the "steps" and "files_to_modify" arrays.
pub struct PlanningReply {
    pub todos: Option<Vec<TodoArg>>,
    pub title: Option<String>,
    pub steps: Option<Vec<Option<String>>>,
    pub files: Option<Vec<Option<String>>>,
}

/// The structured event a successful planning tool adds to the stream:
/// `todo_write` shows its tasks (when its reply has a "todos" array),
/// `propose_plan` its plan. Nothing for other tools, failed runs, or a
/// reply that is not JSON (`reply` is `None`).
pub fn planning_event(name: &str, success: bool, reply: Option<PlanningReply>) -> (r: Option<StreamEvent>)
    ensures
        match reply {
            Some(rp) if success && name@ == "todo_write"@ => match rp.todos {
                Some(items) => r matches Some(StreamEvent::TodoUpdate { todos }) && todo_views(todos@) == shown_todos(items@),
                None => r is None,
            },
            Some(rp) if success && name@ == "propose_plan"@ => r matches Some(StreamEvent::PlanProposed { title: t, steps: s, files_to_modify: f })
                && t@ == (match rp.title {
                    Some(x) => x@,
                    None => seq![],
                })
                && str_views(s@) == (match rp.steps {
                    Some(items) => strings_in(items@),
                    None => seq![],
                })
                && str_views(f@) == (match rp.files {
                    Some(items) => strings_in(items@),
                    None => seq![],
                }),
            _ => r is None,
        },
{
    if !success {
        return None;
    }
    let rp = match reply {
        Some(rp) => rp,
        None => return None,
    };
    let n = chars_of(name);
    if eq_lit(&n, "todo_write") {
        proof {
            reveal_strlit("todo_write");
            reveal_strlit("propose_plan");
        }
        match &rp.todos {
            Some(items) => Some(todo_update_event(items)),
            None => None,
        }
    } else if eq_lit(&n, "propose_plan") {
        Some(plan_event(rp.title, &rp.steps, &rp.files))
    } else {
        None
    }
}

} // verus!
