use xuflow_core::stream::{DeltaBody, Payload, ReplyState, ToolCallDelta};
use xuflow_core::tokens::StreamEvent;

#[test]
fn lines_are_taken_across_chunks() {
    let mut st = ReplyState::new();
    let p = st.feed("data: {\"a\":1}\n\nda");
    assert_eq!(p, vec!["{\"a\":1}".to_string()]);
    let p = st.feed("ta:{\"b\":2}\n: comment\nevent: x\n");
    assert_eq!(p, vec!["{\"b\":2}".to_string()]);
    let p = st.feed("data: [DONE]\ndata: after\n");
    assert!(p.is_empty());
    // the line after [DONE] waits in the buffer
    assert_eq!(st.buffer.iter().collect::<String>(), "data: after\n");
}

#[test]
fn one_chunk_or_many_give_the_same_payloads() {
    let text = "data: one\n\ndata:two\r\n  data: three  \nxx\n";
    let mut whole = ReplyState::new();
    let all = whole.feed(text);
    let mut pieces = ReplyState::new();
    let mut got = Vec::new();
    for ch in text.chars() {
        got.extend(pieces.feed(&ch.to_string()));
    }
    assert_eq!(all, vec!["one".to_string(), "two".to_string(), "three".to_string()]);
    assert_eq!(got, all);
}

fn delta(reasoning: Option<&str>, content: Option<&str>, calls: Vec<ToolCallDelta>, finish: Option<&str>) -> Payload {
    Payload {
        usage: None,
        delta: Some(DeltaBody {
            reasoning: reasoning.map(|s| s.to_string()),
            content: content.map(|s| s.to_string()),
            tool_calls: calls,
            finish_reason: finish.map(|s| s.to_string()),
        }),
    }
}

fn call(index: usize, id: &str, name: &str, args: &str) -> ToolCallDelta {
    ToolCallDelta { index, id: id.to_string(), name: name.to_string(), arguments: args.to_string() }
}

#[test]
fn reasoning_then_text() {
    let mut st = ReplyState::new();
    let ev = st.apply(delta(Some("think"), None, vec![], None));
    assert!(matches!(&ev[..], [StreamEvent::ReasoningDelta { delta }] if delta == "think"));
    assert!(st.in_reasoning);
    let ev = st.apply(delta(None, Some("answer"), vec![], None));
    assert_eq!(ev.len(), 2);
    assert!(matches!(ev[0], StreamEvent::ReasoningDone));
    assert!(matches!(&ev[1], StreamEvent::TextDelta { delta } if delta == "answer"));
    assert!(!st.in_reasoning);
}

#[test]
fn tool_calls_are_assembled_by_index() {
    let mut st = ReplyState::new();
    let ev = st.apply(delta(None, None, vec![call(1, "b", "grep", "{\"p\""), call(0, "a", "read_file", "{")], None));
    assert!(ev.is_empty());
    st.apply(delta(None, None, vec![call(0, "", "", "}"), call(1, "", "", ":1}")], None));
    let ev = st.apply(delta(None, None, vec![], Some("tool_calls")));
    assert_eq!(ev.len(), 2);
    match (&ev[0], &ev[1]) {
        (
            StreamEvent::ToolCall { id: i0, name: n0, arguments: a0 },
            StreamEvent::ToolCall { id: i1, name: n1, arguments: a1 },
        ) => {
            assert_eq!((i0.as_str(), n0.as_str(), a0.as_str()), ("a", "read_file", "{}"));
            assert_eq!((i1.as_str(), n1.as_str(), a1.as_str()), ("b", "grep", "{\"p\":1}"));
        }
        other => panic!("unexpected {:?}", other),
    }
    assert!(st.calls.is_empty());
}

#[test]
fn nameless_calls_are_dropped_and_usage_kept() {
    let mut st = ReplyState::new();
    st.apply(delta(None, None, vec![call(0, "x", "", "{}")], None));
    let ev = st.apply(delta(None, None, vec![], Some("stop")));
    assert!(ev.is_empty());
    st.apply(Payload { usage: Some((5, 7, 12)), delta: None });
    let ev = st.finish();
    assert_eq!(ev.len(), 1);
    match &ev[0] {
        StreamEvent::Done { usage } => assert_eq!((usage.prompt_tokens, usage.completion_tokens, usage.total_tokens), (5, 7, 12)),
        other => panic!("unexpected {:?}", other),
    }
}

#[test]
fn finishing_inside_reasoning_closes_it() {
    let mut st = ReplyState::new();
    st.apply(delta(Some("hmm"), None, vec![], None));
    let ev = st.finish();
    assert_eq!(ev.len(), 2);
    assert!(matches!(ev[0], StreamEvent::ReasoningDone));
    assert!(matches!(ev[1], StreamEvent::Done { .. }));
}
