use xuflow_core::agent::RoundState;
use xuflow_core::run::{run_step, RunAction, RunEvent, RunState};
use xuflow_core::tokens::Usage;
use xuflow_core::tool::ToolResult;

fn round(calls: &[(&str, &str, &str)], total: u32) -> RoundState {
    RoundState {
        tool_calls: calls.iter().map(|(a, b, c)| (a.to_string(), b.to_string(), c.to_string())).collect(),
        usage: Usage { prompt_tokens: total, completion_tokens: 0, total_tokens: total },
        had_error: false,
    }
}

#[test]
fn a_run_with_a_denied_and_a_run_tool() {
    let mut st = RunState::new(vec![("bash".to_string(), true), ("read_file".to_string(), false)]);
    let a = run_step(&mut st, RunEvent::Ready { cancelled: false });
    assert!(matches!(a.as_slice(), [RunAction::Chat]));
    let a = run_step(&mut st, RunEvent::ChatEnded(round(&[("1", "bash", "{}"), ("2", "read_file", "{}")], 7)));
    assert!(matches!(a.as_slice(), [RunAction::Usage { .. }, RunAction::RecordCalls, RunAction::AskApproval { index: 0 }]));
    let a = run_step(&mut st, RunEvent::Approval(false));
    match a.as_slice() {
        [RunAction::Answer { index: 0, text }, RunAction::RunTool { index: 1 }] => {
            assert_eq!(text, "Tool execution denied by user: bash");
        }
        _ => panic!("unexpected actions"),
    }
    let a = run_step(&mut st, RunEvent::Executed(ToolResult::err("gone".to_string())));
    match a.as_slice() {
        [RunAction::Answer { index: 1, text }, RunAction::EndRound] => {
            assert_eq!(text, "Error: gone");
        }
        _ => panic!("unexpected actions"),
    }
    let a = run_step(&mut st, RunEvent::RoundClosed { cancelled: false });
    assert!(matches!(a.as_slice(), [RunAction::Prepare]));
    let a = run_step(&mut st, RunEvent::Ready { cancelled: false });
    assert!(matches!(a.as_slice(), [RunAction::Chat]));
    let a = run_step(&mut st, RunEvent::ChatEnded(round(&[], 5)));
    match a.as_slice() {
        [RunAction::Usage { total }, RunAction::Finish { error: None, usage }] => {
            assert_eq!(total.total_tokens, 12);
            assert_eq!(usage.total_tokens, 12);
        }
        _ => panic!("unexpected actions"),
    }
    assert!(st.is_finished());
    assert!(run_step(&mut st, RunEvent::Ready { cancelled: false }).is_empty());
}

#[test]
fn a_run_stops_after_thirty_rounds() {
    let mut st = RunState::new(vec![]);
    let mut chats = 0;
    for _ in 0..30 {
        let a = run_step(&mut st, RunEvent::Ready { cancelled: false });
        assert!(matches!(a.as_slice(), [RunAction::Chat]));
        chats += 1;
        let a = run_step(&mut st, RunEvent::ChatEnded(round(&[("x", "t", "{}")], 1)));
        assert!(matches!(a.last(), Some(RunAction::RunTool { index: 0 })));
        let a = run_step(&mut st, RunEvent::BadArguments("eof".to_string()));
        assert!(matches!(a.last(), Some(RunAction::EndRound)));
        let a = run_step(&mut st, RunEvent::RoundClosed { cancelled: false });
        assert!(matches!(a.as_slice(), [RunAction::Prepare]));
    }
    assert_eq!(chats, 30);
    let a = run_step(&mut st, RunEvent::Ready { cancelled: false });
    match a.as_slice() {
        [RunAction::Finish { error: Some(e), usage }] => {
            assert!(e.starts_with("已达到最大工具调用轮数 (30)"));
            assert_eq!(usage.total_tokens, 30);
        }
        _ => panic!("unexpected actions"),
    }
}

#[test]
fn cancelling_and_failing_end_the_run() {
    let mut st = RunState::new(vec![]);
    let a = run_step(&mut st, RunEvent::Ready { cancelled: true });
    assert!(matches!(a.as_slice(), [RunAction::Finish { error: None, .. }]));
    let mut st = RunState::new(vec![]);
    run_step(&mut st, RunEvent::Ready { cancelled: false });
    let a = run_step(&mut st, RunEvent::ChatFailed("Backend error: boom".to_string()));
    match a.as_slice() {
        [RunAction::Fail { message }] => assert_eq!(message, "Backend error: boom"),
        _ => panic!("unexpected actions"),
    }
    assert!(st.is_finished());
}
